//! Rows of a transaction stream: each transaction goes on the first row that is free when it
//! starts.
//!
//! Times are natural numbers of any size, each given by the decimal text that `Display`
//! writes for it.
use crate::text::{digit_value, digits_value, is_nat_text, lemma_digits_value_prefix};
use vstd::prelude::*;

verus! {

/// The time that a decimal text writes.
pub open spec fn time_value(t: Seq<char>) -> int {
    digits_value(t)
}

/// The texts of a list of start and end times.
pub open spec fn time_texts(rows: Seq<(String, String)>) -> Seq<(Seq<char>, Seq<char>)> {
    rows.map_values(|r: (String, String)| (r.0@, r.1@))
}

/// Every start and end time is the decimal text of a natural number.
pub open spec fn all_times_well_formed(rows: Seq<(Seq<char>, Seq<char>)>) -> bool {
    forall|i: int| 0 <= i < rows.len() ==> is_nat_text(#[trigger] rows[i].0) && is_nat_text(rows[i].1)
}

/// The first row whose last transaction ends no later than `start`; the number of rows when
/// there is none.
pub open spec fn first_free_row(rows: Seq<(Seq<char>, Seq<char>)>, start: Seq<char>) -> int
    decreases rows.len(),
{
    if rows.len() == 0 {
        0
    } else if time_value(rows[0].1) <= time_value(start) {
        0
    } else {
        1 + first_free_row(rows.drop_first(), start)
    }
}

/// The rows after placing a transaction that runs from `t.0` to `t.1`: it takes the first
/// free row, or a new row after the others.
pub open spec fn place_transaction(
    rows: Seq<(Seq<char>, Seq<char>)>,
    t: (Seq<char>, Seq<char>),
) -> Seq<(Seq<char>, Seq<char>)> {
    let i = first_free_row(rows, t.0);
    if i < rows.len() {
        rows.update(i, t)
    } else {
        rows.push(t)
    }
}

/// The rows after placing each of `ts` in order.
pub open spec fn rows_after(
    rows: Seq<(Seq<char>, Seq<char>)>,
    ts: Seq<(Seq<char>, Seq<char>)>,
) -> Seq<(Seq<char>, Seq<char>)>
    decreases ts.len(),
{
    if ts.len() == 0 {
        rows
    } else {
        place_transaction(rows_after(rows, ts.drop_last()), ts.last())
    }
}

proof fn lemma_first_free_row(rows: Seq<(Seq<char>, Seq<char>)>, start: Seq<char>)
    ensures
        0 <= first_free_row(rows, start) <= rows.len(),
        forall|j: int|
            0 <= j < first_free_row(rows, start) ==> time_value(#[trigger] rows[j].1) > time_value(
                start,
            ),
        first_free_row(rows, start) < rows.len() ==> time_value(
            rows[first_free_row(rows, start)].1,
        ) <= time_value(start),
    decreases rows.len(),
{
    if rows.len() > 0 && time_value(rows[0].1) > time_value(start) {
        lemma_first_free_row(rows.drop_first(), start);
        assert forall|j: int| 0 <= j < first_free_row(rows, start) implies time_value(
            #[trigger] rows[j].1,
        ) > time_value(start) by {
            if j > 0 {
                assert(rows[j] == rows.drop_first()[j - 1]);
            }
        }
    }
}

proof fn lemma_first_free_row_at(rows: Seq<(Seq<char>, Seq<char>)>, start: Seq<char>, k: int)
    requires
        0 <= k <= rows.len(),
        forall|j: int| 0 <= j < k ==> time_value(#[trigger] rows[j].1) > time_value(start),
        k == rows.len() || time_value(rows[k].1) <= time_value(start),
    ensures
        first_free_row(rows, start) == k,
    decreases rows.len(),
{
    if rows.len() > 0 && k > 0 {
        assert forall|j: int| 0 <= j < k - 1 implies time_value(
            #[trigger] rows.drop_first()[j].1,
        ) > time_value(start) by {
            assert(rows.drop_first()[j] == rows[j + 1]);
        }
        lemma_first_free_row_at(rows.drop_first(), start, k - 1);
    }
}

/// `num`'s `BigUint` comparison: whether the time written by `a` is later than that written
/// by `b`; both texts are read by `BigUint`'s `FromStr`.
#[verifier::external_body]
fn time_later(a: &str, b: &str) -> (res: bool)
    requires
        is_nat_text(a@),
        is_nat_text(b@),
    ensures
        res == (time_value(a@) > time_value(b@)),
{
    a.parse::<num::BigUint>().unwrap() > b.parse::<num::BigUint>().unwrap()
}

/// Places each transaction, given by its start and end time, on the first row whose last
/// transaction has ended when it starts, adding a row when none has; `last_times_on_row`
/// holds the times of the last transaction of each row.
pub fn calculate_rows_of_stream(
    transactions: &[(String, String)],
    last_times_on_row: &mut Vec<(String, String)>,
)
    requires
        transactions@.len() > 0 ==> old(last_times_on_row)@.len() > 0,
        all_times_well_formed(time_texts(old(last_times_on_row)@)),
        all_times_well_formed(time_texts(transactions@)),
    ensures
        time_texts(final(last_times_on_row)@) == rows_after(
            time_texts(old(last_times_on_row)@),
            time_texts(transactions@),
        ),
{
    let ghost ts = time_texts(transactions@);
    let mut k: usize = 0;
    assert(ts.take(0) =~= Seq::<(Seq<char>, Seq<char>)>::empty());
    while k < transactions.len()
        invariant
            k <= transactions@.len(),
            ts == time_texts(transactions@),
            all_times_well_formed(ts),
            ts.len() > 0 ==> last_times_on_row@.len() > 0,
            all_times_well_formed(time_texts(last_times_on_row@)),
            time_texts(last_times_on_row@) == rows_after(
                time_texts(old(last_times_on_row)@),
                ts.take(k as int),
            ),
        decreases transactions@.len() - k,
    {
        let start_time = transactions[k].0.clone();
        let end_time = transactions[k].1.clone();
        assert(ts[k as int] == (start_time@, end_time@));
        assert(is_nat_text(ts[k as int].0));
        let ghost before = time_texts(last_times_on_row@);
        proof {
            reveal_strlit("0");
        }
        let ghost zero_row: (Seq<char>, Seq<char>) = ("0"@, "0"@);
        proof {
            lemma_digits_value_prefix(start_time@, 0);
            let z = seq!['0'];
            assert(z.len() == 1 && z.last() == '0');
            assert(z.drop_last() =~= Seq::<char>::empty());
            assert(digits_value(z.drop_last()) == 0);
            assert(digits_value(z) == digits_value(z.drop_last()) * 10 + digit_value(z.last()));
            assert(time_value(seq!['0']) == 0);
        }
        let old_len = last_times_on_row.len();
        let mut curr_row: usize = 0;
        assert forall|j: int| 0 <= j < last_times_on_row@.len() implies is_nat_text(
            (#[trigger] last_times_on_row@[j]).1@,
        ) by {
            assert(is_nat_text(time_texts(last_times_on_row@)[j].0));
            assert(time_texts(last_times_on_row@)[j] == (
                last_times_on_row@[j].0@,
                last_times_on_row@[j].1@,
            ));
        }
        assert(time_texts(last_times_on_row@)[0] == before[0]);
        while time_later(last_times_on_row[curr_row].1.as_str(), start_time.as_str())
            invariant
                curr_row <= old_len,
                old_len == before.len(),
                before.len() > 0,
                curr_row < last_times_on_row@.len(),
                is_nat_text(start_time@),
                time_value(start_time@) >= 0,
                time_value(seq!['0']) == 0,
                zero_row == ("0"@, "0"@),
                "0"@ == seq!['0'],
                forall|j: int| 0 <= j < curr_row ==> time_value(#[trigger] before[j].1) > time_value(start_time@),
                all_times_well_formed(time_texts(last_times_on_row@)),
                forall|j: int|
                    0 <= j < last_times_on_row@.len() ==> is_nat_text(
                        (#[trigger] last_times_on_row@[j]).1@,
                    ),
                time_texts(last_times_on_row@) == (if curr_row < old_len {
                    before
                } else {
                    before.push(zero_row)
                }),
            decreases old_len + 1 - curr_row,
        {
            assert(time_texts(last_times_on_row@)[curr_row as int] == (
                last_times_on_row@[curr_row as int].0@,
                last_times_on_row@[curr_row as int].1@,
            ));
            if curr_row == old_len {
                assert(before.push(zero_row)[curr_row as int] == zero_row);
                assert(false);
            }
            curr_row = curr_row + 1;
            if last_times_on_row.len() <= curr_row {
                let zero: String = "0".to_owned();
                let zero_end: String = "0".to_owned();
                let ghost prev = last_times_on_row@;
                assert(is_nat_text(seq!['0']));
                last_times_on_row.push((zero, zero_end));
                assert(time_texts(last_times_on_row@) =~= time_texts(prev).push(zero_row));
                assert(last_times_on_row@[curr_row as int].1@ == seq!['0']);
            }
            assert(time_texts(last_times_on_row@)[curr_row as int] == (
                last_times_on_row@[curr_row as int].0@,
                last_times_on_row@[curr_row as int].1@,
            ));
        }
        assert(time_texts(last_times_on_row@)[curr_row as int] == (
            last_times_on_row@[curr_row as int].0@,
            last_times_on_row@[curr_row as int].1@,
        ));
        proof {
            lemma_first_free_row_at(before, start_time@, curr_row as int);
            assert(ts.take(k + 1).drop_last() =~= ts.take(k as int));
            assert(ts.take(k + 1).last() == (start_time@, end_time@));
        }
        let ghost mid = time_texts(last_times_on_row@);
        last_times_on_row.set(curr_row, (start_time, end_time));
        proof {
            assert(time_texts(last_times_on_row@) =~= mid.update(
                curr_row as int,
                ts[k as int],
            ));
            if curr_row < old_len {
            } else {
                assert(before.push(zero_row).update(curr_row as int, ts[k as int]) =~= before.push(
                    ts[k as int],
                ));
            }
        }
        k = k + 1;
    }
    assert(ts.take(k as int) =~= ts);
}

/// A transaction is placed on a row whose last transaction had ended when it starts, and every
/// row before it was still busy.
pub proof fn law_transaction_takes_first_free_row(
    rows: Seq<(Seq<char>, Seq<char>)>,
    t: (Seq<char>, Seq<char>),
)
    ensures
        ({
            let i = first_free_row(rows, t.0);
            &&& 0 <= i <= rows.len()
            &&& place_transaction(rows, t)[i] == t
            &&& i < rows.len() ==> time_value(rows[i].1) <= time_value(t.0)
            &&& forall|j: int|
                0 <= j < i ==> time_value(rows[j].1) > time_value(t.0) && place_transaction(
                    rows,
                    t,
                )[j] == rows[j]
        }),
{
    lemma_first_free_row(rows, t.0);
}

} // verus!
