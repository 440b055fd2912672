//! Requests for signals of a wave form held by a remote server: the URLs and how the
//! signals are split into requests whose URLs stay under a length limit.
use crate::text::{ilog10, lemma_nat_decimal_digits, nat_decimal, push_decimal, chars_of, string_of};
use vstd::prelude::*;

verus! {

/// The length that a signal adds to a request URL: a `/` and the decimal digits of its index.
pub open spec fn signal_part_len(index: nat) -> int {
    1int + nat_decimal(index).len()
}

/// The URL that asks for the signals `indices`: the base URL, then `/` and the index of each.
pub open spec fn signal_url(base: Seq<char>, indices: Seq<usize>) -> Seq<char>
    decreases indices.len(),
{
    if indices.len() == 0 {
        base
    } else {
        signal_url(base, indices.drop_last()) + seq!['/'] + nat_decimal(indices.last() as nat)
    }
}

/// The length of a request URL for `indices`, given the length of the base URL.
pub open spec fn batch_url_len(base_len: int, indices: Seq<usize>) -> int
    decreases indices.len(),
{
    if indices.len() == 0 {
        base_len
    } else {
        batch_url_len(base_len, indices.drop_last()) + signal_part_len(indices.last() as nat)
    }
}

/// The requests made for `indices` taken in order: the finished requests, the request being
/// filled and the length of its URL. A signal goes into the current request unless that
/// would make its URL longer than `max_len` and the request already holds a signal; then the
/// request is sent and a new one starts with that signal.
pub open spec fn batch_fold(base_len: int, max_len: int, indices: Seq<usize>) -> (
    Seq<Seq<usize>>,
    Seq<usize>,
    int,
)
    decreases indices.len(),
{
    if indices.len() == 0 {
        (Seq::empty(), Seq::empty(), base_len)
    } else {
        let (done, cur, len) = batch_fold(base_len, max_len, indices.drop_last());
        let s = indices.last();
        let part = signal_part_len(s as nat);
        if len + part > max_len && cur.len() > 0 {
            (done.push(cur), seq![s], base_len + part)
        } else {
            (done, cur.push(s), len + part)
        }
    }
}

/// The requests made for `indices`, in order.
pub open spec fn signal_batches(base_len: int, max_len: int, indices: Seq<usize>) -> Seq<
    Seq<usize>,
> {
    let (done, cur, _) = batch_fold(base_len, max_len, indices);
    if cur.len() > 0 {
        done.push(cur)
    } else {
        done
    }
}

/// The requests, one after another.
pub open spec fn concat_batches(batches: Seq<Seq<usize>>) -> Seq<usize>
    decreases batches.len(),
{
    if batches.len() == 0 {
        Seq::empty()
    } else {
        concat_batches(batches.drop_last()) + batches.last()
    }
}

/// Helper to calculate URL length for a signal index
pub fn signal_url_len(index: usize) -> (res: usize)
    ensures
        res == signal_part_len(index as nat),
{
    proof {
        lemma_nat_decimal_digits(index as nat);
    }
    let digits: u32 = if index == 0 {
        0
    } else {
        ilog10(index as u64)
    };
    digits as usize + 2
}

/// The URL that asks for the signals `signals`.
pub fn format_signal_url(base_url: &str, signals: &[usize]) -> (res: String)
    ensures
        res@ == signal_url(base_url@, signals@),
{
    let mut url = chars_of(base_url);
    let mut i: usize = 0;
    while i < signals.len()
        invariant
            i <= signals.len(),
            url@ == signal_url(base_url@, signals@.subrange(0, i as int)),
        decreases signals.len() - i,
    {
        assert(signals@.subrange(0, i + 1).drop_last() =~= signals@.subrange(0, i as int));
        url.push('/');
        push_decimal(signals[i] as u64, &mut url);
        i = i + 1;
    }
    assert(signals@.subrange(0, signals@.len() as int) =~= signals@);
    string_of(&url)
}

/// Splits the signals `indices` into requests whose URLs are at most `max_url_length` long,
/// keeping their order; a signal whose URL alone is longer gets a request of its own.
pub fn plan_signal_batches(base_len: usize, indices: &[usize], max_url_length: u16) -> (res: Vec<
    Vec<usize>,
>)
    requires
        base_len <= isize::MAX,
    ensures
        res@.map_values(|b: Vec<usize>| b@) == signal_batches(
            base_len as int,
            max_url_length as int,
            indices@,
        ),
{
    let max_len = max_url_length as usize;
    let mut done: Vec<Vec<usize>> = Vec::new();
    let mut cur: Vec<usize> = Vec::new();
    let mut cur_len: usize = base_len;
    let mut i: usize = 0;
    while i < indices.len()
        invariant
            i <= indices.len(),
            base_len <= isize::MAX,
            max_len == max_url_length,
            done@.map_values(|b: Vec<usize>| b@) == batch_fold(
                base_len as int,
                max_len as int,
                indices@.subrange(0, i as int),
            ).0,
            cur@ == batch_fold(base_len as int, max_len as int, indices@.subrange(0, i as int)).1,
            cur_len == batch_fold(base_len as int, max_len as int, indices@.subrange(0, i as int)).2,
            cur_len <= base_len + 21 || cur_len <= max_len,
        decreases indices.len() - i,
    {
        let ghost before = indices@.subrange(0, i as int);
        assert(indices@.subrange(0, i + 1).drop_last() =~= before);
        let s = indices[i];
        let part = signal_url_len(s);
        proof {
            lemma_signal_part_len_bound(s);
        }
        if cur_len + part > max_len && cur.len() > 0 {
            let ghost old_done = done@;
            let full = cur;
            done.push(full);
            assert(done@.map_values(|b: Vec<usize>| b@) =~= old_done.map_values(
                |b: Vec<usize>| b@,
            ).push(full@));
            cur = Vec::new();
            cur.push(s);
            cur_len = base_len + part;
        } else {
            cur.push(s);
            cur_len = cur_len + part;
        }
        i = i + 1;
    }
    assert(indices@.subrange(0, indices@.len() as int) =~= indices@);
    if cur.len() > 0 {
        let ghost old_done = done@;
        let last = cur;
        done.push(last);
        assert(done@.map_values(|b: Vec<usize>| b@) =~= old_done.map_values(|b: Vec<usize>| b@).push(
            last@,
        ));
    }
    done
}

/// A request that is sent: it holds a signal, and its URL is within the limit unless it
/// holds a single signal.
pub open spec fn batch_fits(base_len: int, max_len: int, batch: Seq<usize>) -> bool {
    batch.len() > 0 && (batch_url_len(base_len, batch) <= max_len || batch.len() == 1)
}

/// What holds of the requests after each signal.
proof fn lemma_batch_fold(base_len: int, max_len: int, indices: Seq<usize>)
    ensures
        ({
            let (done, cur, len) = batch_fold(base_len, max_len, indices);
            &&& concat_batches(done) + cur == indices
            &&& forall|k: int| 0 <= k < done.len() ==> batch_fits(base_len, max_len, #[trigger] done[k])
            &&& len == batch_url_len(base_len, cur)
            &&& cur.len() > 0 ==> (len <= max_len || cur.len() == 1)
            &&& indices.len() > 0 ==> cur.len() > 0
        }),
    decreases indices.len(),
{
    if indices.len() > 0 {
        let prev = indices.drop_last();
        lemma_batch_fold(base_len, max_len, prev);
        let (done, cur, len) = batch_fold(base_len, max_len, prev);
        let s = indices.last();
        let part = signal_part_len(s as nat);
        assert(prev.push(s) =~= indices);
        if len + part > max_len && cur.len() > 0 {
            let done2 = done.push(cur);
            assert(done2.drop_last() =~= done);
            assert(seq![s].drop_last() =~= Seq::<usize>::empty());
            assert(batch_url_len(base_len, Seq::<usize>::empty()) == base_len);
            assert(seq![s].last() == s);
            assert(batch_url_len(base_len, seq![s]) == base_len + part);
            assert(concat_batches(done2) + seq![s] =~= indices);
            assert forall|k: int| 0 <= k < done2.len() implies batch_fits(
                base_len,
                max_len,
                #[trigger] done2[k],
            ) by {
                if k < done.len() {
                    assert(done2[k] == done[k]);
                }
            }
        } else {
            assert(cur.push(s).drop_last() =~= cur);
            assert(concat_batches(done) + cur.push(s) =~= indices);
        }
    }
}

/// Every signal is asked for exactly once, and in the order given: the requests, one after
/// another, hold exactly `indices`.
pub proof fn law_batches_cover_signals(base_len: int, max_len: int, indices: Seq<usize>)
    ensures
        concat_batches(signal_batches(base_len, max_len, indices)) == indices,
{
    lemma_batch_fold(base_len, max_len, indices);
    let (done, cur, _) = batch_fold(base_len, max_len, indices);
    if cur.len() > 0 {
        assert(done.push(cur).drop_last() =~= done);
    } else {
        assert(concat_batches(done) + cur =~= concat_batches(done));
    }
}

/// No request is empty, and the URL of each is at most `max_len` long unless it asks for a
/// single signal whose URL alone is longer.
pub proof fn law_batches_fit(base_len: int, max_len: int, indices: Seq<usize>)
    ensures
        forall|k: int|
            0 <= k < signal_batches(base_len, max_len, indices).len() ==> batch_fits(
                base_len,
                max_len,
                #[trigger] signal_batches(base_len, max_len, indices)[k],
            ),
{
    lemma_batch_fold(base_len, max_len, indices);
    let (done, cur, _) = batch_fold(base_len, max_len, indices);
    let batches = signal_batches(base_len, max_len, indices);
    assert forall|k: int| 0 <= k < batches.len() implies batch_fits(
        base_len,
        max_len,
        #[trigger] batches[k],
    ) by {
        if k < done.len() {
            assert(batches[k] == done[k]);
        }
    }
}

/// No signals, no requests.
pub proof fn law_no_signals_no_requests(base_len: int, max_len: int)
    ensures
        signal_batches(base_len, max_len, Seq::empty()).len() == 0,
{
}

/// The length of a request URL, as the batching counts it, is that of the URL made for it.
pub proof fn law_url_len_matches_url(base: Seq<char>, indices: Seq<usize>)
    ensures
        batch_url_len(base.len() as int, indices) == signal_url(base, indices).len(),
    decreases indices.len(),
{
    if indices.len() > 0 {
        law_url_len_matches_url(base, indices.drop_last());
    }
}

/// A signal index takes at most twenty digits.
proof fn lemma_signal_part_len_bound(s: usize)
    ensures
        signal_part_len(s as nat) <= 21,
{
    assert(crate::text::pow10(20) == 100000000000000000000) by {
        reveal_with_fuel(crate::text::pow10, 21);
    }
    lemma_decimal_len_below(s as nat, 20);
}

/// A number below `10^k`, for `k >= 1`, has at most `k` digits.
proof fn lemma_decimal_len_below(n: nat, k: nat)
    requires
        k >= 1,
        n < crate::text::pow10(k),
    ensures
        nat_decimal(n).len() <= k,
    decreases k,
{
    if n >= 10 {
        assert(n / 10 < crate::text::pow10((k - 1) as nat)) by {
            assert(crate::text::pow10(k) == 10 * crate::text::pow10((k - 1) as nat));
        }
        if k == 1 {
            assert(crate::text::pow10(1) == 10) by {
                reveal_with_fuel(crate::text::pow10, 2);
            }
        } else {
            lemma_decimal_len_below(n / 10, (k - 1) as nat);
        }
    }
}

} // verus!
