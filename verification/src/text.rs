//! Character-level helpers shared by the formatting code.
use vstd::utf8::{decode_utf8, valid_utf8};
use vstd::prelude::*;

verus! {

broadcast use vstd::string::axiom_spec_iter;

/// Whether `c` is one of the ASCII decimal digits.
pub open spec fn is_digit(c: char) -> bool {
    '0' <= c && c <= '9'
}

/// The value of an ASCII decimal digit.
pub open spec fn digit_value(c: char) -> int {
    c as int - '0' as int
}

/// The ASCII character of a decimal digit `d` in `0..10`.
pub open spec fn digit_char(d: int) -> char {
    (d + 48) as char
}

/// Decimal representation of a natural number, without leading zeros.
pub open spec fn nat_decimal(n: nat) -> Seq<char>
    decreases n,
{
    if n < 10 {
        seq![digit_char(n as int)]
    } else {
        nat_decimal(n / 10).push(digit_char((n % 10) as int))
    }
}

/// Decimal representation of an integer, with a leading `-` when negative.
pub open spec fn int_decimal(i: int) -> Seq<char> {
    if i < 0 {
        seq!['-'] + nat_decimal((-i) as nat)
    } else {
        nat_decimal(i as nat)
    }
}

/// The characters of `s`, in order.
pub(crate) fn chars_of(s: &str) -> (res: Vec<char>)
    ensures
        res@ == s@,
{
    let mut res: Vec<char> = Vec::new();
    for c in it: s.chars()
        invariant
            res@ == it.seq().take(it.index() as int),
    {
        res.push(c);
    }
    res
}

/// `String::from_utf8`: the text of `bytes` when they are valid UTF-8, and none otherwise.
#[verifier::external_body]
pub(crate) fn utf8_text(bytes: Vec<u8>) -> (res: Option<String>)
    ensures
        res is Some <==> valid_utf8(bytes@),
        res matches Some(s) ==> s@ == decode_utf8(bytes@),
{
    String::from_utf8(bytes).ok()
}

/// A `String` collected from the characters `v` (`FromIterator<&char>`): it holds exactly
/// those characters, in order.
#[verifier::external_body]
pub(crate) fn string_of(v: &[char]) -> (res: String)
    ensures
        res@ == v@,
{
    v.iter().collect()
}

/// The digit character for `d`.
pub fn digit_to_char(d: u8) -> (c: char)
    requires
        d < 10,
    ensures
        c == digit_char(d as int),
        is_digit(c),
        digit_value(c) == d,
{
    (d + 48) as char
}

/// Appends the decimal representation of `n` to `out`.
pub fn push_decimal(n: u64, out: &mut Vec<char>)
    ensures
        final(out)@ == old(out)@ + nat_decimal(n as nat),
    decreases n,
{
    if n >= 10 {
        push_decimal(n / 10, out);
    }
    let d = digit_to_char((n % 10) as u8);
    out.push(d);
    assert(out@ =~= old(out)@ + nat_decimal(n as nat));
}

/// Appends the decimal representation of `i`, with a leading `-` when negative, to `out`.
pub fn push_signed_decimal(i: i64, out: &mut Vec<char>)
    ensures
        final(out)@ == old(out)@ + int_decimal(i as int),
{
    if i < 0 {
        out.push('-');
        let magnitude: u64 = ((-(i + 1)) as u64) + 1;
        push_decimal(magnitude, out);
        assert(out@ =~= old(out)@ + int_decimal(i as int));
    } else {
        push_decimal(i as u64, out);
    }
}

} // verus!

verus! {

/// `s` with every trailing occurrence of `c` removed.
pub open spec fn trim_end(s: Seq<char>, c: char) -> Seq<char>
    decreases s.len(),
{
    if s.len() > 0 && s.last() == c {
        trim_end(s.drop_last(), c)
    } else {
        s
    }
}

/// `s` split into groups of `n` characters counted from its end (so only the
/// first group may be shorter), joined by `sep`.
pub open spec fn group_from_right(s: Seq<char>, n: nat, sep: Seq<char>) -> Seq<char>
    decreases s.len(),
{
    if s.len() <= n || n == 0 {
        s
    } else {
        group_from_right(s.take(s.len() - n), n, sep) + sep + s.skip(s.len() - n)
    }
}

/// `s` with every `c` left out.
pub open spec fn without_char(s: Seq<char>, c: char) -> Seq<char>
    decreases s.len(),
{
    if s.len() == 0 {
        s
    } else if s.last() == c {
        without_char(s.drop_last(), c)
    } else {
        without_char(s.drop_last(), c).push(s.last())
    }
}

pub proof fn lemma_without_char_concat(a: Seq<char>, b: Seq<char>, c: char)
    ensures
        without_char(a + b, c) == without_char(a, c) + without_char(b, c),
    decreases b.len(),
{
    if b.len() == 0 {
        assert(a + b =~= a);
        assert(without_char(a, c) + without_char(b, c) =~= without_char(a, c));
    } else {
        lemma_without_char_concat(a, b.drop_last(), c);
        assert((a + b).drop_last() =~= a + b.drop_last());
        assert((a + b).last() == b.last());
        assert(without_char(a + b, c) =~= without_char(a, c) + without_char(b, c));
    }
}

pub proof fn lemma_without_absent_char(s: Seq<char>, c: char)
    requires
        !s.contains(c),
    ensures
        without_char(s, c) == s,
    decreases s.len(),
{
    if s.len() > 0 {
        assert(!s.drop_last().contains(c)) by {
            if s.drop_last().contains(c) {
                let i = choose|i: int| 0 <= i < s.drop_last().len() && s.drop_last()[i] == c;
                assert(s[i] == c);
            }
        }
        lemma_without_absent_char(s.drop_last(), c);
        assert(s.last() == s[s.len() - 1]);
        assert(s.drop_last().push(s.last()) =~= s);
    }
}

/// Leaving a character out commutes with reversing.
pub proof fn lemma_without_char_reverse(s: Seq<char>, c: char)
    ensures
        without_char(s.reverse(), c) == without_char(s, c).reverse(),
    decreases s.len(),
{
    if s.len() > 0 {
        let t = s.drop_last();
        lemma_without_char_reverse(t, c);
        assert(s.reverse() =~= seq![s.last()] + t.reverse());
        lemma_without_char_concat(seq![s.last()], t.reverse(), c);
        assert(seq![s.last()].drop_last() =~= Seq::<char>::empty());
        assert(seq![s.last()].last() == s.last());
        assert(without_char(Seq::<char>::empty(), c) =~= Seq::<char>::empty());
        if s.last() == c {
            assert(without_char(seq![s.last()], c) =~= Seq::<char>::empty());
            assert(without_char(s.reverse(), c) =~= without_char(s, c).reverse());
        } else {
            assert(without_char(seq![s.last()], c) =~= seq![s.last()]);
            assert(without_char(t, c).push(s.last()).reverse() =~= seq![s.last()] + without_char(
                t,
                c,
            ).reverse());
        }
    }
}

/// Grouping only inserts separators: leaving the separator character out of the grouped
/// text gives back a text that does not hold it.
pub proof fn law_grouping_only_inserts_separators(s: Seq<char>, n: nat, c: char)
    requires
        !s.contains(c),
    ensures
        without_char(group_from_right(s, n, seq![c]), c) == s,
    decreases s.len(),
{
    if s.len() <= n || n == 0 {
        lemma_without_absent_char(s, c);
    } else {
        let head = s.take(s.len() - n);
        let tail = s.skip(s.len() - n);
        assert(!head.contains(c)) by {
            if head.contains(c) {
                let i = choose|i: int| 0 <= i < head.len() && head[i] == c;
                assert(s[i] == c);
            }
        }
        assert(!tail.contains(c)) by {
            if tail.contains(c) {
                let i = choose|i: int| 0 <= i < tail.len() && tail[i] == c;
                assert(s[i + s.len() - n] == c);
            }
        }
        law_grouping_only_inserts_separators(head, n, c);
        let g = group_from_right(head, n, seq![c]);
        lemma_without_char_concat(g + seq![c], tail, c);
        lemma_without_char_concat(g, seq![c], c);
        assert(seq![c].drop_last() =~= Seq::<char>::empty());
        assert(seq![c].last() == c);
        assert(without_char(Seq::<char>::empty(), c) =~= Seq::<char>::empty());
        assert(without_char(seq![c], c) =~= Seq::<char>::empty());
        lemma_without_absent_char(tail, c);
        assert(head + tail =~= s);
    }
}

/// Copies `s[from..to]` to the end of `out`.
pub fn push_range(out: &mut Vec<char>, s: &[char], from: usize, to: usize)
    requires
        from <= to <= s@.len(),
    ensures
        final(out)@ == old(out)@ + s@.subrange(from as int, to as int),
{
    let mut i = from;
    while i < to
        invariant
            from <= i <= to <= s@.len(),
            out@ == old(out)@ + s@.subrange(from as int, i as int),
        decreases to - i,
    {
        out.push(s[i]);
        i += 1;
        assert(out@ =~= old(out)@ + s@.subrange(from as int, i as int));
    }
}

/// Appends all of `s` to `out`.
pub fn push_all(out: &mut Vec<char>, s: &[char])
    ensures
        final(out)@ == old(out)@ + s@,
{
    push_range(out, s, 0, s.len());
    assert(s@.subrange(0, s@.len() as int) =~= s@);
}

/// The index of the first occurrence of `c` in `s`.
pub fn find_char(s: &[char], c: char) -> (res: Option<usize>)
    ensures
        match res {
            Some(i) => i < s@.len() && s@[i as int] == c && s@.index_of_first(c) == Some(i as int),
            None => s@.index_of_first(c) is None,
        },
{
    proof {
        s@.index_of_first_ensures(c);
    }
    let mut i: usize = 0;
    while i < s.len()
        invariant
            i <= s@.len(),
            forall|j: int| 0 <= j < i ==> s@[j] != c,
        decreases s.len() - i,
    {
        if s[i] == c {
            proof {
                s@.index_of_first_ensures(c);
                match s@.index_of_first(c) {
                    Some(k) => {
                        assert(k == i as int) by {
                            if k < i {
                            } else if k > i {
                            }
                        }
                    },
                    None => {
                        assert(s@.contains(c));
                    },
                }
            }
            return Some(i);
        }
        i += 1;
    }
    proof {
        s@.index_of_first_ensures(c);
        match s@.index_of_first(c) {
            Some(k) => {
                assert(s@[k] == c);
            },
            None => {},
        }
    }
    None
}

/// `s` in reverse order.
pub fn reversed(s: &[char]) -> (res: Vec<char>)
    ensures
        res@ == s@.reverse(),
{
    let mut out: Vec<char> = Vec::new();
    let mut i = s.len();
    while i > 0
        invariant
            i <= s@.len(),
            out@.len() == s@.len() - i,
            forall|j: int| 0 <= j < out@.len() ==> out@[j] == s@[s@.len() - 1 - j],
        decreases i,
    {
        i -= 1;
        out.push(s[i]);
    }
    assert(out@ =~= s@.reverse());
    out
}

/// Groups the characters of `s` in runs of `n` counted from the end of `s`
/// and joins the runs with `sep`; e.g. `"1234567"` with `n == 3` and
/// `sep == ","` gives `"1,234,567"`.
pub fn group_n_chars(s: &[char], n: usize, sep: &[char]) -> (res: Vec<char>)
    requires
        n > 0,
    ensures
        res@ == group_from_right(s@, n as nat, sep@),
{
    let len = s.len();
    let q = len / n;
    let r = len % n;
    assert(len == n * q + r && r < n) by (nonlinear_arith)
        requires
            n > 0,
            q == len / n,
            r == len % n,
    ;
    let (first, mut remaining) = if r == 0 && q > 0 {
        (n, q - 1)
    } else {
        (r, q)
    };
    assert(len - first == remaining * n) by (nonlinear_arith)
        requires
            len == n * q + r,
            (r == 0 && q > 0 ==> first == n && remaining == q - 1),
            (!(r == 0 && q > 0) ==> first == r && remaining == q),
    ;
    assert(first == 0 ==> len == 0) by (nonlinear_arith)
        requires
            len == n * q + r,
            (r == 0 && q > 0 ==> first == n),
            (!(r == 0 && q > 0) ==> first == r),
            n > 0,
    ;
    let mut out: Vec<char> = Vec::new();
    push_range(&mut out, s, 0, first);
    assert(s@.subrange(0, first as int) =~= s@.take(first as int));
    assert(first <= n);
    let mut i = first;
    while i < len
        invariant
            first <= i <= len == s@.len(),
            n > 0,
            first <= n,
            (first == 0 ==> len == 0),
            len - i == remaining * n,
            out@ == group_from_right(s@.take(i as int), n as nat, sep@),
        decreases len - i,
    {
        assert(remaining >= 1 && remaining * n >= n && (remaining - 1) * n == remaining * n - n)
            by (nonlinear_arith)
            requires
                len - i == remaining * n,
                i < len,
                n > 0,
        ;
        push_all(&mut out, sep);
        push_range(&mut out, s, i, i + n);
        let ghost t = s@.take((i + n) as int);
        assert(t.take(t.len() - n) =~= s@.take(i as int));
        assert(t.skip(t.len() - n) =~= s@.subrange(i as int, (i + n) as int));
        assert(t.len() > n);
        i = i + n;
        remaining = remaining - 1;
    }
    assert(s@.take(len as int) =~= s@);
    out
}

} // verus!

verus! {

/// Every character of a decimal representation is a digit, and there is at least one.
pub proof fn lemma_nat_decimal_digits(n: nat)
    ensures
        nat_decimal(n).len() >= 1,
        forall|i: int| 0 <= i < nat_decimal(n).len() ==> is_digit(#[trigger] nat_decimal(n)[i]),
    decreases n,
{
    if n >= 10 {
        lemma_nat_decimal_digits(n / 10);
    }
}

/// `10^e`.
pub open spec fn pow10(e: nat) -> int
    decreases e,
{
    if e == 0 {
        1
    } else {
        10 * pow10((e - 1) as nat)
    }
}

/// The number of decimal digits of `n`, minus one: the integer part of `log10(n)` for `n >= 1`.
pub open spec fn log10_floor(n: nat) -> int {
    nat_decimal(n).len() - 1
}

/// The integer part of the decimal logarithm of `n`.
pub fn ilog10(n: u64) -> (r: u32)
    requires
        n >= 1,
    ensures
        r == log10_floor(n as nat),
        r < 20,
{
    let mut m = n;
    let mut r: u32 = 0;
    while m >= 10
        invariant
            m >= 1,
            r < 20,
            nat_decimal(n as nat).len() == nat_decimal(m as nat).len() + r,
            pow10(r as nat) * m <= n,
        decreases m,
    {
        proof {
            lemma_pow10_positive(r as nat);
        }
        assert(pow10((r + 1) as nat) * (m / 10) <= pow10(r as nat) * m) by (nonlinear_arith)
            requires
                pow10((r + 1) as nat) == 10 * pow10(r as nat),
                m >= 10,
                pow10(r as nat) >= 1,
        ;
        proof {
            lemma_pow10_positive(r as nat);
            lemma_pow10_bound(r as nat + 1, m / 10, n);
        }
        m = m / 10;
        r = r + 1;
    }
    r
}

/// `10^e` is positive.
pub proof fn lemma_pow10_positive(e: nat)
    ensures
        pow10(e) >= 1,
    decreases e,
{
    if e > 0 {
        lemma_pow10_positive((e - 1) as nat);
    }
}

/// A power of ten that fits below a `u64` has exponent below 20.
proof fn lemma_pow10_bound(e: nat, m: u64, n: u64)
    requires
        m >= 1,
        pow10(e) * m <= n,
    ensures
        e < 20,
{
    lemma_pow10_monotone(20, e);
    if e >= 20 {
        assert(pow10(20) == 100000000000000000000) by {
            reveal_with_fuel(pow10, 21);
        }
        assert(pow10(e) * m >= pow10(e)) by (nonlinear_arith)
            requires
                m >= 1,
                pow10(e) >= 0,
        ;
    }
}

/// Powers of ten grow with the exponent.
pub proof fn lemma_pow10_monotone(a: nat, b: nat)
    ensures
        a <= b ==> pow10(a) <= pow10(b),
    decreases b,
{
    if a < b {
        lemma_pow10_monotone(a, (b - 1) as nat);
        lemma_pow10_positive((b - 1) as nat);
    }
}

} // verus!

verus! {

/// The value of a string of decimal digits.
pub open spec fn digits_value(s: Seq<char>) -> int
    decreases s.len(),
{
    if s.len() == 0 {
        0
    } else {
        digits_value(s.drop_last()) * 10 + digit_value(s.last())
    }
}

/// Whether every character of `s` is a decimal digit.
pub open spec fn all_digits(s: Seq<char>) -> bool {
    forall|i: int| 0 <= i < s.len() ==> is_digit(#[trigger] s[i])
}

/// Whether `s` is the decimal text of a natural number as `Display` writes it: digits
/// without leading zeros.
pub open spec fn is_nat_text(s: Seq<char>) -> bool {
    s.len() > 0 && all_digits(s) && (s.len() == 1 || s[0] != '0')
}

/// Whether `s` is the decimal text of an integer as `Display` writes it: digits without
/// leading zeros, after a `-` for a negative number.
pub open spec fn is_int_text(s: Seq<char>) -> bool {
    if s.len() > 0 && s[0] == '-' {
        let d = s.skip(1);
        d.len() > 0 && all_digits(d) && d[0] != '0'
    } else {
        s.len() > 0 && all_digits(s) && (s.len() == 1 || s[0] != '0')
    }
}

/// The integer that a decimal text writes.
pub open spec fn int_text_value(s: Seq<char>) -> int {
    if s.len() > 0 && s[0] == '-' {
        -digits_value(s.skip(1))
    } else {
        digits_value(s)
    }
}

/// Whether `s` is the decimal text of an integer as `Display` writes it.
pub fn check_int_text(s: &str) -> (res: bool)
    ensures
        res == is_int_text(s@),
{
    let cs = chars_of(s);
    let n = cs.len();
    if n == 0 {
        return false;
    }
    let start: usize = if cs[0] == '-' {
        1
    } else {
        0
    };
    if start >= n {
        assert(s@.skip(1).len() == 0);
        return false;
    }
    let mut i = start;
    while i < n
        invariant
            start <= i <= n == cs@.len(),
            start <= 1,
            start < n,
            (start == 1) == (cs@[0] == '-'),
            cs@ == s@,
            forall|k: int| start <= k < i ==> is_digit(#[trigger] cs@[k]),
        decreases n - i,
    {
        if !('0' <= cs[i] && cs[i] <= '9') {
            proof {
                assert(!is_digit(cs@[i as int]));
                if start == 1 {
                    assert(s@.skip(1)[i - 1] == cs@[i as int]);
                    assert(!is_digit(s@.skip(1)[i - 1]));
                } else {
                    assert(!is_digit(s@[i as int]));
                }
            }
            return false;
        }
        i = i + 1;
    }
    proof {
        if start == 1 {
            assert forall|k: int| 0 <= k < s@.skip(1).len() implies is_digit(#[trigger] s@.skip(1)[k]) by {
                assert(s@.skip(1)[k] == cs@[k + 1]);
            }
            assert(s@.skip(1)[0] == cs@[1]);
        }
    }
    if cs[start] == '0' {
        start == 0 && n == 1
    } else {
        true
    }
}

/// The integer written in `s` as an optional `+` or `-` followed by at least
/// one decimal digit, when it fits an `i64`: what `i64`'s `FromStr` accepts.
pub open spec fn parse_i64_spec(s: Seq<char>) -> Option<i64> {
    let signed = s.len() > 0 && (s[0] == '-' || s[0] == '+');
    let neg = s.len() > 0 && s[0] == '-';
    let digits = if signed {
        s.skip(1)
    } else {
        s
    };
    let v = if neg {
        -digits_value(digits)
    } else {
        digits_value(digits)
    };
    if digits.len() > 0 && all_digits(digits) && i64::MIN <= v <= i64::MAX {
        Some(v as i64)
    } else {
        None
    }
}

/// The value of a digit string is at least the value of each of its prefixes.
pub proof fn lemma_digits_value_prefix(s: Seq<char>, k: int)
    requires
        0 <= k <= s.len(),
        all_digits(s),
    ensures
        digits_value(s.take(k)) <= digits_value(s),
        digits_value(s) >= 0,
    decreases s.len(),
{
    if s.len() > 0 {
        assert(all_digits(s.drop_last())) by {
            assert forall|i: int| 0 <= i < s.drop_last().len() implies is_digit(
                #[trigger] s.drop_last()[i],
            ) by {
                assert(is_digit(s[i]));
            }
        }
        assert(is_digit(s[s.len() - 1]));
        if k == s.len() {
            assert(s.take(k) =~= s);
            lemma_digits_value_prefix(s.drop_last(), 0);
        } else {
            lemma_digits_value_prefix(s.drop_last(), k);
            assert(s.drop_last().take(k) =~= s.take(k));
        }
    } else {
        assert(s.take(k) =~= s);
    }
}

/// Parses an `i64` written in decimal, as `i64`'s `FromStr` does.
pub fn parse_i64(s: &[char]) -> (res: Option<i64>)
    ensures
        res == parse_i64_spec(s@),
{
    let len = s.len();
    let signed = len > 0 && (s[0] == '-' || s[0] == '+');
    let neg = len > 0 && s[0] == '-';
    let start: usize = if signed {
        1
    } else {
        0
    };
    let ghost digits = s@.skip(start as int);
    assert(digits == (if signed {
        s@.skip(1)
    } else {
        s@
    })) by {
        if !signed {
            assert(s@.skip(0) =~= s@);
        }
    }
    if start == len {
        return None;
    }
    let bound: i128 = 9223372036854775808;
    let mut acc: i128 = 0;
    let mut i = start;
    while i < len
        invariant
            start <= i <= len == s@.len(),
            digits == s@.skip(start as int),
            signed == (s@.len() > 0 && (s@[0] == '-' || s@[0] == '+')),
            neg == (s@.len() > 0 && s@[0] == '-'),
            digits == (if signed {
                s@.skip(1)
            } else {
                s@
            }),
            bound == 9223372036854775808,
            0 <= acc <= bound,
            acc == digits_value(digits.take(i - start)),
            all_digits(digits.take(i - start)),
        decreases len - i,
    {
        let c = s[i];
        if !('0' <= c && c <= '9') {
            assert(digits[i - start] == c);
            assert(!is_digit(digits[i - start]));
            assert(!all_digits(digits));
            return None;
        }
        let d = (c as u32 - '0' as u32) as i128;
        let ghost pre = digits.take(i - start);
        let ghost next = digits.take(i - start + 1);
        assert(next.drop_last() =~= pre);
        assert(next.last() == c);
        acc = acc * 10 + d;
        i += 1;
        assert(all_digits(next)) by {
            assert forall|j: int| 0 <= j < next.len() implies is_digit(#[trigger] next[j]) by {
                if j < pre.len() {
                    assert(next[j] == pre[j]);
                }
            }
        }
        if acc > bound {
            proof {
                if all_digits(digits) {
                    lemma_digits_value_prefix(digits, i - start);
                }
            }
            return None;
        }
    }
    assert(digits.take(len - start) =~= digits);
    if neg {
        Some((-acc) as i64)
    } else if acc <= 9223372036854775807 {
        Some(acc as i64)
    } else {
        None
    }
}

/// Binary representation of a natural number, without leading zeros.
pub open spec fn nat_binary(n: nat) -> Seq<char>
    decreases n,
{
    if n < 2 {
        seq![digit_char(n as int)]
    } else {
        nat_binary(n / 2).push(digit_char((n % 2) as int))
    }
}

} // verus!
