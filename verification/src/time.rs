//! Time units, time scales and the formatting of time stamps.
use crate::text::{
    check_int_text, digit_char, digit_value, digits_value, int_text_value, is_int_text, chars_of, find_char, group_from_right, group_n_chars, ilog10, int_decimal, is_digit,
    law_grouping_only_inserts_separators, lemma_nat_decimal_digits, lemma_without_absent_char,
    lemma_without_char_concat, lemma_without_char_reverse, log10_floor, nat_decimal, pow10,
    push_all, push_range, reversed, string_of, trim_end, without_char,
};
use crate::system_state::SystemState;
use num::{BigInt, Zero};
use vstd::utf8::{encode_scalar, encode_utf8};
use vstd::prelude::*;

verus! {

/// The unit of a time value.
#[derive(Debug, Clone, Copy, PartialEq, Eq, Structural)]
pub enum TimeUnit {
    ZeptoSeconds,
    AttoSeconds,
    FemtoSeconds,
    PicoSeconds,
    NanoSeconds,
    MicroSeconds,
    MilliSeconds,
    Seconds,
    NoUnit,
    /// Use the largest time unit feasible for each time.
    Auto,
}

/// The time scale of a wave form: a unit and an optional multiplier.
#[derive(Debug, Clone, Copy, PartialEq, Eq, Structural)]
pub struct TimeScale {
    pub unit: TimeUnit,
    pub multiplier: Option<u32>,
}

/// How to format the numeric part of the time string.
#[derive(Debug, Clone, Copy, PartialEq, Eq, Structural)]
pub enum TimeStringFormatting {
    /// No additional formatting.
    No,
    /// Use the current locale to determine decimal separator, thousands separator, and grouping
    Locale,
    /// Use the SI standard: split into groups of three digits, unless there are exactly four
    /// for both integer and fractional part. Use space as group separator.
    SI,
}

/// How to format the time stamps.
#[derive(Debug, Clone, Copy, PartialEq, Eq, Structural)]
pub struct TimeFormat {
    /// How to format the numeric part of the time string.
    pub format: TimeStringFormatting,
    /// Insert a space between number and unit.
    pub show_space: bool,
    /// Display time unit.
    pub show_unit: bool,
}

/// The power-of-ten exponent of a unit; units without a scale have exponent 0.
pub open spec fn unit_exponent(u: TimeUnit) -> int {
    match u {
        TimeUnit::ZeptoSeconds => -21,
        TimeUnit::AttoSeconds => -18,
        TimeUnit::FemtoSeconds => -15,
        TimeUnit::PicoSeconds => -12,
        TimeUnit::NanoSeconds => -9,
        TimeUnit::MicroSeconds => -6,
        TimeUnit::MilliSeconds => -3,
        TimeUnit::Seconds => 0,
        TimeUnit::NoUnit => 0,
        TimeUnit::Auto => 0,
    }
}

/// The unit whose exponent is `e`, if there is one.
pub open spec fn unit_of_exponent(e: int) -> Option<TimeUnit> {
    if e == -21 {
        Some(TimeUnit::ZeptoSeconds)
    } else if e == -18 {
        Some(TimeUnit::AttoSeconds)
    } else if e == -15 {
        Some(TimeUnit::FemtoSeconds)
    } else if e == -12 {
        Some(TimeUnit::PicoSeconds)
    } else if e == -9 {
        Some(TimeUnit::NanoSeconds)
    } else if e == -6 {
        Some(TimeUnit::MicroSeconds)
    } else if e == -3 {
        Some(TimeUnit::MilliSeconds)
    } else if e == 0 {
        Some(TimeUnit::Seconds)
    } else {
        None
    }
}

/// The text shown for a unit.
pub open spec fn unit_text(u: TimeUnit) -> Seq<char> {
    match u {
        TimeUnit::ZeptoSeconds => seq!['z', 's'],
        TimeUnit::AttoSeconds => seq!['a', 's'],
        TimeUnit::FemtoSeconds => seq!['f', 's'],
        TimeUnit::PicoSeconds => seq!['p', 's'],
        TimeUnit::NanoSeconds => seq!['n', 's'],
        TimeUnit::MicroSeconds => seq!['\u{3bc}', 's'],
        TimeUnit::MilliSeconds => seq!['m', 's'],
        TimeUnit::Seconds => seq!['s'],
        TimeUnit::NoUnit => seq!['N', 'o', ' ', 'u', 'n', 'i', 't'],
        TimeUnit::Auto => seq!['A', 'u', 't', 'o'],
    }
}

impl TimeUnit {
    /// Get the power-of-ten exponent for a time unit.
    pub fn exponent(self) -> (e: i8)
        ensures
            e == unit_exponent(self),
    {
        match self {
            TimeUnit::ZeptoSeconds => -21,
            TimeUnit::AttoSeconds => -18,
            TimeUnit::FemtoSeconds => -15,
            TimeUnit::PicoSeconds => -12,
            TimeUnit::NanoSeconds => -9,
            TimeUnit::MicroSeconds => -6,
            TimeUnit::MilliSeconds => -3,
            TimeUnit::Seconds => 0,
            TimeUnit::NoUnit => 0,
            TimeUnit::Auto => 0,
        }
    }

    /// Convert a power-of-ten exponent to a time unit.
    pub fn from_exponent(exponent: i8) -> (res: Option<Self>)
        ensures
            res == unit_of_exponent(exponent as int),
    {
        match exponent {
            -21 => Some(TimeUnit::ZeptoSeconds),
            -18 => Some(TimeUnit::AttoSeconds),
            -15 => Some(TimeUnit::FemtoSeconds),
            -12 => Some(TimeUnit::PicoSeconds),
            -9 => Some(TimeUnit::NanoSeconds),
            -6 => Some(TimeUnit::MicroSeconds),
            -3 => Some(TimeUnit::MilliSeconds),
            0 => Some(TimeUnit::Seconds),
            _ => None,
        }
    }

    /// The text shown for this unit, e.g. `"μs"` or `"No unit"`.
    pub fn to_display_string(self) -> (s: String)
        ensures
            s@ == unit_text(self),
    {
        let chars: Vec<char> = match self {
            TimeUnit::ZeptoSeconds => vec!['z', 's'],
            TimeUnit::AttoSeconds => vec!['a', 's'],
            TimeUnit::FemtoSeconds => vec!['f', 's'],
            TimeUnit::PicoSeconds => vec!['p', 's'],
            TimeUnit::NanoSeconds => vec!['n', 's'],
            TimeUnit::MicroSeconds => vec!['\u{3bc}', 's'],
            TimeUnit::MilliSeconds => vec!['m', 's'],
            TimeUnit::Seconds => vec!['s'],
            TimeUnit::NoUnit => vec!['N', 'o', ' ', 'u', 'n', 'i', 't'],
            TimeUnit::Auto => vec!['A', 'u', 't', 'o'],
        };
        proof {
            assert(chars@ =~= unit_text(self));
        }
        string_of(chars.as_slice())
    }
}

/// Every unit with a scale maps back to itself through its exponent.
pub proof fn lemma_exponent_round_trip(u: TimeUnit)
    requires
        u != TimeUnit::NoUnit,
        u != TimeUnit::Auto,
    ensures
        unit_of_exponent(unit_exponent(u)) == Some(u),
{
}

/// Exactly the exponents of the scaled units name a unit, and that unit has
/// the exponent asked for.
pub proof fn lemma_from_exponent_inverse(e: int)
    ensures
        unit_of_exponent(e) matches Some(u) ==> unit_exponent(u) == e && u != TimeUnit::NoUnit
            && u != TimeUnit::Auto,
        unit_of_exponent(e) is Some <==> (e % 3 == 0 && -21 <= e <= 0),
{
}

impl TimeFormat {
    /// Create a new `TimeFormat` with custom settings.
    pub fn new(format: TimeStringFormatting, show_space: bool, show_unit: bool) -> (res: Self)
        ensures
            res == (TimeFormat { format, show_space, show_unit }),
    {
        TimeFormat { format, show_space, show_unit }
    }

    /// Set the format type.
    pub fn with_format(self, format: TimeStringFormatting) -> (res: Self)
        ensures
            res == (TimeFormat { format, ..self }),
    {
        let mut s = self;
        s.format = format;
        s
    }

    /// Set whether to show space between number and unit.
    pub fn with_space(self, show_space: bool) -> (res: Self)
        ensures
            res == (TimeFormat { show_space, ..self }),
    {
        let mut s = self;
        s.show_space = show_space;
        s
    }

    /// Set whether to show the time unit.
    pub fn with_unit(self, show_unit: bool) -> (res: Self)
        ensures
            res == (TimeFormat { show_unit, ..self }),
    {
        let mut s = self;
        s.show_unit = show_unit;
        s
    }
}

/// The time format in effect: that of the configuration, with the number format the user chose
/// in its place when there is one.
pub open spec fn effective_time_format(
    configured: TimeFormat,
    chosen: Option<TimeStringFormatting>,
) -> TimeFormat {
    match chosen {
        Some(format) => TimeFormat { format, ..configured },
        None => configured,
    }
}

impl SystemState {
    /// The time format in effect.
    pub fn get_time_format(&self) -> (res: TimeFormat)
        ensures
            res == effective_time_format(self.user.default_time_format, self.user.time_string_format),
    {
        let time_format = self.user.default_time_format;
        if let Some(time_string_format) = self.user.time_string_format {
            time_format.with_format(time_string_format)
        } else {
            time_format
        }
    }
}

impl Default for TimeFormat {
    fn default() -> (res: Self)
        ensures
            res == (TimeFormat { format: TimeStringFormatting::No, show_space: true, show_unit: true }),
    {
        TimeFormat { format: TimeStringFormatting::No, show_space: true, show_unit: true }
    }
}

} // verus!

verus! {

/// Locale-specific properties used to format numbers.
#[derive(Debug)]
pub struct LocaleFormatCache {
    /// Group sizes; the first one is the size of every group of the integer part.
    pub grouping: Vec<i64>,
    pub thousands_sep: String,
    pub decimal_point: String,
}

/// `s` with each narrow no-break space replaced by a thin space.
pub open spec fn narrow_spaces_thinned(s: Seq<char>) -> Seq<char> {
    s.map_values(|c: char| if c == '\u{202f}' { '\u{2009}' } else { c })
}

/// The formatting properties of a locale, from its digit grouping, thousands separator and
/// decimal point; a narrow no-break space in the separator becomes a thin space.
pub fn create_cache(grouping: &[i64], thousands_sep: &str, decimal_point: &str) -> (res:
    LocaleFormatCache)
    ensures
        res.grouping@ == grouping@,
        res.thousands_sep@ == narrow_spaces_thinned(thousands_sep@),
        res.decimal_point@ == decimal_point@,
{
    let sep = chars_of(thousands_sep);
    let mut out: Vec<char> = Vec::new();
    let mut i: usize = 0;
    while i < sep.len()
        invariant
            i <= sep.len(),
            sep@ == thousands_sep@,
            out@ == narrow_spaces_thinned(sep@.subrange(0, i as int)),
        decreases sep.len() - i,
    {
        let c = sep[i];
        if c == '\u{202f}' {
            out.push('\u{2009}');
        } else {
            out.push(c);
        }
        i = i + 1;
        assert(out@ =~= narrow_spaces_thinned(sep@.subrange(0, i as int)));
    }
    assert(sep@.subrange(0, sep@.len() as int) =~= sep@);
    LocaleFormatCache {
        grouping: vstd::slice::slice_to_vec(grouping),
        thousands_sep: string_of(&out),
        decimal_point: decimal_point.to_owned(),
    }
}

/// A thin space, the SI group separator.
pub open spec fn thin_space() -> Seq<char> {
    seq!['\u{2009}']
}

/// A number string without the trailing zeros of its fraction, and without
/// the period when nothing is left after it.
pub open spec fn stripped_number(s: Seq<char>) -> Seq<char> {
    if s.contains('.') {
        trim_end(trim_end(s, '0'), '.')
    } else {
        s
    }
}

/// The number of bytes of the UTF-8 encoding of `s`, by which `str::len` measures it.
pub open spec fn byte_len(s: Seq<char>) -> int {
    encode_utf8(s).len() as int
}

/// The SI form of the integer part of a number: grouped when it is longer than four bytes.
pub open spec fn si_integer_part(s: Seq<char>) -> Seq<char> {
    if byte_len(s) > 4 {
        group_from_right(s, 3, thin_space())
    } else {
        s
    }
}

/// The SI form of the fractional part of a number: groups counted from the point, when it is
/// longer than four bytes.
pub open spec fn si_fraction_part(s: Seq<char>) -> Seq<char> {
    if byte_len(s) > 4 {
        group_from_right(s.reverse(), 3, thin_space()).reverse()
    } else {
        s
    }
}

/// A number string formatted according to the SI standard.
pub open spec fn si_formatted(t: Seq<char>) -> Seq<char> {
    match t.index_of_first('.') {
        Some(i) => si_integer_part(t.take(i)) + seq!['.'] + si_fraction_part(t.skip(i + 1)),
        None => si_integer_part(t),
    }
}

/// Both parts of a number, around its first `.`, are at most four bytes long.
pub open spec fn si_parts_short(t: Seq<char>) -> bool {
    match t.index_of_first('.') {
        Some(i) => byte_len(t.take(i)) <= 4 && byte_len(t.skip(i + 1)) <= 4,
        None => byte_len(t) <= 4,
    }
}

proof fn lemma_lacks_sub(s: Seq<char>, a: int, b: int, c: char)
    requires
        0 <= a <= b <= s.len(),
        !s.contains(c),
    ensures
        !s.subrange(a, b).contains(c),
{
    if s.subrange(a, b).contains(c) {
        let k = choose|k: int| 0 <= k < s.subrange(a, b).len() && s.subrange(a, b)[k] == c;
        assert(s[a + k] == c);
    }
}

/// SI formatting only inserts thin spaces: without them the text is given back unchanged,
/// and a number whose parts are at most four bytes long is not changed at all.
pub proof fn law_si_only_inserts_thin_spaces(t: Seq<char>)
    requires
        !t.contains('\u{2009}'),
    ensures
        without_char(si_formatted(t), '\u{2009}') == t,
        si_parts_short(t) ==> si_formatted(t) == t,
{
    let c = '\u{2009}';
    assert(thin_space() =~= seq![c]);
    t.index_of_first_ensures('.');
    match t.index_of_first('.') {
        Some(i) => {
            let a = t.take(i);
            let b = t.skip(i + 1);
            lemma_lacks_sub(t, 0, i, c);
            lemma_lacks_sub(t, i + 1, t.len() as int, c);
            assert(a =~= t.subrange(0, i));
            assert(b =~= t.subrange(i + 1, t.len() as int));
            let ia = si_integer_part(a);
            let fb = si_fraction_part(b);
            assert(without_char(ia, c) == a) by {
                if byte_len(a) > 4 {
                    law_grouping_only_inserts_separators(a, 3, c);
                } else {
                    lemma_without_absent_char(a, c);
                }
            }
            assert(without_char(fb, c) == b) by {
                if byte_len(b) > 4 {
                    assert(!b.reverse().contains(c)) by {
                        if b.reverse().contains(c) {
                            let k = choose|k: int| 0 <= k < b.reverse().len() && b.reverse()[k] == c;
                            assert(b[b.len() - 1 - k] == c);
                        }
                    }
                    law_grouping_only_inserts_separators(b.reverse(), 3, c);
                    lemma_without_char_reverse(group_from_right(b.reverse(), 3, seq![c]), c);
                    assert(b.reverse().reverse() =~= b);
                } else {
                    lemma_without_absent_char(b, c);
                }
            }
            lemma_without_char_concat(ia + seq!['.'], fb, c);
            lemma_without_char_concat(ia, seq!['.'], c);
            assert(seq!['.'].drop_last() =~= Seq::<char>::empty());
            assert(seq!['.'].last() == '.');
            assert(without_char(Seq::<char>::empty(), c) =~= Seq::<char>::empty());
            assert(without_char(seq!['.'], c) =~= seq!['.']);
            assert(a + seq!['.'] + b =~= t);
        },
        None => {
            if byte_len(t) > 4 {
                law_grouping_only_inserts_separators(t, 3, c);
            } else {
                lemma_without_absent_char(t, c);
            }
        },
    }
}

/// A number string formatted according to a locale.
pub open spec fn locale_formatted(t: Seq<char>, cache: LocaleFormatCache) -> Seq<char> {
    if cache.grouping@[0] > 0 {
        let n = cache.grouping@[0] as nat;
        match t.index_of_first('.') {
            Some(i) => group_from_right(t.take(i), n, cache.thousands_sep@) + cache.decimal_point@
                + t.skip(i + 1),
            None => group_from_right(t, n, cache.thousands_sep@),
        }
    } else {
        t
    }
}

/// A number string formatted as `format` asks.
pub open spec fn number_formatted(
    t: Seq<char>,
    format: TimeStringFormatting,
    cache: LocaleFormatCache,
) -> Seq<char> {
    match format {
        TimeStringFormatting::No => t,
        TimeStringFormatting::Locale => locale_formatted(t, cache),
        TimeStringFormatting::SI => si_formatted(t),
    }
}

/// What a locale cache must hold to be used for formatting.
pub open spec fn locale_cache_usable(cache: LocaleFormatCache) -> bool {
    cache.grouping@.len() > 0 && cache.grouping@[0] <= usize::MAX
}

/// What number formatting needs of the locale cache: only the `Locale`
/// formatting reads it.
pub open spec fn cache_ready_for(format: TimeStringFormatting, cache: LocaleFormatCache) -> bool {
    format == TimeStringFormatting::Locale ==> locale_cache_usable(cache)
}

/// Index of the end of `s[..end]` with all trailing `c` removed.
fn trim_end_index(s: &[char], end: usize, c: char) -> (res: usize)
    requires
        end <= s@.len(),
    ensures
        res <= end,
        s@.take(res as int) == trim_end(s@.take(end as int), c),
{
    let mut j = end;
    while j > 0 && s[j - 1] == c
        invariant
            j <= end <= s@.len(),
            trim_end(s@.take(j as int), c) == trim_end(s@.take(end as int), c),
        decreases j,
    {
        assert(s@.take(j as int).drop_last() =~= s@.take(j - 1));
        j -= 1;
    }
    j
}

/// Get rid of trailing zeros if the string contains a ., i.e., being fractional
/// If the resulting string ends with ., remove that as well.
pub fn strip_trailing_zeros_and_period(time: String) -> (res: String)
    ensures
        res@ == stripped_number(time@),
{
    let chars = chars_of(time.as_str());
    if find_char(chars.as_slice(), '.').is_some() {
        proof {
            chars@.index_of_first_ensures('.');
        }
        let len = chars.len();
        assert(chars@.take(len as int) =~= chars@);
        let j = trim_end_index(chars.as_slice(), len, '0');
        let k = trim_end_index(chars.as_slice(), j, '.');
        let mut out: Vec<char> = Vec::new();
        push_range(&mut out, chars.as_slice(), 0, k);
        assert(out@ =~= chars@.take(k as int));
        string_of(out.as_slice())
    } else {
        proof {
            chars@.index_of_first_ensures('.');
        }
        time
    }
}

/// Encoding one more character appends its encoding.
proof fn lemma_encode_utf8_push(s: Seq<char>, c: char)
    ensures
        encode_utf8(s.push(c)) == encode_utf8(s) + encode_scalar(c as u32),
    decreases s.len(),
{
    if s.len() == 0 {
        assert(seq![c].drop_first() =~= Seq::<char>::empty());
        assert(s.push(c) =~= seq![c]);
        assert(encode_utf8(seq![c]) =~= encode_scalar(c as u32) + encode_utf8(Seq::<char>::empty()));
    } else {
        lemma_encode_utf8_push(s.drop_first(), c);
        assert(s.push(c).drop_first() =~= s.drop_first().push(c));
        assert(s.push(c)[0] == s[0]);
        assert(encode_utf8(s.push(c)) =~= encode_utf8(s) + encode_scalar(c as u32));
    }
}

/// The number of bytes of the UTF-8 encoding of `c`.
fn char_byte_len(c: char) -> (n: usize)
    ensures
        n == encode_scalar(c as u32).len(),
        1 <= n <= 4,
{
    let v = c as u32;
    if v <= 0x7f {
        1
    } else if v <= 0x7ff {
        2
    } else if v <= 0xffff && !(0xd800 <= v && v <= 0xdfff) {
        3
    } else {
        4
    }
}

/// Whether the UTF-8 encoding of `s` is longer than `limit` bytes.
pub(crate) fn byte_len_exceeds(s: &[char], limit: usize) -> (res: bool)
    ensures
        res == (byte_len(s@) > limit),
{
    let mut n: u128 = 0;
    let mut i: usize = 0;
    assert(s@.take(0) =~= Seq::<char>::empty());
    while i < s.len()
        invariant
            i <= s@.len(),
            n == byte_len(s@.take(i as int)),
            n <= limit,
        decreases s@.len() - i,
    {
        proof {
            lemma_encode_utf8_push(s@.take(i as int), s@[i as int]);
            assert(s@.take(i as int).push(s@[i as int]) =~= s@.take(i + 1));
        }
        n = n + char_byte_len(s[i]) as u128;
        i = i + 1;
        if n > limit as u128 {
            proof {
                lemma_byte_len_prefix(s@, i as int);
            }
            return true;
        }
    }
    assert(s@.take(i as int) =~= s@);
    false
}

/// A prefix has no more bytes than the whole.
proof fn lemma_byte_len_prefix(s: Seq<char>, i: int)
    requires
        0 <= i <= s.len(),
    ensures
        byte_len(s.take(i)) <= byte_len(s),
    decreases s.len() - i,
{
    if i < s.len() {
        lemma_byte_len_prefix(s, i + 1);
        lemma_encode_utf8_push(s.take(i), s[i]);
        assert(s.take(i).push(s[i]) =~= s.take(i + 1));
    } else {
        assert(s.take(i) =~= s);
    }
}

/// Groups the integer part of an SI number.
fn si_integer_chars(s: &[char]) -> (res: Vec<char>)
    ensures
        res@ == si_integer_part(s@),
{
    if byte_len_exceeds(s, 4) {
        let sep = vec!['\u{2009}'];
        assert(sep@ =~= thin_space());
        group_n_chars(s, 3, sep.as_slice())
    } else {
        let mut out: Vec<char> = Vec::new();
        push_all(&mut out, s);
        out
    }
}

/// Groups the fractional part of an SI number.
fn si_fraction_chars(s: &[char]) -> (res: Vec<char>)
    ensures
        res@ == si_fraction_part(s@),
{
    if byte_len_exceeds(s, 4) {
        let rev = reversed(s);
        let sep = vec!['\u{2009}'];
        assert(sep@ =~= thin_space());
        let grouped = group_n_chars(rev.as_slice(), 3, sep.as_slice());
        reversed(grouped.as_slice())
    } else {
        let mut out: Vec<char> = Vec::new();
        push_all(&mut out, s);
        out
    }
}

/// Format a number string according to the SI standard.
///
/// A part longer than four bytes is split into groups of three characters.
pub fn format_si(time: &str) -> (res: String)
    ensures
        res@ == si_formatted(time@),
{
    let chars = chars_of(time);
    let len = chars.len();
    match find_char(chars.as_slice(), '.') {
        Some(i) => {
            let mut integer_part: Vec<char> = Vec::new();
            push_range(&mut integer_part, chars.as_slice(), 0, i);
            let mut fractional_part: Vec<char> = Vec::new();
            push_range(&mut fractional_part, chars.as_slice(), i + 1, len);
            assert(integer_part@ =~= chars@.take(i as int));
            assert(fractional_part@ =~= chars@.skip(i + 1));
            let mut out = si_integer_chars(integer_part.as_slice());
            out.push('.');
            let frac = si_fraction_chars(fractional_part.as_slice());
            push_all(&mut out, frac.as_slice());
            string_of(out.as_slice())
        },
        None => {
            let out = si_integer_chars(chars.as_slice());
            string_of(out.as_slice())
        },
    }
}

/// Format a number string according to the grouping and separators of a locale.
///
/// Groups are counted in characters.
pub fn format_locale(time: &str, cache: &LocaleFormatCache) -> (res: String)
    requires
        locale_cache_usable(*cache),
    ensures
        res@ == locale_formatted(time@, *cache),
{
    let g = cache.grouping[0];
    if g > 0 {
        let n = g as usize;
        let chars = chars_of(time);
        let sep = chars_of(cache.thousands_sep.as_str());
        match find_char(chars.as_slice(), '.') {
            Some(i) => {
                let len = chars.len();
                let mut integer_part: Vec<char> = Vec::new();
                push_range(&mut integer_part, chars.as_slice(), 0, i);
                assert(integer_part@ =~= chars@.take(i as int));
                let mut out = group_n_chars(integer_part.as_slice(), n, sep.as_slice());
                let point = chars_of(cache.decimal_point.as_str());
                push_all(&mut out, point.as_slice());
                push_range(&mut out, chars.as_slice(), i + 1, len);
                assert(chars@.subrange(i + 1, len as int) =~= chars@.skip(i + 1));
                string_of(out.as_slice())
            },
            None => {
                let out = group_n_chars(chars.as_slice(), n, sep.as_slice());
                string_of(out.as_slice())
            },
        }
    } else {
        let chars = chars_of(time);
        string_of(chars.as_slice())
    }
}

/// Format number based on [`TimeStringFormatting`], i.e., possibly group digits together
/// and use correct separator for each group.
pub fn split_and_format_number(
    time: &str,
    format: TimeStringFormatting,
    cache: &LocaleFormatCache,
) -> (res: String)
    requires
        cache_ready_for(format, *cache),
    ensures
        res@ == number_formatted(time@, format, *cache),
{
    match format {
        TimeStringFormatting::No => {
            let chars = chars_of(time);
            string_of(chars.as_slice())
        },
        TimeStringFormatting::Locale => format_locale(time, cache),
        TimeStringFormatting::SI => format_si(time),
    }
}

/// `s` ends with `t`.
pub open spec fn ends_with(s: Seq<char>, t: Seq<char>) -> bool {
    t.len() <= s.len() && s.skip(s.len() - t.len()) == t
}

/// A number longer than one group ends, once grouped, with a separator and its last group.
proof fn lemma_grouped_ends(s: Seq<char>, n: nat, sep: Seq<char>)
    requires
        n > 0,
        s.len() > n,
    ensures
        ends_with(group_from_right(s, n, sep), sep + s.skip(s.len() - n)),
{
    let head = group_from_right(s.take(s.len() - n), n, sep);
    let tail = sep + s.skip(s.len() - n);
    assert(group_from_right(s, n, sep) == head + sep + s.skip(s.len() - n));
    assert(head + sep + s.skip(s.len() - n) =~= head + tail);
    assert((head + tail).skip((head + tail).len() - tail.len()) =~= tail);
}

/// A text has at least as many bytes as characters.
proof fn lemma_byte_len_at_least_len(s: Seq<char>)
    ensures
        byte_len(s) >= s.len(),
    decreases s.len(),
{
    if s.len() > 0 {
        lemma_byte_len_at_least_len(s.drop_last());
        lemma_encode_utf8_push(s.drop_last(), s.last());
        assert(s.drop_last().push(s.last()) =~= s);
        assert(encode_scalar(s.last() as u32).len() >= 1);
    }
}

/// A text of ASCII characters has one byte per character.
proof fn lemma_ascii_byte_len(s: Seq<char>)
    requires
        forall|k: int| 0 <= k < s.len() ==> (#[trigger] s[k]) as u32 <= 0x7f,
    ensures
        byte_len(s) == s.len(),
    decreases s.len(),
{
    if s.len() > 0 {
        assert forall|k: int| 0 <= k < s.drop_last().len() implies (#[trigger] s.drop_last()[k]) as u32
            <= 0x7f by {
            assert(s.drop_last()[k] == s[k]);
        }
        lemma_ascii_byte_len(s.drop_last());
        lemma_encode_utf8_push(s.drop_last(), s.last());
        assert(s.drop_last().push(s.last()) =~= s);
        assert(s.last() == s[s.len() - 1]);
        assert(encode_scalar(s.last() as u32).len() == 1);
    }
}

/// The decimal text of an integer holds digits and a leading `-` only: no `.` and no thin
/// space.
proof fn lemma_int_decimal_plain(i: int)
    ensures
        !int_decimal(i).contains('.'),
        !int_decimal(i).contains('\u{2009}'),
        int_decimal(i).len() >= 1,
        forall|k: int| 0 <= k < int_decimal(i).len() ==> (#[trigger] int_decimal(i)[k]) as u32 <= 0x7f,
{
    let d = int_decimal(i);
    let n = if i < 0 { (-i) as nat } else { i as nat };
    lemma_nat_decimal_digits(n);
    assert forall|k: int| 0 <= k < d.len() implies d[k] == '-' || is_digit(#[trigger] d[k]) by {
        if i < 0 {
            if k > 0 {
                assert(d[k] == nat_decimal(n)[k - 1]);
            }
        }
    }
    assert forall|k: int| 0 <= k < d.len() implies (#[trigger] d[k]) as u32 <= 0x7f by {
        assert(d[k] == '-' || is_digit(d[k]));
    }
    if d.contains('.') {
        let k = choose|k: int| 0 <= k < d.len() && d[k] == '.';
        assert(d[k] == '-' || is_digit(d[k]));
    }
    if d.contains('\u{2009}') {
        let k = choose|k: int| 0 <= k < d.len() && d[k] == '\u{2009}';
        assert(d[k] == '-' || is_digit(d[k]));
    }
}

/// A locale whose group size is not positive does not group digits: numbers are left as they
/// are, decimal point included.
pub proof fn law_locale_without_groups_changes_nothing(t: Seq<char>, cache: LocaleFormatCache)
    requires
        cache.grouping@.len() > 0,
        cache.grouping@[0] <= 0,
    ensures
        locale_formatted(t, cache) == t,
{
}

/// Locale formatting groups only the integer part: a number with a decimal point is
/// formatted as its integer part is, followed by the locale's decimal point and the digits
/// after the point, unchanged. A number without a point longer than one group ends with a
/// separator and its last group of digits, and one no longer than a group is left as it is.
pub proof fn law_locale_groups_only_the_integer_part(t: Seq<char>, cache: LocaleFormatCache)
    requires
        cache.grouping@.len() > 0,
        cache.grouping@[0] > 0,
    ensures
        t.index_of_first('.') matches Some(i) ==> locale_formatted(t, cache) == locale_formatted(
            t.take(i),
            cache,
        ) + cache.decimal_point@ + t.skip(i + 1),
        t.index_of_first('.') matches Some(i) ==> ends_with(
            locale_formatted(t, cache),
            cache.decimal_point@ + t.skip(i + 1),
        ),
        !t.contains('.') && t.len() > cache.grouping@[0] ==> ends_with(
            locale_formatted(t, cache),
            cache.thousands_sep@ + t.skip(t.len() - cache.grouping@[0]),
        ),
        !t.contains('.') && t.len() <= cache.grouping@[0] ==> locale_formatted(t, cache) == t,
        !t.contains('.') && cache.thousands_sep@.len() == 1 && !t.contains(cache.thousands_sep@[0])
            ==> without_char(locale_formatted(t, cache), cache.thousands_sep@[0]) == t,
{
    let n = cache.grouping@[0] as nat;
    t.index_of_first_ensures('.');
    match t.index_of_first('.') {
        Some(i) => {
            let a = t.take(i);
            a.index_of_first_ensures('.');
            assert(!a.contains('.')) by {
                if a.contains('.') {
                    let k = choose|k: int| 0 <= k < a.len() && a[k] == '.';
                    assert(t[k] == '.');
                }
            }
            assert(a.index_of_first('.') is None);
            let g = group_from_right(a, n, cache.thousands_sep@);
            let tail = cache.decimal_point@ + t.skip(i + 1);
            assert(g + cache.decimal_point@ + t.skip(i + 1) =~= g + tail);
            assert((g + tail).skip((g + tail).len() - tail.len()) =~= tail);
        },
        None => {
            if t.len() > n {
                lemma_grouped_ends(t, n, cache.thousands_sep@);
            }
            if cache.thousands_sep@.len() == 1 && !t.contains(cache.thousands_sep@[0]) {
                let c = cache.thousands_sep@[0];
                assert(cache.thousands_sep@ =~= seq![c]);
                law_grouping_only_inserts_separators(t, n, c);
            }
        },
    }
}


} // verus!

verus! {

/// The multiplier of a time scale; an absent multiplier means 1.
pub open spec fn multiplier_value(ts: TimeScale) -> int {
    match ts.multiplier {
        Some(m) => m as int,
        None => 1,
    }
}

/// Whether `10^e` divides `time`.
pub open spec fn divisible_by_pow10(time: int, e: int) -> bool {
    time % pow10(e as nat) == 0
}

/// The unit found by scanning the candidate digit counts `e, e - 3, ..., 3`:
/// the first `e` for which `time` is divisible by `10^(e - mdig)` names the
/// unit `10^(e - start)` times the data unit; `fallback` if none does.
pub open spec fn auto_scale_search(
    time: int,
    mdig: int,
    start: int,
    e: int,
    fallback: TimeUnit,
) -> TimeUnit
    decreases e,
{
    if e < 3 {
        fallback
    } else if divisible_by_pow10(time, e - mdig) && unit_of_exponent(e - start) is Some {
        unit_of_exponent(e - start).unwrap()
    } else {
        auto_scale_search(time, mdig, start, e - 3, fallback)
    }
}

/// The scan of [`auto_scale_search`] never asks for a negative power of ten.
pub open spec fn auto_scale_search_in_range(time: int, mdig: int, start: int, e: int) -> bool
    decreases e,
{
    if e < 3 {
        true
    } else if e < mdig {
        false
    } else if divisible_by_pow10(time, e - mdig) && unit_of_exponent(e - start) is Some {
        true
    } else {
        auto_scale_search_in_range(time, mdig, start, e - 3)
    }
}

/// The largest unit in which `time` (counted in `ts`) is a whole number.
pub open spec fn auto_unit(time: int, ts: TimeScale) -> TimeUnit {
    if ts.unit == TimeUnit::Seconds {
        TimeUnit::Seconds
    } else {
        auto_scale_search(
            time,
            log10_floor(multiplier_value(ts) as nat),
            -unit_exponent(ts.unit),
            -unit_exponent(ts.unit),
            ts.unit,
        )
    }
}

/// The inputs on which the automatic unit can be computed: the multiplier is
/// at least one and the scan only asks for powers of ten with a natural exponent.
pub open spec fn auto_unit_defined(time: int, ts: TimeScale) -> bool {
    ts.unit == TimeUnit::Seconds || (multiplier_value(ts) >= 1 && auto_scale_search_in_range(
        time,
        log10_floor(multiplier_value(ts) as nat),
        -unit_exponent(ts.unit),
        -unit_exponent(ts.unit),
    ))
}

/// The scan never asks for a power of ten below one while `e` stays at or above the digits
/// of the multiplier.
proof fn lemma_scan_in_range(time: int, mdig: int, start: int, e: int)
    requires
        mdig <= 3,
    ensures
        auto_scale_search_in_range(time, mdig, start, e),
    decreases e,
{
    if e >= 3 && !(divisible_by_pow10(time, e - mdig) && unit_of_exponent(e - start) is Some) {
        lemma_scan_in_range(time, mdig, start, e - 3);
    }
}

/// The automatic unit can be found for every time when the multiplier is not zero and has at
/// most four digits.
pub proof fn law_auto_unit_defined_for_short_multipliers(time: int, ts: TimeScale)
    requires
        multiplier_value(ts) >= 1,
        log10_floor(multiplier_value(ts) as nat) <= 3,
    ensures
        auto_unit_defined(time, ts),
{
    lemma_scan_in_range(
        time,
        log10_floor(multiplier_value(ts) as nat),
        -unit_exponent(ts.unit),
        -unit_exponent(ts.unit),
    );
}

/// Whether `10^exp` divides the integer written in `time`: the text is read by `num`'s `BigInt`
/// `FromStr`, and the question decided by its remainder.
#[verifier::external_body]
fn bigint_divisible_by_pow10(time: &str, exp: u32) -> (res: bool)
    requires
        is_int_text(time@),
    ensures
        res == divisible_by_pow10(int_text_value(time@), exp as int),
{
    let t: BigInt = time.parse().unwrap();
    (t % BigInt::from(10).pow(exp)).is_zero()
}

/// The decimal representation of `time * multiplier * 10^exp`, for the integer written in
/// `time`: read by `num`'s `BigInt` `FromStr`, computed with its product and written by its
/// `Display`.
#[verifier::external_body]
fn bigint_scaled_decimal(time: &str, multiplier: u32, exp: u32) -> (res: String)
    requires
        is_int_text(time@),
    ensures
        res@ == int_decimal(int_text_value(time@) * multiplier * pow10(exp as nat)),
{
    let t: BigInt = time.parse().unwrap();
    (t * multiplier * BigInt::from(10).pow(exp)).to_string()
}

/// Heuristically find a suitable time unit for the given time.
pub fn find_auto_scale(time: &str, timescale: &TimeScale) -> (res: TimeUnit)
    requires
        is_int_text(time@),
        auto_unit_defined(int_text_value(time@), *timescale),
    ensures
        res == auto_unit(int_text_value(time@), *timescale),
{
    // In case of seconds, nothing to do as it is the largest supported unit
    if timescale.unit == TimeUnit::Seconds {
        return TimeUnit::Seconds;
    }
    let m: u32 = match timescale.multiplier {
        Some(m) => m,
        None => 1,
    };
    let multiplier_digits = ilog10(m as u64);
    let start_digits: i8 = -timescale.unit.exponent();
    let ghost mdig = multiplier_digits as int;
    let ghost start = start_digits as int;
    let mut e: i8 = start_digits;
    while e >= 3
        invariant
            is_int_text(time@),
            0 <= e <= start <= 21,
            start == start_digits as int,
            mdig == multiplier_digits as int,
            start == -unit_exponent(timescale.unit),
            mdig == log10_floor(m as nat),
            m as int == multiplier_value(*timescale),
            auto_scale_search(int_text_value(time@), mdig, start, e as int, timescale.unit) == auto_unit(
                int_text_value(time@),
                *timescale,
            ),
            auto_scale_search_in_range(int_text_value(time@), mdig, start, e as int),
        decreases e,
    {
        let k = (e as u32) - multiplier_digits;
        if bigint_divisible_by_pow10(time, k) {
            match TimeUnit::from_exponent(e - start_digits) {
                Some(unit) => {
                    return unit;
                },
                None => {},
            }
        }
        e = e - 3;
    }
    timescale.unit
}

/// Whether the automatic unit can be computed for `time`: the multiplier is not zero and
/// the scan asks for no power of ten below one.
pub fn auto_scale_defined(time: &str, timescale: &TimeScale) -> (res: bool)
    requires
        is_int_text(time@),
    ensures
        res == auto_unit_defined(int_text_value(time@), *timescale),
{
    if timescale.unit == TimeUnit::Seconds {
        return true;
    }
    let m: u32 = match timescale.multiplier {
        Some(m) => m,
        None => 1,
    };
    if m == 0 {
        return false;
    }
    let multiplier_digits = ilog10(m as u64);
    let start_digits: i8 = -timescale.unit.exponent();
    let ghost mdig = multiplier_digits as int;
    let ghost start = start_digits as int;
    let mut e: i8 = start_digits;
    while e >= 3
        invariant
            is_int_text(time@),
            0 <= e <= start <= 21,
            start == start_digits as int,
            mdig == multiplier_digits as int,
            start == -unit_exponent(timescale.unit),
            mdig == log10_floor(m as nat),
            m as int == multiplier_value(*timescale),
            m >= 1,
            auto_unit_defined(int_text_value(time@), *timescale) == auto_scale_search_in_range(
                int_text_value(time@),
                mdig,
                start,
                e as int,
            ),
        decreases e,
    {
        if (e as u32) < multiplier_digits {
            return false;
        }
        let k = (e as u32) - multiplier_digits;
        if bigint_divisible_by_pow10(time, k) {
            match TimeUnit::from_exponent(e - start_digits) {
                Some(_) => {
                    return true;
                },
                None => {},
            }
        }
        e = e - 3;
    }
    true
}

/// The time string, or `None` on the inputs on which it is not defined: a locale format
/// with an unusable cache, or an automatic unit that cannot be computed.
pub fn time_string_checked(
    time: &str,
    timescale: &TimeScale,
    wanted_timeunit: &TimeUnit,
    wanted_time_format: &TimeFormat,
    cache: &LocaleFormatCache,
) -> (res: Option<String>)
    ensures
        match res {
            Some(s) => is_int_text(time@) && time_text_defined(
                int_text_value(time@),
                *timescale,
                *wanted_timeunit,
                *wanted_time_format,
                *cache,
            ) && s@ == time_text(
                int_text_value(time@),
                *timescale,
                *wanted_timeunit,
                *wanted_time_format,
                *cache,
            ),
            None => !is_int_text(time@) || !time_text_defined(
                int_text_value(time@),
                *timescale,
                *wanted_timeunit,
                *wanted_time_format,
                *cache,
            ),
        },
{
    if !check_int_text(time) {
        return None;
    }
    let cache_ok = if wanted_time_format.format == TimeStringFormatting::Locale {
        cache.grouping.len() > 0 && cache.grouping[0] as i128 <= usize::MAX as i128
    } else {
        true
    };
    if !cache_ok {
        return None;
    }
    if *wanted_timeunit == TimeUnit::Auto && !auto_scale_defined(time, timescale) {
        return None;
    }
    Some(time_string(time, timescale, wanted_timeunit, wanted_time_format, cache))
}

/// `n / 10^p` written with exactly `p` fractional digits (no point when `p == 0`).
pub open spec fn fixed_point(n: int, p: nat) -> Seq<char> {
    let digits = nat_decimal((if n < 0 { -n } else { n }) as nat);
    let padded = if digits.len() < p + 1 {
        Seq::new((p + 1 - digits.len()) as nat, |i: int| '0') + digits
    } else {
        digits
    };
    let body = if p == 0 {
        padded
    } else {
        padded.take(padded.len() - p) + seq!['.'] + padded.skip(padded.len() - p)
    };
    if n < 0 {
        seq!['-'] + body
    } else {
        body
    }
}

/// `n / 10^p` written with `p` fractional digits, from the decimal representation of `n`.
fn fixed_point_string(decimal: String, Ghost(n): Ghost<int>, p: usize) -> (res: String)
    requires
        decimal@ == int_decimal(n),
        p <= 64,
    ensures
        res@ == fixed_point(n, p as nat),
{
    proof {
        lemma_nat_decimal_digits((if n < 0 { -n } else { n }) as nat);
    }
    let chars = chars_of(decimal.as_str());
    let len = chars.len();
    let neg = chars[0] == '-';
    let ghost digits = nat_decimal((if n < 0 { -n } else { n }) as nat);
    assert(neg <==> n < 0) by {
        if n >= 0 {
            assert(is_digit(digits[0]));
        }
    }
    let start: usize = if neg {
        1
    } else {
        0
    };
    assert(chars@.skip(start as int) =~= digits);
    let dlen = len - start;
    let mut padded: Vec<char> = Vec::new();
    if dlen < p + 1 {
        let mut z: usize = 0;
        while z < p + 1 - dlen
            invariant
                p <= 64,
                dlen < p + 1,
                z <= p + 1 - dlen,
                padded@ == Seq::new(z as nat, |i: int| '0'),
            decreases p + 1 - dlen - z,
        {
            padded.push('0');
            z += 1;
            assert(padded@ =~= Seq::new(z as nat, |i: int| '0'));
        }
    }
    push_range(&mut padded, chars.as_slice(), start, len);
    assert(chars@.subrange(start as int, len as int) =~= digits);
    let plen = padded.len();
    let mut out: Vec<char> = Vec::new();
    if neg {
        out.push('-');
    }
    if p == 0 {
        push_all(&mut out, padded.as_slice());
    } else {
        push_range(&mut out, padded.as_slice(), 0, plen - p);
        out.push('.');
        push_range(&mut out, padded.as_slice(), plen - p, plen);
        assert(padded@.subrange(0, plen - p) =~= padded@.take(plen - p));
        assert(padded@.subrange(plen - p, plen as int) =~= padded@.skip(plen - p));
    }
    assert(out@ =~= fixed_point(n, p as nat));
    string_of(out.as_slice())
}

} // verus!

verus! {

/// The number shown for `time` (counted in `ts`) in the unit `unit`, before any grouping.
pub open spec fn scaled_number(time: int, ts: TimeScale, unit: TimeUnit) -> Seq<char> {
    let diff = unit_exponent(unit) - unit_exponent(ts.unit);
    let scaled = time * multiplier_value(ts);
    if diff >= 0 {
        stripped_number(fixed_point(scaled, diff as nat))
    } else {
        int_decimal(scaled * pow10((-diff) as nat))
    }
}

/// The full time string for `time`, counted in `ts`, shown in `wanted` with `fmt`.
pub open spec fn time_text(
    time: int,
    ts: TimeScale,
    wanted: TimeUnit,
    fmt: TimeFormat,
    cache: LocaleFormatCache,
) -> Seq<char> {
    if wanted == TimeUnit::NoUnit {
        number_formatted(int_decimal(time), fmt.format, cache)
    } else {
        let unit = if wanted == TimeUnit::Auto {
            auto_unit(time, ts)
        } else {
            wanted
        };
        number_formatted(scaled_number(time, ts, unit), fmt.format, cache) + (if fmt.show_space {
            seq![' ']
        } else {
            Seq::empty()
        }) + (if fmt.show_unit {
            unit_text(unit)
        } else {
            Seq::empty()
        })
    }
}

/// The inputs on which a time can be formatted.
pub open spec fn time_text_defined(
    time: int,
    ts: TimeScale,
    wanted: TimeUnit,
    fmt: TimeFormat,
    cache: LocaleFormatCache,
) -> bool {
    &&& cache_ready_for(fmt.format, cache)
    &&& wanted == TimeUnit::Auto ==> auto_unit_defined(time, ts)
}

/// Formatter for time strings with caching of computed values.
/// Enables efficient formatting of multiple time values with the same timescale and format settings.
pub struct TimeFormatter {
    timescale: TimeScale,
    wanted_unit: TimeUnit,
    time_format: TimeFormat,
    /// Cached exponent difference (wanted - data)
    exponent_diff: i8,
    /// Cached unit string (empty if `show_unit` is false)
    unit_string: String,
    /// Cached space string (empty if `show_space` is false)
    space_string: String,
}

impl TimeFormatter {
    /// The cached values agree with the settings.
    #[verifier::type_invariant]
    spec fn cache_consistent(self) -> bool {
        &&& self.exponent_diff == (if self.wanted_unit == TimeUnit::Auto {
            0
        } else {
            unit_exponent(self.wanted_unit) - unit_exponent(self.timescale.unit)
        })
        &&& self.unit_string@ == (if self.wanted_unit != TimeUnit::Auto
            && self.time_format.show_unit {
            unit_text(self.wanted_unit)
        } else {
            Seq::empty()
        })
        &&& self.space_string@ == (if self.time_format.show_space {
            seq![' ']
        } else {
            Seq::<char>::empty()
        })
    }

    /// The time scale of the times formatted.
    pub closed spec fn timescale(self) -> TimeScale {
        self.timescale
    }

    /// The unit the times are shown in.
    pub closed spec fn wanted_unit(self) -> TimeUnit {
        self.wanted_unit
    }

    /// The format of the times shown.
    pub closed spec fn time_format(self) -> TimeFormat {
        self.time_format
    }

    /// Create a new `TimeFormatter` with the given settings.
    pub fn new(timescale: &TimeScale, wanted_unit: &TimeUnit, time_format: &TimeFormat) -> (res:
        Self)
        ensures
            res.timescale() == *timescale,
            res.wanted_unit() == *wanted_unit,
            res.time_format() == *time_format,
    {
        // For Auto unit, the unit is resolved per formatted value
        let (exponent_diff, unit_string) = if *wanted_unit == TimeUnit::Auto {
            (0i8, String::new())
        } else {
            let wanted_exponent = wanted_unit.exponent();
            let data_exponent = timescale.unit.exponent();
            let exponent_diff = wanted_exponent - data_exponent;
            let unit_string = if time_format.show_unit {
                wanted_unit.to_display_string()
            } else {
                String::new()
            };
            (exponent_diff, unit_string)
        };
        let space_string = if time_format.show_space {
            let sp = vec![' '];
            assert(sp@ =~= seq![' ']);
            string_of(sp.as_slice())
        } else {
            String::new()
        };
        TimeFormatter {
            timescale: *timescale,
            wanted_unit: *wanted_unit,
            time_format: *time_format,
            exponent_diff,
            unit_string,
            space_string,
        }
    }

    /// Format a single time value.
    ///
    /// The value is scaled exactly; a fractional result is written with as
    /// many decimals as the unit change asks for, trailing zeros removed.
    pub fn format(&self, time: &str, cache: &LocaleFormatCache) -> (res: String)
        requires
            is_int_text(time@),
            time_text_defined(
                int_text_value(time@),
                self.timescale(),
                self.wanted_unit(),
                self.time_format(),
                *cache,
            ),
        ensures
            res@ == time_text(
                int_text_value(time@),
                self.timescale(),
                self.wanted_unit(),
                self.time_format(),
                *cache,
            ),
    {
        proof {
            use_type_invariant(self);
        }
        if self.wanted_unit == TimeUnit::NoUnit {
            let decimal = bigint_scaled_decimal(time, 1, 0);
            return split_and_format_number(decimal.as_str(), self.time_format.format, cache);
        }
        // Handle Auto unit by resolving it for this specific time value
        let (exponent_diff, unit_string, unit) = if self.wanted_unit == TimeUnit::Auto {
            let auto_unit = find_auto_scale(time, &self.timescale);
            let wanted_exponent = auto_unit.exponent();
            let data_exponent = self.timescale.unit.exponent();
            let exp_diff = wanted_exponent - data_exponent;
            let unit_str = if self.time_format.show_unit {
                auto_unit.to_display_string()
            } else {
                String::new()
            };
            (exp_diff, unit_str, Ghost(auto_unit))
        } else {
            (self.exponent_diff, self.unit_string.clone(), Ghost(self.wanted_unit))
        };
        let ghost unit = unit@;
        let m: u32 = match self.timescale.multiplier {
            Some(m) => m,
            None => 1,
        };
        let timestring = if exponent_diff >= 0 {
            let decimal = bigint_scaled_decimal(time, m, 0);
            let fixed = fixed_point_string(
                decimal,
                Ghost(int_text_value(time@) * m * pow10(0)),
                exponent_diff as usize,
            );
            strip_trailing_zeros_and_period(fixed)
        } else {
            bigint_scaled_decimal(time, m, (-exponent_diff) as u32)
        };
        let number = split_and_format_number(timestring.as_str(), self.time_format.format, cache);
        let mut out = chars_of(number.as_str());
        let space = chars_of(self.space_string.as_str());
        push_all(&mut out, space.as_slice());
        let unit_chars = chars_of(unit_string.as_str());
        push_all(&mut out, unit_chars.as_slice());
        proof {
            assert(out@ =~= time_text(
                int_text_value(time@),
                self.timescale(),
                self.wanted_unit(),
                self.time_format(),
                *cache,
            ));
        }
        string_of(out.as_slice())
    }
}

/// Format the time string taking all settings into account.
/// This function delegates to `TimeFormatter` which handles the Auto timeunit.
pub fn time_string(
    time: &str,
    timescale: &TimeScale,
    wanted_timeunit: &TimeUnit,
    wanted_time_format: &TimeFormat,
    cache: &LocaleFormatCache,
) -> (res: String)
    requires
        is_int_text(time@),
        time_text_defined(int_text_value(time@), *timescale, *wanted_timeunit, *wanted_time_format, *cache),
    ensures
        res@ == time_text(int_text_value(time@), *timescale, *wanted_timeunit, *wanted_time_format, *cache),
{
    let formatter = TimeFormatter::new(timescale, wanted_timeunit, wanted_time_format);
    formatter.format(time, cache)
}

/// A time shown without a unit is the plain decimal text of the time, formatted as the
/// chosen number format asks, and nothing else: the time scale, the space and the unit
/// setting play no part. Without a format it is the decimal text itself; with the SI format,
/// leaving out its thin spaces gives the decimal text back, a number of more than four
/// characters ends with a thin space and its last three digits, and a shorter one is left
/// as it is; with a locale that groups digits, a number longer than one group ends with the
/// separator and its last group, and a shorter one is left as it is.
pub proof fn law_unitless_time_is_the_formatted_number(
    time: int,
    ts: TimeScale,
    other_ts: TimeScale,
    fmt: TimeFormat,
    other_fmt: TimeFormat,
    cache: LocaleFormatCache,
)
    requires
        other_fmt.format == fmt.format,
    ensures
        ({
            let d = int_decimal(time);
            let res = time_text(time, ts, TimeUnit::NoUnit, fmt, cache);
            &&& res == time_text(time, other_ts, TimeUnit::NoUnit, other_fmt, cache)
            &&& fmt.format == TimeStringFormatting::No ==> res == d
            &&& fmt.format == TimeStringFormatting::SI ==> without_char(res, '\u{2009}') == d
            &&& fmt.format == TimeStringFormatting::SI && d.len() > 4 ==> ends_with(
                res,
                seq!['\u{2009}'] + d.skip(d.len() - 3),
            )
            &&& fmt.format == TimeStringFormatting::SI && d.len() <= 4 ==> res == d
            &&& fmt.format == TimeStringFormatting::Locale && cache.grouping@.len() > 0
                && cache.grouping@[0] > 0 && d.len() > cache.grouping@[0] ==> ends_with(
                res,
                cache.thousands_sep@ + d.skip(d.len() - cache.grouping@[0]),
            )
            &&& fmt.format == TimeStringFormatting::Locale && cache.grouping@.len() > 0
                && d.len() <= cache.grouping@[0] ==> res == d
        }),
{
    let d = int_decimal(time);
    lemma_int_decimal_plain(time);
    d.index_of_first_ensures('.');
    assert(d.index_of_first('.') is None);
    lemma_byte_len_at_least_len(d);
    if fmt.format == TimeStringFormatting::SI {
        law_si_only_inserts_thin_spaces(d);
        if d.len() > 4 {
            assert(thin_space() =~= seq!['\u{2009}']);
            lemma_grouped_ends(d, 3, thin_space());
        } else {
            // Digits and `-` take one byte each.
            lemma_ascii_byte_len(d);
        }
    }
    if fmt.format == TimeStringFormatting::Locale && cache.grouping@.len() > 0
        && cache.grouping@[0] > 0 {
        law_locale_groups_only_the_integer_part(d, cache);
    }
}

/// The decimal text of a natural number reads back as that number.
proof fn lemma_decimal_reads_back(n: nat)
    ensures
        digits_value(nat_decimal(n)) == n,
    decreases n,
{
    let s = nat_decimal(n);
    if n < 10 {
        assert(s.drop_last() =~= Seq::<char>::empty());
        assert(digits_value(s.drop_last()) == 0);
        assert(digit_value(digit_char(n as int)) == n);
    } else {
        lemma_decimal_reads_back(n / 10);
        assert(s.drop_last() =~= nat_decimal(n / 10));
        assert(digit_value(digit_char((n % 10) as int)) == n % 10);
    }
}

/// The decimal text of an integer reads back as that integer.
proof fn lemma_int_decimal_reads_back(x: int)
    ensures
        int_text_value(int_decimal(x)) == x,
{
    let d = int_decimal(x);
    if x < 0 {
        lemma_decimal_reads_back((-x) as nat);
        assert(d[0] == '-');
        assert(d.skip(1) =~= nat_decimal((-x) as nat));
    } else {
        lemma_decimal_reads_back(x as nat);
        lemma_nat_decimal_digits(x as nat);
        assert(is_digit(d[0]));
    }
}

/// The text after the number of a time shown in a unit: a space when asked for, then the
/// unit when asked for.
pub open spec fn unit_suffix(unit: TimeUnit, fmt: TimeFormat) -> Seq<char> {
    (if fmt.show_space {
        seq![' ']
    } else {
        Seq::empty()
    }) + (if fmt.show_unit {
        unit_text(unit)
    } else {
        Seq::empty()
    })
}

/// A time shown in a chosen unit ends with the space and the unit, as the format asks; when
/// the unit is finer than the time scale's, the number before them is exact: read back (after
/// leaving out the thin spaces of the SI format), it is the time times the scale's multiplier
/// times the power of ten between the two units.
pub proof fn law_time_in_a_unit(
    time: int,
    ts: TimeScale,
    unit: TimeUnit,
    fmt: TimeFormat,
    cache: LocaleFormatCache,
)
    requires
        unit != TimeUnit::NoUnit,
        unit != TimeUnit::Auto,
    ensures
        ({
            let res = time_text(time, ts, unit, fmt, cache);
            let suffix = unit_suffix(unit, fmt);
            let number = res.take(res.len() - suffix.len());
            let exact = time * multiplier_value(ts) * pow10(
                (unit_exponent(ts.unit) - unit_exponent(unit)) as nat,
            );
            &&& ends_with(res, suffix)
            &&& unit_exponent(unit) < unit_exponent(ts.unit) && fmt.format
                == TimeStringFormatting::No ==> int_text_value(number) == exact
            &&& unit_exponent(unit) < unit_exponent(ts.unit) && fmt.format
                == TimeStringFormatting::SI ==> int_text_value(without_char(number, '\u{2009}'))
                == exact
        }),
{
    let res = time_text(time, ts, unit, fmt, cache);
    let suffix = unit_suffix(unit, fmt);
    let n = number_formatted(scaled_number(time, ts, unit), fmt.format, cache);
    assert(res =~= n + suffix);
    assert(res.skip(res.len() - suffix.len()) =~= suffix);
    assert(res.take(res.len() - suffix.len()) =~= n);
    if unit_exponent(unit) < unit_exponent(ts.unit) {
        let v = time * multiplier_value(ts) * pow10(
            (unit_exponent(ts.unit) - unit_exponent(unit)) as nat,
        );
        assert(scaled_number(time, ts, unit) == int_decimal(v));
        lemma_int_decimal_reads_back(v);
        if fmt.format == TimeStringFormatting::SI {
            lemma_int_decimal_plain(v);
            law_si_only_inserts_thin_spaces(int_decimal(v));
        }
    }
}

} // verus!
