//! User configuration values, and colors written as hexadecimal strings.
use crate::color::Rgb;
use crate::text::{chars_of, string_of};
use vstd::utf8::{encode_utf8, is_ascii_chars, is_char_boundary};
use vstd::prelude::*;

verus! {

/// Select the function of the arrow keys
#[derive(Clone, Copy, Debug, PartialEq, Eq, Structural)]
pub enum ArrowKeyBindings {
    /// The left/right arrow keys step to the next edge
    Edge,
    /// The left/right arrow keys scroll the viewport left/right
    Scroll,
}

/// Which value is shown when the cursor stands on a transition.
#[derive(Clone, Copy, Debug, PartialEq, Eq, Structural)]
pub enum TransitionValue {
    /// Transition value is the previous value
    Previous,
    /// Transition value is the next value
    Next,
    /// Transition value is both previous and next value
    Both,
}

/// Select the function when dragging with primary mouse button
#[derive(Clone, Copy, Debug, PartialEq, Eq, Structural)]
pub enum PrimaryMouseDrag {
    /// Dragging measures the time between two points
    Measure,
    /// Dragging moves the cursor
    Cursor,
}

/// Whether a file is loaded without asking.
#[derive(Clone, Copy, Debug, PartialEq, Eq, Structural)]
pub enum AutoLoad {
    Always,
    Never,
    Ask,
}

impl AutoLoad {
    /// `Always` for `true`, `Never` for `false`.
    pub fn from_bool(auto_load: bool) -> (res: Self)
        ensures
            res == (if auto_load { AutoLoad::Always } else { AutoLoad::Never }),
    {
        if auto_load {
            AutoLoad::Always
        } else {
            AutoLoad::Never
        }
    }
}

impl PrimaryMouseDrag {
    /// The text shown for this behavior.
    pub fn display_text(self) -> (res: &'static str)
        ensures
            self == PrimaryMouseDrag::Measure ==> res@ == "Measure time"@,
            self == PrimaryMouseDrag::Cursor ==> res@ == "Move cursor"@,
    {
        match self {
            PrimaryMouseDrag::Measure => "Measure time",
            PrimaryMouseDrag::Cursor => "Move cursor",
        }
    }
}

/// The default of settings that are on unless configured otherwise.
pub fn default_true() -> (res: bool)
    ensures
        res,
{
    true
}

/// The default value shown on a transition.
pub fn default_next() -> (res: TransitionValue)
    ensures
        res == TransitionValue::Next,
{
    TransitionValue::Next
}

/// How the viewer behaves on user input and on reload.
#[derive(Debug)]
pub struct SurferBehavior {
    /// Keep or remove variables if unavailable during reload
    pub keep_during_reload: bool,
    /// Select the functionality bound to the arrow keys
    pub arrow_key_bindings: ArrowKeyBindings,
    /// Whether dragging with primary mouse button will measure time or move cursor
    /// (press shift for the other)
    primary_button_drag_behavior: PrimaryMouseDrag,
}

impl SurferBehavior {
    /// The behavior with the given settings.
    pub fn new(
        keep_during_reload: bool,
        arrow_key_bindings: ArrowKeyBindings,
        primary_button_drag_behavior: PrimaryMouseDrag,
    ) -> (res: Self)
        ensures
            res.keeps_variables_on_reload() == keep_during_reload,
            res.arrow_keys() == arrow_key_bindings,
            res.drag_behavior() == primary_button_drag_behavior,
    {
        SurferBehavior { keep_during_reload, arrow_key_bindings, primary_button_drag_behavior }
    }

    /// Whether variables that are missing after a reload are kept.
    pub closed spec fn keeps_variables_on_reload(&self) -> bool {
        self.keep_during_reload
    }

    /// What the arrow keys do.
    pub closed spec fn arrow_keys(&self) -> ArrowKeyBindings {
        self.arrow_key_bindings
    }

    /// What dragging with the primary button does.
    pub closed spec fn drag_behavior(&self) -> PrimaryMouseDrag {
        self.primary_button_drag_behavior
    }

    /// What dragging with the primary button does.
    pub fn primary_button_drag_behavior(&self) -> (res: PrimaryMouseDrag)
        ensures
            res == self.drag_behavior(),
    {
        self.primary_button_drag_behavior
    }

    /// What the arrow keys do.
    pub fn arrow_key_bindings(&self) -> (res: ArrowKeyBindings)
        ensures
            res == self.arrow_keys(),
    {
        self.arrow_key_bindings
    }
}

/// Settings of the wave control protocol server.
#[derive(Debug)]
pub struct WcpConfig {
    /// Controls if a server is started after Surfer is launched
    pub autostart: bool,
    /// Address to bind to (address:port)
    pub address: String,
}

/// Settings of the HTTP server.
#[derive(Debug)]
pub struct ServerConfig {
    /// IP address to bind the HTTP server to
    pub bind_address: String,
    /// Default port for the HTTP server
    pub port: u16,
}

/// A text that is not a color written in hexadecimal.
#[derive(Debug)]
pub struct InvalidHexColor {
    /// The text, after a three-character shorthand was widened.
    pub text: String,
}

/// Whether `b` is an ASCII hexadecimal digit, in either case.
pub open spec fn is_hex_digit(b: u8) -> bool {
    // '0'..='9', 'a'..='f', 'A'..='F'
    (48 <= b <= 57) || (97 <= b <= 102) || (65 <= b <= 70)
}

/// The value of the hexadecimal digit `b`.
pub open spec fn hex_value(b: u8) -> int {
    if 48 <= b <= 57 {
        b - 48
    } else if 97 <= b <= 102 {
        b - 87
    } else {
        b - 55
    }
}

/// The byte written by two characters in base 16, as `u8::from_str_radix` reads them:
/// two digits, or a plus sign and one digit.
pub open spec fn hex_pair(hi: u8, lo: u8) -> Option<u8> {
    if is_hex_digit(hi) && is_hex_digit(lo) {
        Some((16 * hex_value(hi) + hex_value(lo)) as u8)
    } else if hi == 43 && is_hex_digit(lo) {
        Some(hex_value(lo) as u8)
    } else {
        None
    }
}

/// Every character of `s` written twice.
pub open spec fn doubled(s: Seq<char>) -> Seq<char>
    decreases s.len(),
{
    if s.len() == 0 {
        Seq::empty()
    } else {
        seq![s[0], s[0]] + doubled(s.drop_first())
    }
}

/// The text that is read as a color: a text of three bytes has each character doubled.
pub open spec fn widened_color_text(s: Seq<char>) -> Seq<char> {
    if encode_utf8(s).len() == 3 {
        doubled(s)
    } else {
        s
    }
}

/// The color written by the UTF-8 bytes `d`: six bytes, three pairs.
pub open spec fn hex_color(d: Seq<u8>) -> Option<Rgb> {
    if d.len() == 6 && hex_pair(d[0], d[1]) is Some && hex_pair(d[2], d[3]) is Some && hex_pair(
        d[4],
        d[5],
    ) is Some {
        Some(
            Rgb {
                r: hex_pair(d[0], d[1])->0,
                g: hex_pair(d[2], d[3])->0,
                b: hex_pair(d[4], d[5])->0,
            },
        )
    } else {
        None
    }
}

/// Reading the pairs of `d` would cut a character in two: the first pair ends inside a
/// character, or it is read and the second pair ends inside one.
pub open spec fn hex_color_cuts_char(d: Seq<u8>) -> bool {
    d.len() == 6 && (!is_char_boundary(d, 2) || (hex_pair(d[0], d[1]) is Some
        && !is_char_boundary(d, 4)))
}

fn read_hex_pair(hi: u8, lo: u8) -> (res: Option<u8>)
    ensures
        res == hex_pair(hi, lo),
{
    let h = hex_digit(hi);
    let l = hex_digit(lo);
    match (h, l) {
        (Some(a), Some(b)) => {
            assert(16 * a + b < 256);
            Some(16 * a + b)
        },
        (None, Some(b)) => {
            if hi == 43 {
                Some(b)
            } else {
                None
            }
        },
        _ => None,
    }
}

fn hex_digit(b: u8) -> (res: Option<u8>)
    ensures
        res is Some <==> is_hex_digit(b),
        res is Some ==> res->0 == hex_value(b) && res->0 < 16,
{
    if 48 <= b && b <= 57 {
        Some(b - 48)
    } else if 97 <= b && b <= 102 {
        Some(b - 87)
    } else if 65 <= b && b <= 70 {
        Some(b - 55)
    } else {
        None
    }
}

/// The text that is read as a color: each character of a three-byte text doubled.
fn widen_color_text(s: &str) -> (res: String)
    ensures
        res@ == widened_color_text(s@),
{
    let widened: String = if s.as_bytes().len() == 3 {
        let chars = chars_of(s);
        let mut out: Vec<char> = Vec::new();
        let mut i: usize = 0;
        while i < chars.len()
            invariant
                i <= chars.len(),
                chars@ == s@,
                out@ == doubled(chars@.subrange(0, i as int)),
            decreases chars.len() - i,
        {
            proof {
                lemma_doubled_push(chars@.subrange(0, i as int), chars@[i as int]);
                assert(chars@.subrange(0, i as int).push(chars@[i as int]) =~= chars@.subrange(
                    0,
                    i + 1,
                ));
            }
            out.push(chars[i]);
            out.push(chars[i]);
            i = i + 1;
        }
        assert(chars@.subrange(0, chars@.len() as int) =~= chars@);
        string_of(&out)
    } else {
        s.to_owned()
    };
    widened
}

/// Whether reading `text` as a color would cut a character in two, which
/// `hex_string_to_color32` leaves out.
pub fn hex_color_text_cuts_char(text: &str) -> (res: bool)
    ensures
        res == hex_color_cuts_char(encode_utf8(widened_color_text(text@))),
{
    let widened = widen_color_text(text);
    let w = widened.as_str();
    let bytes = w.as_bytes();
    if bytes.len() != 6 {
        return false;
    }
    if !w.is_char_boundary(2) {
        return true;
    }
    match read_hex_pair(bytes[0], bytes[1]) {
        Some(_) => !w.is_char_boundary(4),
        None => false,
    }
}

/// The color written as three pairs of characters, each read by `u8::from_str_radix` in base
/// 16: two hexadecimal digits, or a `+` and one digit. A text of three bytes stands for the
/// text with each of its characters doubled.
pub fn hex_string_to_color32(text: String) -> (res: Result<Rgb, InvalidHexColor>)
    requires
        !hex_color_cuts_char(encode_utf8(widened_color_text(text@))),
    ensures
        match res {
            Ok(c) => hex_color(encode_utf8(widened_color_text(text@))) == Some(c),
            Err(e) => hex_color(encode_utf8(widened_color_text(text@))) is None && e.text@
                == widened_color_text(text@),
        },
{
    let widened = widen_color_text(text.as_str());
    assert(widened@ == widened_color_text(text@));
    let bytes = widened.as_str().as_bytes();
    if bytes.len() == 6 {
        let r = read_hex_pair(bytes[0], bytes[1]);
        let g = read_hex_pair(bytes[2], bytes[3]);
        let b = read_hex_pair(bytes[4], bytes[5]);
        match (r, g, b) {
            (Some(r), Some(g), Some(b)) => Ok(Rgb::from_rgb(r, g, b)),
            _ => Err(InvalidHexColor { text: widened }),
        }
    } else {
        Err(InvalidHexColor { text: widened })
    }
}

/// Doubling distributes over appending one character.
pub proof fn lemma_doubled_push(s: Seq<char>, c: char)
    ensures
        doubled(s.push(c)) == doubled(s) + seq![c, c],
    decreases s.len(),
{
    if s.len() == 0 {
        let t = s.push(c);
        assert(t.drop_first() =~= Seq::<char>::empty());
        assert(doubled(t.drop_first()) =~= Seq::<char>::empty());
        assert(doubled(t) =~= seq![c, c]);
    } else {
        assert(s.push(c).drop_first() =~= s.drop_first().push(c));
        lemma_doubled_push(s.drop_first(), c);
        assert(doubled(s.push(c)) =~= doubled(s) + seq![c, c]);
    }
}

/// A doubled text has twice the characters, each from the text.
proof fn lemma_doubled_chars(s: Seq<char>)
    ensures
        doubled(s).len() == 2 * s.len(),
        forall|i: int| 0 <= i < doubled(s).len() ==> #[trigger] doubled(s)[i] == s[i / 2],
    decreases s.len(),
{
    if s.len() > 0 {
        lemma_doubled_chars(s.drop_first());
        let d = doubled(s);
        let r = doubled(s.drop_first());
        assert forall|i: int| 0 <= i < d.len() implies #[trigger] d[i] == s[i / 2] by {
            if i >= 2 {
                assert(d[i] == r[i - 2]);
                assert((i - 2) / 2 == i / 2 - 1);
                assert(s.drop_first()[i / 2 - 1] == s[i / 2]);
            }
        }
    }
}

/// A color written with three ASCII characters is the color written with each of them
/// twice: `"abc"` reads as `"aabbcc"`.
pub proof fn law_short_hex_is_doubled(t: Seq<char>)
    requires
        t.len() == 3,
        is_ascii_chars(t),
    ensures
        encode_utf8(widened_color_text(t)) == encode_utf8(widened_color_text(doubled(t))),
        widened_color_text(t) == doubled(t),
{
    vstd::utf8::is_ascii_chars_encode_utf8(t);
    lemma_doubled_chars(t);
    let d = doubled(t);
    assert(is_ascii_chars(d)) by {
        assert forall|i: int| 0 <= i < d.len() implies '\0' <= #[trigger] d[i] <= '\u{7f}' by {
            assert(d[i] == t[i / 2]);
        }
    }
    vstd::utf8::is_ascii_chars_encode_utf8(d);
}

} // verus!
