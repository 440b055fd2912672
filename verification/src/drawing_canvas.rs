//! Kinds of digital wave forms, and how values are drawn in the Dinotrace style.
use crate::frame_buffer::{value_text, value_well_formed, VariableValue};
use crate::text::{chars_of, digit_char, digits_value, nat_binary};
use vstd::prelude::*;

verus! {

/// How a digital variable is drawn.
#[derive(Clone, Copy, Debug, PartialEq, Eq, Structural)]
pub enum DigitalDrawingType {
    Bool,
    Clock,
    Event,
    Vector,
}

/// The Dinotrace style of a value: a thick upper line when all bits are set, no upper line
/// when none is.
#[derive(Clone, Copy, Debug, PartialEq, Eq, Structural)]
pub enum DinotraceDrawingStyle {
    Normal,
    AllZeros,
    AllOnes,
}

/// The number of set bits of `n`.
pub open spec fn ones(n: nat) -> nat
    decreases n,
{
    if n == 0 {
        0
    } else {
        (n % 2) + ones(n / 2)
    }
}

/// The style of `val`: all zeros for the number zero, all ones for a number with as many set
/// bits as the variable is wide, normal otherwise and for any string.
pub open spec fn dinotrace_style(val: VariableValue, num_bits: Option<u32>) -> DinotraceDrawingStyle {
    match val {
        VariableValue::BigUint(u) => {
            let n = digits_value(u@) as nat;
            if n == 0 {
                DinotraceDrawingStyle::AllZeros
            } else if num_bits matches Some(bits) && ones(n) == bits {
                DinotraceDrawingStyle::AllOnes
            } else {
                DinotraceDrawingStyle::Normal
            }
        },
        VariableValue::String(_) => DinotraceDrawingStyle::Normal,
    }
}

/// The number of `'1'` characters in `s`.
pub open spec fn one_chars(s: Seq<char>) -> nat
    decreases s.len(),
{
    if s.len() == 0 {
        0
    } else {
        one_chars(s.drop_last()) + if s.last() == '1' { 1nat } else { 0nat }
    }
}

/// The binary digits of `n` hold as many ones as `n` has set bits.
proof fn lemma_binary_ones(n: nat)
    ensures
        one_chars(nat_binary(n)) == ones(n),
    decreases n,
{
    let b = nat_binary(n);
    let d = if n < 2 { n } else { n % 2 };
    assert(digit_char(0) == '0');
    assert(digit_char(1) == '1');
    assert(b.len() > 0);
    assert(b.last() == digit_char(d as int));
    assert(ones(n) == d + ones(n / 2));
    assert(one_chars(b) == one_chars(b.drop_last()) + if b.last() == '1' { 1nat } else { 0nat });
    if n < 2 {
        assert(b.drop_last() =~= Seq::<char>::empty());
        assert(n / 2 == 0);
        assert(one_chars(b.drop_last()) == 0);
        assert(ones(0) == 0);
    } else {
        lemma_binary_ones(n / 2);
        assert(b.drop_last() =~= nat_binary(n / 2));
    }
    if d == 0 {
        assert(b.last() == '0');
    } else {
        assert(b.last() == '1');
    }
}

/// The number of `'1'` characters in `chars`.
fn count_one_chars(chars: &[char]) -> (res: usize)
    ensures
        res == one_chars(chars@),
{
    let mut c: usize = 0;
    let mut i: usize = 0;
    while i < chars.len()
        invariant
            i <= chars@.len(),
            c == one_chars(chars@.take(i as int)),
            c <= i,
        decreases chars@.len() - i,
    {
        assert(chars@.take(i + 1).drop_last() =~= chars@.take(i as int));
        if chars[i] == '1' {
            c = c + 1;
        }
        i = i + 1;
    }
    assert(chars@.take(i as int) =~= chars@);
    c
}

impl DinotraceDrawingStyle {
    /// The style in which `val` is drawn, for a variable of `num_bits` bits.
    pub fn from_value(val: &VariableValue, num_bits: Option<u32>) -> (res: Self)
        requires
            value_well_formed(*val),
        ensures
            res == dinotrace_style(*val, num_bits),
    {
        match val {
            VariableValue::BigUint(u) => {
                let binary = value_text(val);
                let chars = chars_of(binary.as_str());
                let set = count_one_chars(chars.as_slice());
                proof {
                    lemma_binary_ones(digits_value(u@) as nat);
                    lemma_ones_zero(digits_value(u@) as nat);
                }
                if set == 0 {
                    DinotraceDrawingStyle::AllZeros
                } else {
                    match num_bits {
                        Some(bits) => {
                            if set == bits as usize {
                                DinotraceDrawingStyle::AllOnes
                            } else {
                                DinotraceDrawingStyle::Normal
                            }
                        },
                        None => DinotraceDrawingStyle::Normal,
                    }
                }
            },
            VariableValue::String(_) => DinotraceDrawingStyle::Normal,
        }
    }
}

/// Only zero has no set bit.
proof fn lemma_ones_zero(n: nat)
    ensures
        ones(n) == 0 <==> n == 0,
{
    if n > 0 {
        assert(ones(n) == (n % 2) + ones(n / 2));
        if n % 2 == 0 {
            assert(n / 2 > 0);
            lemma_ones_positive(n / 2);
        }
    }
}

/// A positive number has a set bit.
proof fn lemma_ones_positive(n: nat)
    requires
        n > 0,
    ensures
        ones(n) > 0,
    decreases n,
{
    if n % 2 == 0 {
        lemma_ones_positive(n / 2);
    }
}

/// The draw data cached for each viewport of the wave form view, by viewport index; `None`
/// where it has to be generated again before drawing. `D` is the draw data of one viewport.
pub struct DrawDataCache<D> {
    pub draw_data: Vec<Option<D>>,
}

impl<D> DrawDataCache<D> {
    /// Keeps `draw_data`, just generated for viewport `viewport_idx`, in place of what was
    /// cached for it; `None` when the loaded data gave nothing to draw.
    pub fn store_draw_data(&mut self, viewport_idx: usize, draw_data: Option<D>)
        requires
            viewport_idx < old(self).draw_data@.len(),
        ensures
            final(self).draw_data@ == old(self).draw_data@.update(viewport_idx as int, draw_data),
    {
        self.draw_data.set(viewport_idx, draw_data);
    }

    /// Drops the cached draw data of every viewport of the loaded wave forms, so that it is
    /// generated again; `viewports` is their number of viewports, `None` when nothing is
    /// loaded, which leaves the cache as it is. Data cached past the viewports is kept.
    pub fn invalidate_draw_commands(&mut self, viewports: Option<usize>)
        requires
            viewports matches Some(n) ==> n <= old(self).draw_data@.len(),
        ensures
            final(self).draw_data@.len() == old(self).draw_data@.len(),
            forall|i: int|
                0 <= i < old(self).draw_data@.len() ==> (#[trigger] final(self).draw_data@[i])
                    == if viewports matches Some(n) && i < n {
                    None
                } else {
                    old(self).draw_data@[i]
                },
    {
        if let Some(n) = viewports {
            let mut viewport: usize = 0;
            while viewport < n
                invariant
                    viewport <= n <= self.draw_data@.len(),
                    self.draw_data@.len() == old(self).draw_data@.len(),
                    forall|i: int|
                        0 <= i < self.draw_data@.len() ==> (#[trigger] self.draw_data@[i]) == if i
                            < viewport {
                            None
                        } else {
                            old(self).draw_data@[i]
                        },
                decreases n - viewport,
            {
                self.draw_data.set(viewport, None);
                viewport = viewport + 1;
            }
        }
    }
}

} // verus!
