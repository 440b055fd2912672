//! Texts of the help windows.
use crate::text::{chars_of, string_of};
use vstd::prelude::*;

verus! {

/// `s` with each occurrence of `pat` replaced by `rep`, scanning from the left and not
/// overlapping, as `str::replace` does.
pub open spec fn replaced(s: Seq<char>, pat: Seq<char>, rep: Seq<char>) -> Seq<char>
    recommends
        pat.len() > 0,
    decreases s.len(),
{
    if pat.len() == 0 || s.len() < pat.len() {
        s
    } else if s.take(pat.len() as int) == pat {
        rep + replaced(s.skip(pat.len() as int), pat, rep)
    } else {
        seq![s[0]] + replaced(s.drop_first(), pat, rep)
    }
}

/// Whether `pat` occurs in `s` at `i`.
fn occurs_at(s: &[char], pat: &[char], i: usize) -> (res: bool)
    requires
        i <= s@.len(),
    ensures
        res == (i + pat@.len() <= s@.len() && s@.skip(i as int).take(pat@.len() as int) == pat@),
{
    if pat.len() > s.len() - i {
        return false;
    }
    let mut k: usize = 0;
    assert(s@.len() == s.len());
    while k < pat.len()
        invariant
            k <= pat@.len(),
            i + pat@.len() <= s@.len(),
            s@.len() <= usize::MAX,
            forall|j: int| 0 <= j < k ==> s@[i + j] == pat@[j],
        decreases pat@.len() - k,
    {
        if s[i + k] != pat[k] {
            assert(s@.skip(i as int).take(pat@.len() as int)[k as int] != pat@[k as int]);
            return false;
        }
        k = k + 1;
    }
    assert(s@.skip(i as int).take(pat@.len() as int) =~= pat@);
    true
}

/// `s` with each occurrence of `pat` replaced by `rep`.
pub fn replace_all(s: &str, pat: &str, rep: &str) -> (res: String)
    requires
        pat@.len() > 0,
    ensures
        res@ == replaced(s@, pat@, rep@),
{
    let cs = chars_of(s);
    let p = chars_of(pat);
    let r = chars_of(rep);
    let mut out: Vec<char> = Vec::new();
    let mut i: usize = 0;
    assert(cs@.skip(0) =~= cs@);
    while i < cs.len()
        invariant
            i <= cs@.len(),
            cs@ == s@,
            p@ == pat@,
            r@ == rep@,
            p@.len() > 0,
            replaced(s@, pat@, rep@) == out@ + replaced(cs@.skip(i as int), p@, r@),
        decreases cs@.len() - i,
    {
        let ghost rest = cs@.skip(i as int);
        if occurs_at(cs.as_slice(), p.as_slice(), i) {
            assert(rest.skip(p@.len() as int) =~= cs@.skip(i + p@.len()));
            crate::text::push_all(&mut out, r.as_slice());
            i = i + p.len();
        } else {
            proof {
                if rest.len() >= p@.len() {
                    assert(rest.drop_first() =~= cs@.skip(i + 1));
                } else {
                    assert(replaced(rest, p@, r@) == rest);
                    assert(rest =~= seq![rest[0]] + cs@.skip(i + 1));
                    assert(replaced(cs@.skip(i + 1), p@, r@) == cs@.skip(i + 1));
                }
            }
            out.push(cs[i]);
            i = i + 1;
        }
        assert(replaced(s@, pat@, rep@) =~= out@ + replaced(cs@.skip(i as int), p@, r@));
    }
    assert(cs@.skip(i as int) =~= Seq::<char>::empty());
    string_of(&out)
}

/// The text of a key binding as shown on the platform: on macOS the `Ctrl` key is named
/// `Cmd`.
pub fn ctrl_to_cmd(instr: &str, on_macos: bool) -> (res: String)
    ensures
        res@ == (if on_macos {
            replaced(instr@, "Ctrl"@, "Cmd"@)
        } else {
            instr@
        }),
{
    if on_macos {
        proof {
            reveal_strlit("Ctrl");
        }
        replace_all(instr, "Ctrl", "Cmd")
    } else {
        instr.to_owned()
    }
}

} // verus!
