//! Stripping of embedded color and style escape sequences, so that matching
//! runs on the visible text while display keeps the original bytes.
//!
//! A control sequence is the escape byte followed by `[`, a run of parameter
//! bytes (0x20 to 0x3F), and one final byte (0x40 to 0x7E); the whole
//! sequence is removed. A malformed sequence is dropped up to the byte that
//! broke it, an unterminated one up to the end of the text, and a lone
//! escape byte is dropped alone.

use vstd::prelude::*;

verus! {

/// The escape byte.
pub const ESC: u8 = 0x1B;

/// The byte opening a control sequence after the escape byte.
pub const CSI_OPEN: u8 = 0x5B;

/// Whether `b` may stand in the parameter run of a control sequence.
pub open spec fn csi_param(b: u8) -> bool {
    0x20 <= b && b <= 0x3F
}

/// Whether `b` closes a control sequence.
pub open spec fn csi_final(b: u8) -> bool {
    0x40 <= b && b <= 0x7E
}

/// Length of the run of parameter bytes starting at position `i`.
pub open spec fn param_run(s: Seq<u8>, i: int) -> nat
    decreases s.len() - i,
{
    if i < 0 || i >= s.len() {
        0
    } else if csi_param(s[i]) {
        1 + param_run(s, i + 1)
    } else {
        0
    }
}

/// The text of `s` from position `i` on with every escape sequence removed.
pub open spec fn stripped_from(s: Seq<u8>, i: int) -> Seq<u8>
    decreases s.len() - i,
{
    if i < 0 || i >= s.len() {
        Seq::empty()
    } else if s[i] == ESC {
        if i + 1 < s.len() && s[i + 1] == CSI_OPEN {
            let j = i + 2 + param_run(s, i + 2);
            if j < s.len() && csi_final(s[j]) {
                stripped_from(s, j + 1)
            } else if j < s.len() {
                stripped_from(s, j)
            } else {
                Seq::empty()
            }
        } else {
            stripped_from(s, i + 1)
        }
    } else {
        seq![s[i]] + stripped_from(s, i + 1)
    }
}

/// The text of `s` with every escape sequence removed.
pub open spec fn ansi_stripped(s: Seq<u8>) -> Seq<u8> {
    stripped_from(s, 0)
}

/// The parameter run is never longer than the text it sits in.
proof fn lemma_param_run_bound(s: Seq<u8>, i: int)
    requires
        0 <= i <= s.len(),
    ensures
        param_run(s, i) <= s.len() - i,
    decreases s.len() - i,
{
    if i < s.len() && csi_param(s[i]) {
        lemma_param_run_bound(s, i + 1);
    }
}

/// A run of parameter bytes from `a` up to, and not past, `j` pins the
/// value of `param_run`.
proof fn lemma_param_run_exact(s: Seq<u8>, a: int, j: int)
    requires
        0 <= a <= j <= s.len(),
        forall|k: int| a <= k < j ==> csi_param(#[trigger] s[k]),
        j < s.len() ==> !csi_param(s[j]),
    ensures
        param_run(s, a) == j - a,
    decreases j - a,
{
    if a == j {
    } else {
        lemma_param_run_exact(s, a + 1, j);
    }
}

/// Copies `text` with every escape sequence removed, as `ansi_stripped`
/// describes.
pub fn strip_ansi(text: &[u8]) -> (out: Vec<u8>)
    ensures
        out@ == ansi_stripped(text@),
{
    let mut out: Vec<u8> = Vec::new();
    let mut i: usize = 0;
    while i < text.len()
        invariant
            i <= text.len(),
            ansi_stripped(text@) == out@ + stripped_from(text@, i as int),
        decreases text.len() - i,
    {
        let b = text[i];
        if b == ESC {
            if i + 1 < text.len() && text[i + 1] == CSI_OPEN {
                let mut j: usize = i + 2;
                while j < text.len() && csi_param_exec(text[j])
                    invariant
                        i + 2 <= j <= text.len(),
                        forall|k: int| i + 2 <= k < j ==> csi_param(#[trigger] text@[k]),
                    decreases text.len() - j,
                {
                    j = j + 1;
                }
                proof {
                    lemma_param_run_exact(text@, i + 2 as int, j as int);
                }
                if j < text.len() && csi_final_exec(text[j]) {
                    i = j + 1;
                } else {
                    i = j;
                }
            } else {
                i = i + 1;
            }
        } else {
            let ghost out0 = out@;
            out.push(b);
            proof {
                assert(out0 + stripped_from(text@, i as int) =~= out@ + stripped_from(
                    text@,
                    i + 1 as int,
                ));
            }
            i = i + 1;
        }
    }
    proof {
        assert(stripped_from(text@, text@.len() as int) == Seq::<u8>::empty());
        assert(out@ + Seq::<u8>::empty() =~= out@);
    }
    out
}

/// Whether `b` may stand in the parameter run of a control sequence.
fn csi_param_exec(b: u8) -> (r: bool)
    ensures
        r == csi_param(b),
{
    0x20 <= b && b <= 0x3F
}

/// Whether `b` closes a control sequence.
fn csi_final_exec(b: u8) -> (r: bool)
    ensures
        r == csi_final(b),
{
    0x40 <= b && b <= 0x7E
}

} // verus!
