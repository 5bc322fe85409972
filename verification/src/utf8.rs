//! Tolerant text validation: a raw buffer is scanned one encoded sequence at
//! a time, well-formed sequences are kept, and each minimal ill-formed
//! sequence is discarded, so that a pass never aborts on bad bytes.
//!
//! The skip width for an ill-formed sequence follows the maximal-subpart
//! convention: the offending lead byte together with the continuation bytes
//! that were still acceptable is dropped as one unit, and a sequence left
//! unterminated by the end of the buffer is dropped whole.

use vstd::prelude::*;

verus! {

/// Expected total length of the encoded sequence opened by lead byte `b`,
/// or 0 when `b` cannot open one.
pub open spec fn seq_len_of(b: u8) -> int {
    if b < 0x80 {
        1
    } else if b < 0xC2 {
        0
    } else if b < 0xE0 {
        2
    } else if b < 0xF0 {
        3
    } else if b < 0xF5 {
        4
    } else {
        0
    }
}

/// Whether `b` is acceptable as the `k`-th continuation byte (1-based) of a
/// sequence opened by `b0`. Only the first continuation has a narrowed
/// range, which rules out overlong forms, surrogates, and values past the
/// last code point.
pub open spec fn cont_ok(b0: u8, k: int, b: u8) -> bool {
    if k == 1 {
        cont_lo(b0) <= b && b <= cont_hi(b0)
    } else {
        0x80 <= b && b <= 0xBF
    }
}

/// Lower bound of the first continuation byte for lead `b0`.
pub open spec fn cont_lo(b0: u8) -> u8 {
    if b0 == 0xE0 {
        0xA0
    } else if b0 == 0xF0 {
        0x90
    } else {
        0x80
    }
}

/// Upper bound of the first continuation byte for lead `b0`.
pub open spec fn cont_hi(b0: u8) -> u8 {
    if b0 == 0xED {
        0x9F
    } else if b0 == 0xF4 {
        0x8F
    } else {
        0xBF
    }
}

/// Number of consecutive acceptable continuation bytes present in `s` right
/// after position `i`, counted up to what the lead at `i` expects.
pub open spec fn cont_run(s: Seq<u8>, i: int) -> int
    recommends
        0 <= i < s.len(),
{
    let n = seq_len_of(s[i]);
    if n >= 2 && i + 1 < s.len() && cont_ok(s[i], 1, s[i + 1]) {
        if n >= 3 && i + 2 < s.len() && cont_ok(s[i], 2, s[i + 2]) {
            if n >= 4 && i + 3 < s.len() && cont_ok(s[i], 3, s[i + 3]) {
                3
            } else {
                2
            }
        } else {
            1
        }
    } else {
        0
    }
}

/// Whether a complete well-formed sequence starts at position `i` of `s`.
pub open spec fn complete_at(s: Seq<u8>, i: int) -> bool
    recommends
        0 <= i < s.len(),
{
    seq_len_of(s[i]) >= 1 && cont_run(s, i) == seq_len_of(s[i]) - 1
}

/// How many bytes the scan moves forward at position `i`: the whole sequence
/// when it is complete, otherwise the minimal ill-formed sequence.
pub open spec fn advance_at(s: Seq<u8>, i: int) -> int
    recommends
        0 <= i < s.len(),
{
    if seq_len_of(s[i]) == 0 {
        1
    } else {
        1 + cont_run(s, i)
    }
}

/// The bytes of `s` from position `i` on, with every ill-formed sequence
/// removed.
pub open spec fn filtered_from(s: Seq<u8>, i: int) -> Seq<u8>
    decreases s.len() - i,
{
    if i < 0 || i >= s.len() {
        Seq::empty()
    } else if complete_at(s, i) {
        s.subrange(i, i + seq_len_of(s[i])) + filtered_from(s, i + seq_len_of(s[i]))
    } else {
        filtered_from(s, i + advance_at(s, i))
    }
}

/// The bytes of `s` with every ill-formed sequence removed.
pub open spec fn filtered(s: Seq<u8>) -> Seq<u8> {
    filtered_from(s, 0)
}

/// Whether `s` is entirely well-formed text: filtering drops nothing.
pub open spec fn text_clean(s: Seq<u8>) -> bool {
    filtered(s) == s
}

/// Filtering a suffix does not depend on what stands before it.
proof fn lemma_filtered_shift(a: Seq<u8>, b: Seq<u8>, i: int)
    requires
        0 <= i <= b.len(),
    ensures
        filtered_from(a + b, a.len() + i) == filtered_from(b, i),
    decreases b.len() - i,
{
    let s = a + b;
    let j = a.len() + i;
    if i < b.len() {
        assert(s[j] == b[i]);
        assert(forall|k: int| 0 <= k < b.len() ==> s[a.len() + k] == b[k]);
        assert(cont_run(s, j) == cont_run(b, i));
        let n = seq_len_of(b[i]);
        if complete_at(b, i) {
            assert(s.subrange(j, j + n) =~= b.subrange(i, i + n));
            lemma_filtered_shift(a, b, i + n);
        } else {
            assert(i + advance_at(b, i) <= b.len());
            lemma_filtered_shift(a, b, i + advance_at(b, i));
        }
    }
}

/// A complete sequence in front of clean text leaves the whole clean.
proof fn lemma_clean_prepend(u: Seq<u8>, t: Seq<u8>)
    requires
        u.len() > 0,
        complete_at(u, 0),
        seq_len_of(u[0]) == u.len(),
        filtered(t) == t,
    ensures
        filtered(u + t) == u + t,
{
    let s = u + t;
    let n = u.len() as int;
    assert(s[0] == u[0]);
    assert(forall|k: int| 0 <= k < n ==> s[k] == u[k]);
    assert(cont_run(s, 0) == cont_run(u, 0));
    assert(complete_at(s, 0));
    assert(s.subrange(0, n) =~= u);
    lemma_filtered_shift(u, t, 0);
    assert(filtered_from(s, n) == filtered_from(t, 0));
}

/// What the filter keeps is itself clean text: a second pass changes
/// nothing, so recovery never leaves an ill-formed sequence behind.
pub proof fn lemma_filtered_clean(s: Seq<u8>)
    ensures
        text_clean(filtered(s)),
{
    lemma_filtered_from_clean(s, 0);
}

/// Every tail of the scan yields clean text.
proof fn lemma_filtered_from_clean(s: Seq<u8>, i: int)
    requires
        0 <= i <= s.len(),
    ensures
        filtered(filtered_from(s, i)) == filtered_from(s, i),
    decreases s.len() - i,
{
    if i >= s.len() {
    } else if complete_at(s, i) {
        let n = seq_len_of(s[i]);
        lemma_filtered_from_clean(s, i + n);
        let u = s.subrange(i, i + n);
        assert(forall|k: int| 0 <= k < n ==> u[k] == s[i + k]);
        assert(u[0] == s[i]);
        assert(cont_run(u, 0) == cont_run(s, i));
        assert(complete_at(u, 0));
        lemma_clean_prepend(u, filtered_from(s, i + n));
    } else {
        assert(i + advance_at(s, i) <= s.len());
        lemma_filtered_from_clean(s, i + advance_at(s, i));
    }
}

/// Expected total sequence length for lead byte `b`, 0 for an impossible
/// lead.
fn seq_len_exec(b: u8) -> (n: usize)
    ensures
        n as int == seq_len_of(b),
{
    if b < 0x80 {
        1
    } else if b < 0xC2 {
        0
    } else if b < 0xE0 {
        2
    } else if b < 0xF0 {
        3
    } else if b < 0xF5 {
        4
    } else {
        0
    }
}

/// Whether `b` may stand as the `k`-th continuation byte under lead `b0`.
fn cont_ok_exec(b0: u8, k: usize, b: u8) -> (r: bool)
    ensures
        r == cont_ok(b0, k as int, b),
{
    if k == 1 {
        let lo: u8 = if b0 == 0xE0 {
            0xA0
        } else if b0 == 0xF0 {
            0x90
        } else {
            0x80
        };
        let hi: u8 = if b0 == 0xED {
            0x9F
        } else if b0 == 0xF4 {
            0x8F
        } else {
            0xBF
        };
        lo <= b && b <= hi
    } else {
        0x80 <= b && b <= 0xBF
    }
}

/// Copies `bytes` keeping only its well-formed sequences; the dropped bytes
/// are exactly the ill-formed sequences, in the sense of `filtered`.
pub fn filter_valid(bytes: &[u8]) -> (out: Vec<u8>)
    ensures
        out@ == filtered(bytes@),
{
    let mut out: Vec<u8> = Vec::new();
    let mut i: usize = 0;
    while i < bytes.len()
        invariant
            i <= bytes.len(),
            filtered(bytes@) == out@ + filtered_from(bytes@, i as int),
        decreases bytes.len() - i,
    {
        let b0 = bytes[i];
        let n = seq_len_exec(b0);
        let run: usize = if n >= 2 && i + 1 < bytes.len() && cont_ok_exec(b0, 1, bytes[i + 1]) {
            if n >= 3 && i + 2 < bytes.len() && cont_ok_exec(b0, 2, bytes[i + 2]) {
                if n >= 4 && i + 3 < bytes.len() && cont_ok_exec(b0, 3, bytes[i + 3]) {
                    3
                } else {
                    2
                }
            } else {
                1
            }
        } else {
            0
        };
        proof {
            assert(run as int == cont_run(bytes@, i as int));
        }
        if n >= 1 && run == n - 1 {
            // complete sequence: keep all n bytes
            let ghost out0 = out@;
            let mut j: usize = 0;
            while j < n
                invariant
                    j <= n,
                    i + n <= bytes.len(),
                    out@ == out0 + bytes@.subrange(i as int, i + j as int),
                decreases n - j,
            {
                out.push(bytes[i + j]);
                proof {
                    assert(out@ == out0 + bytes@.subrange(i as int, i + j + 1 as int));
                }
                j = j + 1;
            }
            i = i + n;
        } else {
            let adv = if n == 0 {
                1
            } else {
                1 + run
            };
            proof {
                assert(adv as int == advance_at(bytes@, i as int));
                assert(!complete_at(bytes@, i as int));
            }
            i = i + adv;
        }
    }
    proof {
        assert(filtered_from(bytes@, bytes@.len() as int) == Seq::<u8>::empty());
        assert(out@ + Seq::<u8>::empty() == out@);
    }
    out
}

} // verus!
