//! The guarantees the decoder gives for every input, stated over the decode
//! model (`pass_lines` / `pass_rest`) that the stitcher's contracts use, and
//! proved once and for all.

use vstd::prelude::*;
use crate::lines::{
    count_byte, split_on, join_with, strip_cr, pass_lines, pass_rest, lemma_split_len,
    lemma_split_absent, lemma_split_first, lemma_join_split, lemma_last_piece_nonempty,
    lemma_pass_concat, CR,
};
use crate::utf8::{filtered, text_clean};

verus! {

/// For well-formed input the filter is the identity, so every law below
/// stated over text applies unchanged to a pass over the raw buffer.
pub proof fn law_clean_input_unchanged(s: Seq<u8>)
    requires
        text_clean(s),
    ensures
        filtered(s) == s,
{
}

/// For text with N terminator bytes and no trailing one, a pass from an
/// empty fragment emits exactly N finished lines and leaves a non-empty
/// fragment behind, so the end-of-stream flush makes item N + 1: no empty
/// line is skipped and no extra item is invented.
pub proof fn law_item_count(t: Seq<u8>, eol: u8)
    requires
        t.len() > 0,
        t.last() != eol,
    ensures
        pass_lines(Seq::empty(), t, eol).len() == count_byte(t, eol),
        pass_rest(Seq::empty(), t, eol).len() > 0,
{
    assert(Seq::<u8>::empty() + t =~= t);
    lemma_split_len(t, eol);
    lemma_last_piece_nonempty(t, eol);
}

/// For CR-free text with no trailing terminator, the emitted items followed
/// by the flushed fragment, rejoined with the terminator, give back the
/// input byte for byte.
pub proof fn law_reconstruct(t: Seq<u8>, eol: u8)
    requires
        !t.contains(CR),
        t.len() > 0,
        t.last() != eol,
    ensures
        join_with(
            pass_lines(Seq::empty(), t, eol).push(strip_cr(pass_rest(Seq::empty(), t, eol))),
            eol,
        ) == t,
{
    assert(Seq::<u8>::empty() + t =~= t);
    lemma_join_split(t, eol);
    lemma_split_len(t, eol);
    lemma_split_absent(t, eol, CR);
    let pieces = split_on(t, eol);
    assert forall|i: int| 0 <= i < pieces.len() implies strip_cr(#[trigger] pieces[i])
        == pieces[i] by {
        assert(!pieces[i].contains(CR));
        if pieces[i].len() > 0 && pieces[i].last() == CR {
            assert(pieces[i][pieces[i].len() - 1] == CR);
            assert(pieces[i].contains(CR));
        }
    }
    assert(pass_lines(Seq::empty(), t, eol).push(
        strip_cr(pass_rest(Seq::empty(), t, eol)),
    ) =~~= pieces);
}

/// A pass keeps every well-formed byte and loses exactly the ill-formed
/// sequences: the pieces of a pass over a raw buffer rejoin to the filtered
/// buffer, so the valid portions reach the items byte for byte.
pub proof fn law_invalid_dropped(s: Seq<u8>, eol: u8)
    ensures
        join_with(split_on(filtered(s), eol), eol) == filtered(s),
{
    lemma_join_split(filtered(s), eol);
}

/// A logical line split across reads is emitted once, whole: feeding text in
/// two pieces produces the same finished lines, in the same order, and the
/// same leftover fragment as feeding the concatenation in one piece.
pub proof fn law_split_reads(p: Seq<u8>, t1: Seq<u8>, t2: Seq<u8>, eol: u8)
    requires
        !p.contains(eol),
    ensures
        pass_lines(p, t1 + t2, eol) == pass_lines(p, t1, eol) + pass_lines(
            pass_rest(p, t1, eol),
            t2,
            eol,
        ),
        pass_rest(p, t1 + t2, eol) == pass_rest(pass_rest(p, t1, eol), t2, eol),
{
    lemma_pass_concat(p, t1, t2, eol);
}

/// A line ended by CR plus the terminator and the same line ended by the
/// bare terminator produce identical item text, and identical state for the
/// rest of the stream.
pub proof fn law_crlf(l: Seq<u8>, t: Seq<u8>, eol: u8)
    requires
        !l.contains(eol),
        eol != CR,
        l.len() == 0 || l.last() != CR,
    ensures
        pass_lines(Seq::empty(), l + seq![CR, eol] + t, eol) == pass_lines(
            Seq::empty(),
            l + seq![eol] + t,
            eol,
        ),
        pass_rest(Seq::empty(), l + seq![CR, eol] + t, eol) == pass_rest(
            Seq::empty(),
            l + seq![eol] + t,
            eol,
        ),
{
    let lcr = l.push(CR);
    assert(!lcr.contains(eol)) by {
        assert(forall|i: int| 0 <= i < lcr.len() && #[trigger] lcr[i] == eol
            ==> (i < l.len() && l.contains(eol)) || lcr[l.len() as int] == eol);
    }
    assert(Seq::<u8>::empty() + (l + seq![CR, eol] + t) =~= lcr + seq![eol] + t);
    assert(Seq::<u8>::empty() + (l + seq![eol] + t) =~= l + seq![eol] + t);
    lemma_split_first(lcr, t, eol);
    lemma_split_first(l, t, eol);
    lemma_split_len(t, eol);
    let pt = split_on(t, eol);
    assert(strip_cr(lcr) == l) by {
        assert(lcr.last() == CR);
        assert(lcr.drop_last() =~= l);
    }
    assert((seq![lcr] + pt).drop_last() =~= seq![lcr] + pt.drop_last());
    assert((seq![l] + pt).drop_last() =~= seq![l] + pt.drop_last());
    assert(pass_lines(Seq::empty(), l + seq![CR, eol] + t, eol) =~~= pass_lines(
        Seq::empty(),
        l + seq![eol] + t,
        eol,
    ));
    assert((seq![lcr] + pt).last() == (seq![l] + pt).last());
}

/// Two consecutive terminators yield an empty item in its place in the
/// stream, never a skipped one.
pub proof fn law_empty_line(a: Seq<u8>, t: Seq<u8>, eol: u8)
    requires
        !a.contains(eol),
        a.len() == 0 || a.last() != CR,
    ensures
        pass_lines(Seq::empty(), a + seq![eol, eol] + t, eol) == seq![a, Seq::<u8>::empty()]
            + pass_lines(Seq::empty(), t, eol),
        pass_rest(Seq::empty(), a + seq![eol, eol] + t, eol) == pass_rest(Seq::empty(), t, eol),
{
    assert(Seq::<u8>::empty() + (a + seq![eol, eol] + t) =~= a + seq![eol] + (seq![eol] + t));
    lemma_split_first(a, seq![eol] + t, eol);
    assert(seq![eol] + t =~= Seq::<u8>::empty() + seq![eol] + t);
    lemma_split_first(Seq::empty(), t, eol);
    lemma_split_len(t, eol);
    let pt = split_on(t, eol);
    assert(split_on(a + seq![eol] + (seq![eol] + t), eol) == seq![a] + (seq![Seq::<u8>::empty()]
        + pt));
    assert(Seq::<u8>::empty() + t =~= t);
    assert(strip_cr(a) == a);
    assert(strip_cr(Seq::<u8>::empty()) == Seq::<u8>::empty());
    let comb = seq![a] + (seq![Seq::<u8>::empty()] + pt);
    assert(comb.drop_last() =~= seq![a, Seq::<u8>::empty()] + pt.drop_last());
    assert(pass_lines(Seq::empty(), a + seq![eol, eol] + t, eol) =~~= seq![a, Seq::<u8>::empty()]
        + pass_lines(Seq::empty(), t, eol));
    assert(comb.last() == pt.last());
}

} // verus!
