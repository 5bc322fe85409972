//! Line decoding: a byte stream is cut at a configurable terminator byte into
//! logical lines, with a fragment stitcher carrying the unterminated tail of
//! one pass over to the next. A finished line ending in a carriage return has
//! that byte stripped, so terminator-plus-CR and the bare terminator name the
//! same line.

use vstd::prelude::*;
use crate::utf8::filtered;

verus! {

/// Carriage return.
pub const CR: u8 = 13;

/// How many times byte `b` occurs in `s`.
pub open spec fn count_byte(s: Seq<u8>, b: u8) -> int
    decreases s.len(),
{
    if s.len() == 0 {
        0
    } else {
        (if s[0] == b {
            1int
        } else {
            0int
        }) + count_byte(s.drop_first(), b)
    }
}

/// The pieces of `s` between occurrences of `b`: always one more piece than
/// occurrences, and no piece contains `b`.
pub open spec fn split_on(s: Seq<u8>, b: u8) -> Seq<Seq<u8>>
    decreases s.len(),
{
    if s.len() == 0 {
        seq![Seq::empty()]
    } else if s[0] == b {
        seq![Seq::empty()] + split_on(s.drop_first(), b)
    } else {
        let r = split_on(s.drop_first(), b);
        seq![seq![s[0]] + r[0]] + r.drop_first()
    }
}

/// The pieces rejoined with `b` between them: the inverse of `split_on`.
pub open spec fn join_with(ps: Seq<Seq<u8>>, b: u8) -> Seq<u8>
    decreases ps.len(),
{
    if ps.len() == 0 {
        Seq::empty()
    } else if ps.len() == 1 {
        ps[0]
    } else {
        ps[0] + seq![b] + join_with(ps.drop_first(), b)
    }
}

/// A finished line with one trailing carriage return, if any, removed.
pub open spec fn strip_cr(s: Seq<u8>) -> Seq<u8> {
    if s.len() > 0 && s.last() == CR {
        s.drop_last()
    } else {
        s
    }
}

/// All pieces of one decode pass: the carried fragment followed by the new
/// text, cut at the terminator.
pub open spec fn pass_pieces(pending: Seq<u8>, t: Seq<u8>, eol: u8) -> Seq<Seq<u8>> {
    split_on(pending + t, eol)
}

/// The finished lines of one decode pass, each with a trailing CR stripped.
pub open spec fn pass_lines(pending: Seq<u8>, t: Seq<u8>, eol: u8) -> Seq<Seq<u8>> {
    pass_pieces(pending, t, eol).drop_last().map_values(|p: Seq<u8>| strip_cr(p))
}

/// The fragment a decode pass leaves behind: the text after the last
/// terminator, not yet a finished line.
pub open spec fn pass_rest(pending: Seq<u8>, t: Seq<u8>, eol: u8) -> Seq<u8> {
    pass_pieces(pending, t, eol).last()
}

/// Splitting yields exactly one piece per terminator, plus one.
pub proof fn lemma_split_len(s: Seq<u8>, b: u8)
    ensures
        split_on(s, b).len() == count_byte(s, b) + 1,
    decreases s.len(),
{
    if s.len() > 0 {
        lemma_split_len(s.drop_first(), b);
    }
}

/// A byte absent from the input is absent from every piece; with `x == b`
/// this says no piece contains the separator.
pub proof fn lemma_split_absent(s: Seq<u8>, b: u8, x: u8)
    requires
        x == b || !s.contains(x),
    ensures
        forall|i: int| 0 <= i < split_on(s, b).len() ==> !(#[trigger] split_on(s, b)[i]).contains(x),
    decreases s.len(),
{
    if s.len() == 0 {
        assert(split_on(s, b) == seq![Seq::<u8>::empty()]);
        assert(!Seq::<u8>::empty().contains(x));
    } else {
        assert(forall|i: int| 0 <= i < s.drop_first().len() && s.drop_first()[i] == x
            ==> s[i + 1] == x && s.contains(x));
        lemma_split_absent(s.drop_first(), b, x);
        let r = split_on(s.drop_first(), b);
        if s[0] == b {
            assert(forall|i: int| 1 <= i < split_on(s, b).len()
                ==> split_on(s, b)[i] == r[i - 1]);
        } else {
            assert(s[0] != x) by {
                if s[0] == x {
                    assert(s.contains(x));
                }
            }
            lemma_split_len(s.drop_first(), b);
            let head = seq![s[0]] + r[0];
            assert(!head.contains(x)) by {
                assert(forall|j: int| 1 <= j < head.len() ==> head[j] == r[0][j - 1]);
                assert(!r[0].contains(x));
                assert(forall|j: int| 0 <= j < head.len() ==> head[j] != x);
            }
            assert(forall|i: int| 1 <= i < split_on(s, b).len()
                ==> split_on(s, b)[i] == r[i]);
        }
    }
}

/// A text without the separator is one single piece.
pub proof fn lemma_split_whole(s: Seq<u8>, b: u8)
    requires
        !s.contains(b),
    ensures
        split_on(s, b) == seq![s],
    decreases s.len(),
{
    if s.len() == 0 {
        assert(split_on(s, b) =~~= seq![s]);
    } else {
        assert(s[0] != b) by {
            if s[0] == b {
                assert(s.contains(b));
            }
        }
        assert(!s.drop_first().contains(b)) by {
            assert(forall|i: int| 0 <= i < s.drop_first().len() && s.drop_first()[i] == b
                ==> s[i + 1] == b && s.contains(b));
        }
        lemma_split_whole(s.drop_first(), b);
        assert(seq![s[0]] + s.drop_first() =~= s);
        assert(split_on(s, b) =~= seq![s]);
    }
}

/// The first terminator closes the leading separator-free text as one piece.
pub proof fn lemma_split_first(a: Seq<u8>, rest: Seq<u8>, b: u8)
    requires
        !a.contains(b),
    ensures
        split_on(a + seq![b] + rest, b) == seq![a] + split_on(rest, b),
    decreases a.len(),
{
    let s = a + seq![b] + rest;
    if a.len() == 0 {
        assert(s[0] == b);
        assert(s.drop_first() =~= rest);
        assert(split_on(s, b) =~~= seq![a] + split_on(rest, b));
    } else {
        assert(s[0] == a[0]);
        assert(a[0] != b) by {
            if a[0] == b {
                assert(a.contains(b));
            }
        }
        assert(!a.drop_first().contains(b)) by {
            assert(forall|i: int| 0 <= i < a.drop_first().len() && a.drop_first()[i] == b
                ==> a[i + 1] == b && a.contains(b));
        }
        lemma_split_first(a.drop_first(), rest, b);
        assert(s.drop_first() =~= a.drop_first() + seq![b] + rest);
        let r = split_on(s.drop_first(), b);
        assert(r == seq![a.drop_first()] + split_on(rest, b));
        assert(r[0] == a.drop_first());
        assert(seq![s[0]] + r[0] =~= a);
        assert(r.drop_first() =~= split_on(rest, b));
        assert(split_on(s, b) =~= seq![a] + split_on(rest, b));
    }
}

/// Rejoining the pieces with the separator restores the input.
pub proof fn lemma_join_split(s: Seq<u8>, b: u8)
    ensures
        join_with(split_on(s, b), b) == s,
    decreases s.len(),
{
    if s.len() == 0 {
    } else if s[0] == b {
        lemma_join_split(s.drop_first(), b);
        let ps = split_on(s, b);
        let r = split_on(s.drop_first(), b);
        lemma_split_len(s.drop_first(), b);
        assert(ps.drop_first() =~= r);
        assert(join_with(ps, b) =~= s);
    } else {
        lemma_join_split(s.drop_first(), b);
        let r = split_on(s.drop_first(), b);
        lemma_split_len(s.drop_first(), b);
        let ps = split_on(s, b);
        if r.len() == 1 {
            assert(join_with(r, b) == r[0]);
            assert(ps =~= seq![seq![s[0]] + r[0]]);
            assert(join_with(ps, b) =~= s);
        } else {
            assert(ps.drop_first() =~= r.drop_first());
            assert(join_with(ps, b) == ps[0] + seq![b] + join_with(r.drop_first(), b));
            assert(join_with(r, b) == r[0] + seq![b] + join_with(r.drop_first(), b));
            assert(join_with(ps, b) =~= seq![s[0]] + join_with(r, b));
            assert(seq![s[0]] + s.drop_first() =~= s);
        }
    }
}

/// When the input does not end with the separator, the trailing piece is
/// non-empty.
pub proof fn lemma_last_piece_nonempty(s: Seq<u8>, b: u8)
    requires
        s.len() > 0,
        s.last() != b,
    ensures
        split_on(s, b).last().len() > 0,
    decreases s.len(),
{
    let r = split_on(s.drop_first(), b);
    lemma_split_len(s.drop_first(), b);
    if s.len() == 1 {
        assert(s[0] != b);
        assert(split_on(s, b).last() == seq![s[0]] + r[0]);
    } else {
        lemma_last_piece_nonempty(s.drop_first(), b);
        if s[0] == b {
            assert(split_on(s, b).last() == r.last());
        } else {
            if r.len() == 1 {
                assert(split_on(s, b) =~= seq![seq![s[0]] + r[0]]);
                assert(split_on(s, b).last() == seq![s[0]] + r[0]);
            } else {
                assert(split_on(s, b).last() == r.drop_first().last());
                assert(r.drop_first().last() == r.last());
            }
        }
    }
}

/// Feeding a stream in two pieces equals feeding it in one: the finished
/// lines concatenate and the leftover fragment is the same.
pub proof fn lemma_pass_concat(p: Seq<u8>, t1: Seq<u8>, t2: Seq<u8>, eol: u8)
    requires
        !p.contains(eol),
    ensures
        pass_lines(p, t1 + t2, eol) == pass_lines(p, t1, eol) + pass_lines(
            pass_rest(p, t1, eol),
            t2,
            eol,
        ),
        pass_rest(p, t1 + t2, eol) == pass_rest(pass_rest(p, t1, eol), t2, eol),
    decreases t1.len(),
{
    if t1.len() == 0 {
        lemma_split_whole(p, eol);
        assert(p + t1 =~= p);
        assert(split_on(p + t1, eol) == seq![p]);
        assert(pass_rest(p, t1, eol) == p);
        assert(pass_lines(p, t1, eol) =~= Seq::<Seq<u8>>::empty());
        assert(t1 + t2 =~= t2);
    } else if t1[0] == eol {
        // the pending fragment is closed as one piece in both accounts
        let rest1 = t1.drop_first();
        assert(p + t1 =~= p + seq![eol] + rest1);
        assert(p + (t1 + t2) =~= p + seq![eol] + (rest1 + t2));
        lemma_split_first(p, rest1, eol);
        lemma_split_first(p, rest1 + t2, eol);
        lemma_pass_concat(Seq::empty(), rest1, t2, eol);
        lemma_split_len(rest1, eol);
        lemma_split_len(rest1 + t2, eol);
        assert(Seq::<u8>::empty() + rest1 =~= rest1);
        assert(Seq::<u8>::empty() + (rest1 + t2) =~= rest1 + t2);
        // pieces of the combined pass
        let pcomb = split_on(p + (t1 + t2), eol);
        let prest = split_on(rest1 + t2, eol);
        assert(pcomb == seq![p] + prest);
        assert(pcomb.drop_last() =~= seq![p] + prest.drop_last());
        assert(pcomb.drop_last().map_values(|q: Seq<u8>| strip_cr(q)) =~= seq![strip_cr(p)]
            + prest.drop_last().map_values(|q: Seq<u8>| strip_cr(q)));
        assert(pcomb.last() == prest.last());
        // pieces of the first pass alone
        let p1 = split_on(p + t1, eol);
        let pr1 = split_on(rest1, eol);
        assert(p1 == seq![p] + pr1);
        assert(p1.drop_last() =~= seq![p] + pr1.drop_last());
        assert(p1.drop_last().map_values(|q: Seq<u8>| strip_cr(q)) =~= seq![strip_cr(p)]
            + pr1.drop_last().map_values(|q: Seq<u8>| strip_cr(q)));
        assert(p1.last() == pr1.last());
        assert(pass_lines(p, t1 + t2, eol) =~= pass_lines(p, t1, eol) + pass_lines(
            pass_rest(p, t1, eol),
            t2,
            eol,
        ));
    } else {
        // the first byte just extends the pending fragment
        let p2 = p.push(t1[0]);
        assert(!p2.contains(eol)) by {
            assert(forall|i: int| 0 <= i < p2.len() && #[trigger] p2[i] == eol
                ==> (i < p.len() && p.contains(eol)) || p2[p.len() as int] == eol);
        }
        lemma_pass_concat(p2, t1.drop_first(), t2, eol);
        assert(p + t1 =~= p2 + t1.drop_first());
        assert(p + (t1 + t2) =~= p2 + (t1.drop_first() + t2));
    }
}

} // verus!
