//! The fragment stitcher: carries at most one unterminated line prefix across
//! decode passes, emits finished lines in order, and flushes the leftover
//! fragment as one final line at end of stream.

use vstd::prelude::*;
use crate::lines::{
    split_on, strip_cr, pass_lines, pass_rest, lemma_split_first, lemma_split_whole, CR,
};
use crate::utf8::{filtered, filter_valid};

verus! {

/// The mathematical state of a stitcher: the configured terminator byte and
/// the carried fragment.
pub ghost struct StitcherModel {
    pub eol: u8,
    pub pending: Seq<u8>,
}

/// Holds at most one pending partial line between decode passes.
pub struct Stitcher {
    eol: u8,
    pending: Vec<u8>,
}

impl View for Stitcher {
    type V = StitcherModel;

    closed spec fn view(&self) -> StitcherModel {
        StitcherModel { eol: self.eol, pending: self.pending@ }
    }
}

/// Removes one trailing carriage return, if present, from a finished line.
fn strip_cr_line(line: Vec<u8>) -> (r: Vec<u8>)
    ensures
        r@ == strip_cr(line@),
{
    let mut line = line;
    if line.len() > 0 && line[line.len() - 1] == CR {
        line.pop();
    }
    line
}

impl Stitcher {
    /// The carried fragment never contains the terminator byte.
    pub open spec fn wf(&self) -> bool {
        !self@.pending.contains(self@.eol)
    }

    /// A fresh stitcher for the given terminator byte, with nothing pending.
    pub fn new(eol: u8) -> (s: Self)
        ensures
            s.wf(),
            s@.eol == eol,
            s@.pending == Seq::<u8>::empty(),
    {
        Stitcher { eol, pending: Vec::new() }
    }

    /// The configured terminator byte.
    pub fn line_ending(&self) -> (b: u8)
        ensures
            b == self@.eol,
    {
        self.eol
    }

    /// Whether a partial line is waiting for its remainder.
    pub fn has_pending(&self) -> (b: bool)
        ensures
            b == (self@.pending.len() > 0),
    {
        self.pending.len() > 0
    }

    /// One decode pass over already-validated text: emits the finished lines
    /// in order, each with a trailing CR stripped, and keeps the text after
    /// the last terminator as the new pending fragment.
    pub fn feed_text(&mut self, text: &[u8]) -> (lines: Vec<Vec<u8>>)
        requires
            old(self).wf(),
        ensures
            final(self).wf(),
            final(self)@.eol == old(self)@.eol,
            lines@.map_values(|l: Vec<u8>| l@) == pass_lines(
                old(self)@.pending,
                text@,
                old(self)@.eol,
            ),
            final(self)@.pending == pass_rest(old(self)@.pending, text@, old(self)@.eol),
    {
        let ghost p0 = self.pending@;
        let ghost eol = self.eol;
        let mut lines: Vec<Vec<u8>> = Vec::new();
        let ghost mut raw: Seq<Seq<u8>> = Seq::empty();
        let mut i: usize = 0;
        proof {
            assert(text@.skip(0) =~= text@);
            assert(Seq::<Seq<u8>>::empty() + split_on(p0 + text@, eol) =~= split_on(
                p0 + text@,
                eol,
            ));
        }
        while i < text.len()
            invariant
                i <= text.len(),
                self.eol == eol,
                !self.pending@.contains(eol),
                split_on(p0 + text@, eol) == raw + split_on(
                    self.pending@ + text@.skip(i as int),
                    eol,
                ),
                lines@.len() == raw.len(),
                forall|k: int| 0 <= k < raw.len() ==> (#[trigger] lines@[k])@ == strip_cr(raw[k]),
            decreases text.len() - i,
        {
            let ghost pend_before = self.pending@;
            let b = text[i];
            if b == self.eol {
                proof {
                    assert(pend_before + text@.skip(i as int) =~= pend_before + seq![eol]
                        + text@.skip(i + 1 as int));
                    lemma_split_first(pend_before, text@.skip(i + 1 as int), eol);
                }
                let mut done: Vec<u8> = Vec::new();
                core::mem::swap(&mut done, &mut self.pending);
                let done = strip_cr_line(done);
                lines.push(done);
                proof {
                    raw = raw + seq![pend_before];
                    assert(self.pending@ + text@.skip(i + 1 as int) =~= text@.skip(i + 1 as int));
                    assert(split_on(p0 + text@, eol) == raw + split_on(
                        self.pending@ + text@.skip(i + 1 as int),
                        eol,
                    ));
                }
                i = i + 1;
            } else {
                self.pending.push(b);
                proof {
                    assert(self.pending@ + text@.skip(i + 1 as int) =~= pend_before + text@.skip(
                        i as int,
                    ));
                    assert(!self.pending@.contains(eol)) by {
                        assert(forall|j: int|
                            0 <= j < self.pending@.len() && #[trigger] self.pending@[j] == eol
                                ==> (j < pend_before.len() && pend_before.contains(eol)) || (
                                self.pending@[pend_before.len() as int] == eol));
                    }
                }
                i = i + 1;
            }
        }
        proof {
            assert(text@.skip(text@.len() as int) =~= Seq::<u8>::empty());
            assert(self.pending@ + Seq::<u8>::empty() =~= self.pending@);
            lemma_split_whole(self.pending@, eol);
            let pieces = split_on(p0 + text@, eol);
            assert(pieces == raw + seq![self.pending@]);
            assert(pieces.drop_last() =~= raw);
            assert(lines@.map_values(|l: Vec<u8>| l@) =~~= pass_lines(p0, text@, eol));
            assert(pieces.last() == self.pending@);
        }
        lines
    }

    /// One decode pass over a raw buffer: ill-formed byte sequences are first
    /// discarded, then the remaining text is cut into lines.
    pub fn feed(&mut self, bytes: &[u8]) -> (lines: Vec<Vec<u8>>)
        requires
            old(self).wf(),
        ensures
            final(self).wf(),
            final(self)@.eol == old(self)@.eol,
            lines@.map_values(|l: Vec<u8>| l@) == pass_lines(
                old(self)@.pending,
                filtered(bytes@),
                old(self)@.eol,
            ),
            final(self)@.pending == pass_rest(
                old(self)@.pending,
                filtered(bytes@),
                old(self)@.eol,
            ),
    {
        let text = filter_valid(bytes);
        self.feed_text(text.as_slice())
    }

    /// End of stream: a non-empty pending fragment is flushed as one final
    /// line, trailing CR stripped, even though no terminator arrived.
    pub fn finish(&mut self) -> (last: Option<Vec<u8>>)
        requires
            old(self).wf(),
        ensures
            final(self).wf(),
            final(self)@.eol == old(self)@.eol,
            final(self)@.pending == Seq::<u8>::empty(),
            old(self)@.pending.len() == 0 ==> last is None,
            old(self)@.pending.len() > 0 ==> (last matches Some(l) && l@ == strip_cr(
                old(self)@.pending,
            )),
    {
        if self.pending.len() == 0 {
            None
        } else {
            let mut done: Vec<u8> = Vec::new();
            core::mem::swap(&mut done, &mut self.pending);
            Some(strip_cr_line(done))
        }
    }
}

} // verus!
