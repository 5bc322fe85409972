//! The ingestion cycle: one decode pass turns a raw buffer into a batch of
//! items and publishes it; at end of stream the pending fragment is flushed
//! as one final item. The loop's phase logic is a small state machine: any
//! failed publish closes the loop at once, and a read failure other than an
//! interruption is treated as a clean end of stream.

use std::sync::Arc;

use vstd::prelude::*;
use crate::item::{Item, SendRawOrBuild, into_skim_item, spec_item};
use crate::lines::{pass_lines, pass_rest};
use crate::stitch::Stitcher;
use crate::utf8::filtered;

verus! {

/// Declares crossbeam_channel's sending half for use in signatures; its
/// value is opaque to verification.
#[verifier::external_type_specification]
#[verifier::external_body]
#[verifier::reject_recursive_types(T)]
pub struct ExSender<T>(crossbeam_channel::Sender<T>);

/// The error a publish reports when every consumer is gone. An expected
/// shutdown path, never surfaced further.
#[derive(Clone, Copy, Debug, PartialEq, Eq, Structural)]
pub struct ChannelClosed;

/// Relies on crossbeam_channel::Sender::send: blocks until the batch is
/// taken or every receiver has been dropped, and reports an error exactly
/// in the latter case. When it succeeds depends on the consumers, so
/// nothing is assumed about the outcome.
#[verifier::external_body]
pub(crate) fn send(vec: Vec<Arc<Item>>, tx_item: &crossbeam_channel::Sender<Vec<Arc<Item>>>) -> (r: Result<
    (),
    ChannelClosed,
>) {
    match tx_item.send(vec) {
        Ok(()) => Ok(()),
        Err(_) => Err(ChannelClosed),
    }
}

/// The phases of one ingestion loop: reading is initial, flushing emits the
/// pending fragment, closed is terminal.
#[derive(Clone, Copy, Debug, PartialEq, Eq, Structural)]
pub enum LoopState {
    Reading,
    Flushing,
    Closed,
}

/// What one loop cycle observed.
#[derive(Clone, Copy, Debug, PartialEq, Eq, Structural)]
pub enum LoopEvent {
    /// The source handed over bytes and the cycle ran.
    DataRead,
    /// The source had nothing more to give.
    EmptyRead,
    /// A transient read failure: stay and retry.
    Interrupted,
    /// Any other read failure: a clean end of stream, results so far kept.
    ReadFailed,
    /// A publish went through.
    SendOk,
    /// A publish failed: every consumer is gone.
    SendFailed,
}

/// The loop's transition relation.
pub open spec fn spec_next_state(s: LoopState, e: LoopEvent) -> LoopState {
    match (s, e) {
        (LoopState::Closed, _) => LoopState::Closed,
        (_, LoopEvent::SendFailed) => LoopState::Closed,
        (LoopState::Reading, LoopEvent::DataRead) => LoopState::Reading,
        (LoopState::Reading, LoopEvent::SendOk) => LoopState::Reading,
        (LoopState::Reading, LoopEvent::Interrupted) => LoopState::Reading,
        (LoopState::Reading, LoopEvent::EmptyRead) => LoopState::Flushing,
        (LoopState::Reading, LoopEvent::ReadFailed) => LoopState::Flushing,
        (LoopState::Flushing, _) => LoopState::Closed,
    }
}

/// One step of the loop's state machine.
pub fn next_state(s: LoopState, e: LoopEvent) -> (r: LoopState)
    ensures
        r == spec_next_state(s, e),
{
    match (s, e) {
        (LoopState::Closed, _) => LoopState::Closed,
        (_, LoopEvent::SendFailed) => LoopState::Closed,
        (LoopState::Reading, LoopEvent::DataRead) => LoopState::Reading,
        (LoopState::Reading, LoopEvent::SendOk) => LoopState::Reading,
        (LoopState::Reading, LoopEvent::Interrupted) => LoopState::Reading,
        (LoopState::Reading, LoopEvent::EmptyRead) => LoopState::Flushing,
        (LoopState::Reading, LoopEvent::ReadFailed) => LoopState::Flushing,
        (LoopState::Flushing, _) => LoopState::Closed,
    }
}

/// A failed publish closes the loop from any phase: the loop ends within
/// the very cycle that observed the failure, raising nothing.
pub proof fn law_send_failure_closes(s: LoopState)
    ensures
        spec_next_state(s, LoopEvent::SendFailed) == LoopState::Closed,
{
}

/// A closed loop stays closed, whatever else happens.
pub proof fn law_closed_terminal(e: LoopEvent)
    ensures
        spec_next_state(LoopState::Closed, e) == LoopState::Closed,
{
}

/// Builds the batch of items for the finished lines of one decode pass, in
/// source order.
pub fn build_batch(lines: Vec<Vec<u8>>, opts: &SendRawOrBuild) -> (items: Vec<Arc<Item>>)
    ensures
        items@.len() == lines@.len(),
        forall|k: int|
            0 <= k < lines@.len() ==> (#[trigger] items@[k])@ == spec_item(lines@[k]@, *opts),
{
    let ghost all = lines@;
    let mut lines = lines;
    let mut items: Vec<Arc<Item>> = Vec::new();
    proof {
        assert(lines@ =~= all.skip(0));
    }
    while lines.len() > 0
        invariant
            items@.len() + lines@.len() == all.len(),
            lines@ =~= all.skip(items@.len() as int),
            forall|k: int|
                0 <= k < items@.len() ==> (#[trigger] items@[k])@ == spec_item(all[k]@, *opts),
        decreases lines@.len(),
    {
        let line = lines.remove(0);
        proof {
            assert(line == all[items@.len() as int]);
        }
        items.push(Arc::new(into_skim_item(line, opts)));
        proof {
            assert(lines@ =~= all.skip(items@.len() as int));
        }
    }
    items
}

/// One full cycle over a raw buffer: decode it, build the batch, publish
/// it. The stitcher advances whether or not the publish goes through, and
/// a pass that finishes no line publishes nothing.
pub fn process(
    st: &mut Stitcher,
    base: &[u8],
    opts: &SendRawOrBuild,
    tx_item: &crossbeam_channel::Sender<Vec<Arc<Item>>>,
) -> (r: Result<(), ChannelClosed>)
    requires
        old(st).wf(),
    ensures
        final(st).wf(),
        final(st)@.eol == old(st)@.eol,
        final(st)@.pending == pass_rest(old(st)@.pending, filtered(base@), old(st)@.eol),
        pass_lines(old(st)@.pending, filtered(base@), old(st)@.eol).len() == 0 ==> r is Ok,
{
    let lines = st.feed(base);
    if lines.len() == 0 {
        return Ok(());
    }
    let items = build_batch(lines, opts);
    send(items, tx_item)
}

/// End of stream: publishes the pending fragment, if any, as one final
/// item, emptying the stitcher either way.
pub fn flush(
    st: &mut Stitcher,
    opts: &SendRawOrBuild,
    tx_item: &crossbeam_channel::Sender<Vec<Arc<Item>>>,
) -> (r: Result<(), ChannelClosed>)
    requires
        old(st).wf(),
    ensures
        final(st).wf(),
        final(st)@.eol == old(st)@.eol,
        final(st)@.pending == Seq::<u8>::empty(),
        old(st)@.pending.len() == 0 ==> r is Ok,
{
    match st.finish() {
        None => Ok(()),
        Some(last) => {
            let item = into_skim_item(last, opts);
            let mut batch: Vec<Arc<Item>> = Vec::new();
            batch.push(Arc::new(item));
            send(batch, tx_item)
        },
    }
}

} // verus!
