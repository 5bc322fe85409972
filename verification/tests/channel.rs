//! Publishing behavior: batches arrive in source order, a missing consumer
//! stops the cycle cleanly, and the loop state machine closes as specified.

use line_ingest::fields::{Delimiter, FieldRange};
use line_ingest::ingest::{
    LoopEvent, LoopState, build_batch, flush, next_state, process,
};
use line_ingest::item::{BuildOptions, SendRawOrBuild};
use line_ingest::stitch::Stitcher;

#[test]
fn batches_arrive_in_source_order() {
    let (tx, rx) = crossbeam_channel::unbounded();
    let mut st = Stitcher::new(b'\n');
    assert!(process(&mut st, b"a\nb\nc\n", &SendRawOrBuild::Raw, &tx).is_ok());
    assert!(process(&mut st, b"d\ne", &SendRawOrBuild::Raw, &tx).is_ok());
    assert!(flush(&mut st, &SendRawOrBuild::Raw, &tx).is_ok());
    drop(tx);
    let mut texts: Vec<Vec<u8>> = Vec::new();
    while let Ok(batch) = rx.recv() {
        for item in batch {
            texts.push(item.full_text().clone());
        }
    }
    assert_eq!(
        texts,
        vec![
            b"a".to_vec(),
            b"b".to_vec(),
            b"c".to_vec(),
            b"d".to_vec(),
            b"e".to_vec(),
        ]
    );
}

#[test]
fn disconnected_consumer_fails_publish() {
    let (tx, rx) = crossbeam_channel::unbounded();
    drop(rx);
    let mut st = Stitcher::new(b'\n');
    let r = process(&mut st, b"abc\n", &SendRawOrBuild::Raw, &tx);
    assert!(r.is_err());
}

#[test]
fn pass_without_lines_publishes_nothing() {
    // no receiver, but also nothing finished: the cycle still succeeds
    let (tx, rx) = crossbeam_channel::unbounded();
    drop(rx);
    let mut st = Stitcher::new(b'\n');
    assert!(process(&mut st, b"abc", &SendRawOrBuild::Raw, &tx).is_ok());
    // the fragment survived the failed-consumer cycle
    assert!(st.has_pending());
}

#[test]
fn flush_of_empty_fragment_publishes_nothing() {
    let (tx, rx) = crossbeam_channel::unbounded();
    drop(rx);
    let mut st = Stitcher::new(b'\n');
    assert!(flush(&mut st, &SendRawOrBuild::Raw, &tx).is_ok());
}

#[test]
fn flush_delivers_final_fragment() {
    let (tx, rx) = crossbeam_channel::unbounded();
    let mut st = Stitcher::new(b'\n');
    assert!(process(&mut st, b"tail", &SendRawOrBuild::Raw, &tx).is_ok());
    assert!(flush(&mut st, &SendRawOrBuild::Raw, &tx).is_ok());
    let batch = rx.recv().expect("one batch");
    assert_eq!(batch.len(), 1);
    assert_eq!(batch[0].full_text().as_slice(), b"tail");
}

#[test]
fn build_batch_keeps_order_and_count() {
    let lines = vec![b"one".to_vec(), b"two".to_vec()];
    let items = build_batch(lines, &SendRawOrBuild::Raw);
    assert_eq!(items.len(), 2);
    assert_eq!(items[0].full_text().as_slice(), b"one");
    assert_eq!(items[1].full_text().as_slice(), b"two");
}

#[test]
fn send_failure_closes_from_any_state() {
    assert_eq!(
        next_state(LoopState::Reading, LoopEvent::SendFailed),
        LoopState::Closed
    );
    assert_eq!(
        next_state(LoopState::Flushing, LoopEvent::SendFailed),
        LoopState::Closed
    );
    assert_eq!(
        next_state(LoopState::Closed, LoopEvent::SendFailed),
        LoopState::Closed
    );
}

#[test]
fn reading_transitions_follow_the_table() {
    assert_eq!(
        next_state(LoopState::Reading, LoopEvent::DataRead),
        LoopState::Reading
    );
    assert_eq!(
        next_state(LoopState::Reading, LoopEvent::Interrupted),
        LoopState::Reading
    );
    assert_eq!(
        next_state(LoopState::Reading, LoopEvent::SendOk),
        LoopState::Reading
    );
    assert_eq!(
        next_state(LoopState::Reading, LoopEvent::EmptyRead),
        LoopState::Flushing
    );
    assert_eq!(
        next_state(LoopState::Reading, LoopEvent::ReadFailed),
        LoopState::Flushing
    );
}

#[test]
fn flushing_and_closed_are_one_way() {
    assert_eq!(
        next_state(LoopState::Flushing, LoopEvent::SendOk),
        LoopState::Closed
    );
    assert_eq!(
        next_state(LoopState::Flushing, LoopEvent::EmptyRead),
        LoopState::Closed
    );
    assert_eq!(
        next_state(LoopState::Closed, LoopEvent::DataRead),
        LoopState::Closed
    );
    assert_eq!(
        next_state(LoopState::Closed, LoopEvent::Interrupted),
        LoopState::Closed
    );
}

#[test]
fn built_items_flow_through_channel() {
    let opts = SendRawOrBuild::Build(BuildOptions {
        ansi_enabled: false,
        trans_fields: vec![],
        matching_fields: vec![FieldRange::Single(1)],
        delimiter: Delimiter::new(",".to_string()).expect("pattern compiles"),
    });
    let (tx, rx) = crossbeam_channel::unbounded();
    let mut st = Stitcher::new(b'\n');
    assert!(process(&mut st, b"x,hit,y\n", &opts, &tx).is_ok());
    let batch = rx.recv().expect("one batch");
    assert_eq!(batch[0].match_text().as_slice(), b"hit");
    assert_eq!(batch[0].display_text().as_slice(), b"x,hit,y");
}
