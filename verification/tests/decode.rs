//! Decode-pass behavior: line splitting, fragment stitching, CR handling,
//! and recovery from invalid byte sequences.

use line_ingest::bulk;
use line_ingest::stitch::Stitcher;
use line_ingest::utf8::filter_valid;

#[test]
fn raw_three_lines_in_order() {
    // input "abc\ndef\nghi": two lines finish during the pass, the third
    // only at stream end
    let mut st = Stitcher::new(b'\n');
    let lines = st.feed(b"abc\ndef\nghi");
    assert_eq!(lines, vec![b"abc".to_vec(), b"def".to_vec()]);
    assert!(st.has_pending());
    let last = st.finish();
    assert_eq!(last, Some(b"ghi".to_vec()));
    assert_eq!(st.finish(), None);
}

#[test]
fn line_split_across_reads_is_one_item() {
    // read 1 ends mid-line, read 2 completes it: exactly one "abc"
    let mut st = Stitcher::new(b'\n');
    let first = st.feed(b"ab");
    assert_eq!(first, Vec::<Vec<u8>>::new());
    let second = st.feed(b"c\nd");
    assert_eq!(second, vec![b"abc".to_vec()]);
    assert_eq!(st.finish(), Some(b"d".to_vec()));
}

#[test]
fn item_count_is_terminators_plus_one() {
    // two terminators, no trailing one: three items in all
    let mut st = Stitcher::new(b'\n');
    let mut all = st.feed(b"a\nb\nc");
    if let Some(last) = st.finish() {
        all.push(last);
    }
    assert_eq!(all.len(), 3);
    // rejoining with the terminator reconstructs the input
    let mut rejoined: Vec<u8> = Vec::new();
    for (i, line) in all.iter().enumerate() {
        if i > 0 {
            rejoined.push(b'\n');
        }
        bulk::concat(&mut rejoined, line.as_slice());
    }
    assert_eq!(rejoined, b"a\nb\nc".to_vec());
}

#[test]
fn crlf_and_lf_give_identical_items() {
    let mut st1 = Stitcher::new(b'\n');
    let with_cr = st1.feed(b"ab\r\ncd\n");
    let mut st2 = Stitcher::new(b'\n');
    let without_cr = st2.feed(b"ab\ncd\n");
    assert_eq!(with_cr, without_cr);
    assert_eq!(with_cr, vec![b"ab".to_vec(), b"cd".to_vec()]);
}

#[test]
fn bare_cr_stripped_at_flush() {
    let mut st = Stitcher::new(b'\n');
    assert_eq!(st.feed(b"ab\r"), Vec::<Vec<u8>>::new());
    assert_eq!(st.finish(), Some(b"ab".to_vec()));
}

#[test]
fn consecutive_terminators_keep_empty_item() {
    let mut st = Stitcher::new(b'\n');
    let lines = st.feed(b"a\n\nb\n");
    assert_eq!(lines, vec![b"a".to_vec(), b"".to_vec(), b"b".to_vec()]);
    assert_eq!(st.finish(), None);
}

#[test]
fn invalid_byte_dropped_line_joined() {
    // 0xFF can never appear in well-formed text: it is dropped and the
    // valid parts around it meet in one line
    let mut st = Stitcher::new(b'\n');
    let lines = st.feed(b"ab\xFFcd\n");
    assert_eq!(lines, vec![b"abcd".to_vec()]);
}

#[test]
fn broken_sequence_drops_lead_only() {
    // 0xC3 announces a continuation that never comes; only 0xC3 goes
    let mut st = Stitcher::new(b'\n');
    let lines = st.feed(b"a\xC3(z\n");
    assert_eq!(lines, vec![b"a(z".to_vec()]);
}

#[test]
fn truncated_sequence_at_end_dropped_whole() {
    // the buffer ends inside a three-byte sequence: the whole fragment of
    // it is dropped
    let mut st = Stitcher::new(b'\n');
    assert_eq!(st.feed(b"ab\xE2\x82"), Vec::<Vec<u8>>::new());
    assert_eq!(st.finish(), Some(b"ab".to_vec()));
}

#[test]
fn four_byte_sequence_kept() {
    let mut st = Stitcher::new(b'\n');
    let lines = st.feed(b"\xF0\x9F\x92\xA9\n");
    assert_eq!(lines, vec![b"\xF0\x9F\x92\xA9".to_vec()]);
}

#[test]
fn overlong_and_lone_continuation_dropped() {
    // 0xC0 0xAF is an overlong encoding; both bytes are ill-formed
    let mut st = Stitcher::new(b'\n');
    let lines = st.feed(b"\xC0\xAF\n");
    assert_eq!(lines, vec![b"".to_vec()]);
}

#[test]
fn surrogate_encoding_rejected() {
    // 0xED 0xA0 0x80 would encode a surrogate; every byte of it is dropped
    let mut st = Stitcher::new(b'\n');
    let lines = st.feed(b"\xED\xA0\x80x\n");
    assert_eq!(lines, vec![b"x".to_vec()]);
}

#[test]
fn filter_valid_passes_clean_text() {
    assert_eq!(filter_valid(b"plain ascii"), b"plain ascii".to_vec());
    assert_eq!(
        filter_valid("caf\u{e9} \u{2603}".as_bytes()),
        "caf\u{e9} \u{2603}".as_bytes().to_vec()
    );
    assert_eq!(filter_valid(b""), Vec::<u8>::new());
}

#[test]
fn nul_as_line_ending() {
    let mut st = Stitcher::new(0u8);
    assert_eq!(st.line_ending(), 0u8);
    let lines = st.feed(b"a\x00b\x00");
    assert_eq!(lines, vec![b"a".to_vec(), b"b".to_vec()]);
    assert_eq!(st.finish(), None);
}

#[test]
fn empty_input_gives_nothing() {
    let mut st = Stitcher::new(b'\n');
    assert_eq!(st.feed(b""), Vec::<Vec<u8>>::new());
    assert!(!st.has_pending());
    assert_eq!(st.finish(), None);
}

#[test]
fn concat_appends_in_order() {
    let mut v: Vec<u8> = vec![1, 2];
    bulk::concat(&mut v, &[3, 4, 5]);
    assert_eq!(v, vec![1, 2, 3, 4, 5]);
    bulk::concat(&mut v, &[]);
    assert_eq!(v, vec![1, 2, 3, 4, 5]);
}
