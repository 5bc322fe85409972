//! Item construction: raw items, field selection by position and range,
//! delimiter behavior, and ANSI stripping on the matching side.

use line_ingest::fields::{Delimiter, FieldRange};
use line_ingest::item::{BuildOptions, Item, SendRawOrBuild, into_skim_item};

fn build_opts(
    pattern: &str,
    ansi_enabled: bool,
    trans: Vec<FieldRange>,
    matching: Vec<FieldRange>,
) -> SendRawOrBuild {
    SendRawOrBuild::Build(BuildOptions {
        ansi_enabled,
        trans_fields: trans,
        matching_fields: matching,
        delimiter: Delimiter::new(pattern.to_string()).expect("pattern compiles"),
    })
}

#[test]
fn built_matching_second_field() {
    // delimiter ",", matching on field 2 only: display is the whole line,
    // scoring text is just that field
    let opts = build_opts(",", false, vec![], vec![FieldRange::Single(1)]);
    let item = into_skim_item(b"x,SEARCHME,y".to_vec(), &opts);
    assert_eq!(item.display_text().as_slice(), b"x,SEARCHME,y");
    assert_eq!(item.match_text().as_slice(), b"SEARCHME");
    assert_eq!(item.full_text().as_slice(), b"x,SEARCHME,y");
}

#[test]
fn suffix_range_takes_tail_fields() {
    let opts = build_opts(",", false, vec![FieldRange::Suffix(1)], vec![]);
    let item = into_skim_item(b"a,b,c".to_vec(), &opts);
    assert_eq!(item.display_text().as_slice(), b"bc");
    assert_eq!(item.match_text().as_slice(), b"a,b,c");
}

#[test]
fn out_of_bounds_field_selects_nothing() {
    let opts = build_opts(",", false, vec![], vec![FieldRange::Single(5)]);
    let item = into_skim_item(b"a,b".to_vec(), &opts);
    assert_eq!(item.match_text().as_slice(), b"");
}

#[test]
fn unmatched_delimiter_leaves_whole_line_as_one_field() {
    let opts = build_opts(";", false, vec![], vec![FieldRange::Single(0)]);
    let item = into_skim_item(b"a,b".to_vec(), &opts);
    assert_eq!(item.match_text().as_slice(), b"a,b");
}

#[test]
fn regex_pattern_splits_on_whitespace_runs() {
    let opts = build_opts(r"\s+", false, vec![], vec![FieldRange::Single(2)]);
    let item = into_skim_item(b"a  b\tc".to_vec(), &opts);
    assert_eq!(item.match_text().as_slice(), b"c");
}

#[test]
fn ansi_stripped_for_matching_kept_for_display() {
    let opts = build_opts(",", true, vec![], vec![]);
    let line = b"\x1B[31mRED\x1B[0m".to_vec();
    let item = into_skim_item(line.clone(), &opts);
    assert_eq!(item.match_text().as_slice(), b"RED");
    assert_eq!(item.display_text(), &line);
    assert_eq!(item.full_text(), &line);
}

#[test]
fn unterminated_escape_dropped_to_end() {
    let opts = build_opts(",", true, vec![], vec![]);
    let item = into_skim_item(b"ok\x1B[12".to_vec(), &opts);
    assert_eq!(item.match_text().as_slice(), b"ok");
}

#[test]
fn lone_escape_byte_dropped_alone() {
    let opts = build_opts(",", true, vec![], vec![]);
    let item = into_skim_item(b"a\x1Bz".to_vec(), &opts);
    assert_eq!(item.match_text().as_slice(), b"az");
}

#[test]
fn ansi_disabled_keeps_escapes_in_matching() {
    let opts = build_opts(",", false, vec![], vec![]);
    let line = b"\x1B[31mRED\x1B[0m".to_vec();
    let item = into_skim_item(line.clone(), &opts);
    assert_eq!(item.match_text(), &line);
}

#[test]
fn raw_item_keeps_line_verbatim() {
    let item = into_skim_item(b"hello".to_vec(), &SendRawOrBuild::Raw);
    assert!(matches!(item, Item::Raw(_)));
    assert_eq!(item.full_text().as_slice(), b"hello");
    assert_eq!(item.display_text().as_slice(), b"hello");
    assert_eq!(item.match_text().as_slice(), b"hello");
}

#[test]
fn raw_empty_line_is_valid_item() {
    let item = into_skim_item(Vec::new(), &SendRawOrBuild::Raw);
    assert_eq!(item.full_text().as_slice(), b"");
}

#[test]
fn invalid_pattern_is_rejected() {
    assert!(Delimiter::new("(".to_string()).is_none());
    assert!(Delimiter::new(",".to_string()).is_some());
}

#[test]
fn mixed_selectors_concatenate_in_order() {
    let opts = build_opts(
        ",",
        false,
        vec![],
        vec![FieldRange::Single(2), FieldRange::Single(0)],
    );
    let item = into_skim_item(b"a,b,c".to_vec(), &opts);
    assert_eq!(item.match_text().as_slice(), b"ca");
}
