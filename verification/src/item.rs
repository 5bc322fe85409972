//! Item construction: one finished line becomes one searchable item under a
//! build mode fixed for the loop's lifetime. Raw mode keeps the line
//! verbatim; Built mode decomposes it into fields and derives a display
//! text and a matching text, stripping style escapes from the matching side
//! when asked to.

use vstd::prelude::*;
use crate::ansi::{ansi_stripped, strip_ansi};
use crate::fields::{Delimiter, FieldRange, fields_of, select_spec, select_text, split_with};

verus! {

/// What one item looks like to the contracts: the verbatim line text, the
/// text shown, and the text matched against.
pub ghost struct ItemView {
    pub text: Seq<u8>,
    pub display: Seq<u8>,
    pub matching: Seq<u8>,
}

/// Options for building field-aware items.
pub struct BuildOptions {
    /// Strip style escape sequences from the text used for matching, while
    /// the display text keeps them.
    pub ansi_enabled: bool,
    /// The fields shown; empty means the whole line.
    pub trans_fields: Vec<FieldRange>,
    /// The fields matched against; empty means the whole line.
    pub matching_fields: Vec<FieldRange>,
    /// The pattern that separates fields.
    pub delimiter: Delimiter,
}

/// The build mode fixed for a loop's lifetime: verbatim items, or items
/// carrying a field decomposition.
pub enum SendRawOrBuild {
    Raw,
    Build(BuildOptions),
}

/// One searchable item: a verbatim line, or a line together with its
/// precomputed display and matching texts. Immutable once constructed.
pub enum Item {
    Raw(Vec<u8>),
    Built { text: Vec<u8>, display: Vec<u8>, matching: Vec<u8> },
}

impl View for Item {
    type V = ItemView;

    open spec fn view(&self) -> ItemView {
        match self {
            Item::Raw(t) => ItemView { text: t@, display: t@, matching: t@ },
            Item::Built { text, display, matching } => ItemView {
                text: text@,
                display: display@,
                matching: matching@,
            },
        }
    }
}

impl Item {
    /// The verbatim line text.
    pub fn full_text(&self) -> (t: &Vec<u8>)
        ensures
            t@ == self@.text,
    {
        match self {
            Item::Raw(t) => t,
            Item::Built { text, .. } => text,
        }
    }

    /// The text shown for this item.
    pub fn display_text(&self) -> (t: &Vec<u8>)
        ensures
            t@ == self@.display,
    {
        match self {
            Item::Raw(t) => t,
            Item::Built { display, .. } => display,
        }
    }

    /// The text matching runs on.
    pub fn match_text(&self) -> (t: &Vec<u8>)
        ensures
            t@ == self@.matching,
    {
        match self {
            Item::Raw(t) => t,
            Item::Built { matching, .. } => matching,
        }
    }
}

/// The item a finished line builds under the given mode: Raw keeps the line
/// for all three texts; Built selects the display text from the line's
/// fields and the matching text from the fields of the line with style
/// escapes stripped when so configured.
pub open spec fn spec_item(line: Seq<u8>, opts: SendRawOrBuild) -> ItemView {
    match opts {
        SendRawOrBuild::Raw => ItemView { text: line, display: line, matching: line },
        SendRawOrBuild::Build(o) => {
            let msrc = if o.ansi_enabled {
                ansi_stripped(line)
            } else {
                line
            };
            ItemView {
                text: line,
                display: select_spec(
                    line,
                    fields_of(o.delimiter.pattern_view(), line),
                    o.trans_fields@,
                ),
                matching: select_spec(
                    msrc,
                    fields_of(o.delimiter.pattern_view(), msrc),
                    o.matching_fields@,
                ),
            }
        },
    }
}

/// Builds one searchable item from a finished line under the fixed mode.
/// Construction never fails; a delimiter that matches nowhere leaves the
/// whole line as one field.
pub fn into_skim_item(line: Vec<u8>, opts: &SendRawOrBuild) -> (item: Item)
    ensures
        item@ == spec_item(line@, *opts),
{
    match opts {
        SendRawOrBuild::Raw => Item::Raw(line),
        SendRawOrBuild::Build(o) => {
            let line_fields = split_with(&o.delimiter, line.as_slice());
            let display = select_text(&line, &line_fields, &o.trans_fields);
            let matching = if o.ansi_enabled {
                let msrc = strip_ansi(line.as_slice());
                let mfields = split_with(&o.delimiter, msrc.as_slice());
                select_text(&msrc, &mfields, &o.matching_fields)
            } else {
                select_text(&line, &line_fields, &o.matching_fields)
            };
            Item::Built { text: line, display, matching }
        },
    }
}

} // verus!
