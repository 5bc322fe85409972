//! Field decomposition: a line is split into fields by a delimiter pattern,
//! and a selection of fields by position or open-ended range yields the text
//! used for display or for matching.
//!
//! The split itself is done by the regex crate; what it returns for a given
//! pattern and line is named by `fields_of`, and everything after the split
//! is verified for every value the split could take.

use vstd::prelude::*;

verus! {

/// Declares the compiled byte-oriented pattern of the regex crate for use in
/// fields and signatures; its value is opaque to verification.
#[verifier::external_type_specification]
#[verifier::external_body]
pub struct ExRegex(regex::bytes::Regex);

/// Declares the regex crate's compilation error so that its constructor can
/// be called from verified code.
#[verifier::external_type_specification]
#[verifier::external_body]
pub struct ExRegexError(regex::Error);

/// Relies on regex::bytes::Regex::new: compiles a pattern, or reports why it
/// cannot; which patterns compile is the regex crate's business, so nothing
/// is assumed about the outcome.
pub assume_specification[ regex::bytes::Regex::new ](re: &str) -> (r: Result<
    regex::bytes::Regex,
    regex::Error,
>);

/// The fields that splitting `line` on the delimiter pattern `pattern`
/// yields: one piece per gap between matches, in order. Named rather than
/// spelled out; the split depends on the pattern and the line alone.
pub uninterp spec fn fields_of(pattern: Seq<char>, line: Seq<u8>) -> Seq<Seq<u8>>;

/// A delimiter: a compiled pattern together with the text it was compiled
/// from, which the contracts speak of.
pub struct Delimiter {
    re: regex::bytes::Regex,
    pattern: String,
}

impl Delimiter {
    /// The pattern text this delimiter was compiled from.
    pub closed spec fn pattern_view(&self) -> Seq<char> {
        self.pattern@
    }

    /// Compiles a delimiter pattern; None when the regex crate rejects it.
    pub fn new(pattern: String) -> (r: Option<Delimiter>)
        ensures
            r matches Some(d) ==> d.pattern_view() == pattern@,
    {
        match regex::bytes::Regex::new(pattern.as_str()) {
            Ok(re) => Some(Delimiter { re, pattern }),
            Err(_) => None,
        }
    }
}

/// Relies on regex::bytes::Regex::split: yields the substrings of `line`
/// between successive matches of the pattern, one more piece than there are
/// matches — in particular the whole line as the single piece when the
/// pattern matches nowhere.
#[verifier::external_body]
pub(crate) fn split_with(d: &Delimiter, line: &[u8]) -> (fields: Vec<Vec<u8>>)
    ensures
        fields@.map_values(|f: Vec<u8>| f@) == fields_of(d.pattern_view(), line@),
        fields@.len() >= 1,
{
    d.re.split(line).map(|piece| piece.to_vec()).collect()
}

/// A reference to one field or to an open-ended tail of fields, as the
/// caller's configuration names them; positions count from zero.
#[derive(Clone, Copy, Debug, PartialEq, Eq, Structural)]
pub enum FieldRange {
    /// The field at this position, or nothing when there is no such field.
    Single(usize),
    /// Every field from this position to the end of the line.
    Suffix(usize),
}

/// The fields from position `a` up to, excluding, position `b`, run
/// together.
pub open spec fn range_concat(fields: Seq<Seq<u8>>, a: int, b: int) -> Seq<u8>
    decreases b - a,
{
    if a < 0 || a >= b || b > fields.len() {
        Seq::empty()
    } else {
        range_concat(fields, a, b - 1) + fields[b - 1]
    }
}

/// The text one selector picks out of the fields.
pub open spec fn sel_one(fields: Seq<Seq<u8>>, r: FieldRange) -> Seq<u8> {
    match r {
        FieldRange::Single(i) => if (i as int) < fields.len() {
            fields[i as int]
        } else {
            Seq::empty()
        },
        FieldRange::Suffix(k) => range_concat(fields, k as int, fields.len() as int),
    }
}

/// What every selector picks, run together in selector order.
pub open spec fn ranges_concat(fields: Seq<Seq<u8>>, ranges: Seq<FieldRange>) -> Seq<u8>
    decreases ranges.len(),
{
    if ranges.len() == 0 {
        Seq::empty()
    } else {
        ranges_concat(fields, ranges.drop_last()) + sel_one(fields, ranges.last())
    }
}

/// The text a selection derives from a line: the line itself when no
/// selector is configured, else the selected fields run together.
pub open spec fn select_spec(line: Seq<u8>, fields: Seq<Seq<u8>>, ranges: Seq<FieldRange>) -> Seq<
    u8,
> {
    if ranges.len() == 0 {
        line
    } else {
        ranges_concat(fields, ranges)
    }
}

/// Derives the selected text from a line and its fields, as `select_spec`
/// describes.
pub fn select_text(line: &Vec<u8>, fields: &Vec<Vec<u8>>, ranges: &Vec<FieldRange>) -> (out: Vec<
    u8,
>)
    ensures
        out@ == select_spec(line@, fields@.map_values(|f: Vec<u8>| f@), ranges@),
{
    let ghost fv = fields@.map_values(|f: Vec<u8>| f@);
    let mut out: Vec<u8> = Vec::new();
    if ranges.len() == 0 {
        crate::bulk::concat(&mut out, line.as_slice());
        proof {
            assert(Seq::<u8>::empty() + line@ =~= line@);
        }
        return out;
    }
    let mut r: usize = 0;
    proof {
        assert(ranges@.take(0) =~= Seq::<FieldRange>::empty());
    }
    while r < ranges.len()
        invariant
            r <= ranges.len(),
            fv == fields@.map_values(|f: Vec<u8>| f@),
            out@ == ranges_concat(fv, ranges@.take(r as int)),
        decreases ranges.len() - r,
    {
        let ghost out_before = out@;
        match ranges[r] {
            FieldRange::Single(ix) => {
                if ix < fields.len() {
                    crate::bulk::concat(&mut out, fields[ix].as_slice());
                } else {
                    proof {
                        assert(out@ + Seq::<u8>::empty() =~= out@);
                    }
                }
            },
            FieldRange::Suffix(k) => {
                let mut j: usize = k;
                proof {
                    assert(out@ + range_concat(fv, k as int, j as int) =~= out@);
                }
                while j < fields.len()
                    invariant
                        fv == fields@.map_values(|f: Vec<u8>| f@),
                        k <= j,
                        j <= fields.len() || j == k,
                        out@ == out_before + range_concat(fv, k as int, j as int),
                    decreases fields.len() - j,
                {
                    crate::bulk::concat(&mut out, fields[j].as_slice());
                    proof {
                        assert(range_concat(fv, k as int, j + 1 as int) == range_concat(
                            fv,
                            k as int,
                            j as int,
                        ) + fv[j as int]);
                    }
                    j = j + 1;
                }
                proof {
                    if (k as int) > fv.len() {
                        assert(range_concat(fv, k as int, fv.len() as int) =~= Seq::<u8>::empty());
                        assert(out@ =~= out_before + range_concat(fv, k as int, fv.len() as int));
                    }
                }
            },
        }
        proof {
            assert(ranges@.take(r + 1 as int).drop_last() =~= ranges@.take(r as int));
            assert(ranges@.take(r + 1 as int).last() == ranges@[r as int]);
        }
        r = r + 1;
    }
    proof {
        assert(ranges@.take(ranges@.len() as int) =~= ranges@);
    }
    out
}

} // verus!
