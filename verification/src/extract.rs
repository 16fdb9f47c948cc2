//! Extraction of the raw sonnet blocks from the full text of a document.

use crate::scan::{find, split_bounds, to_chars, trim_bounds};
use crate::text::{after_first, before_first, cut, occurs, split_on, trim, within};
use crate::text_lemmas::lemma_split_on_nonempty;
use vstd::prelude::*;
use vstd::slice::slice_subrange;
use vstd::string::StrSliceExecFns;

verus! {

/// The header that stands directly before the first sonnet.
pub const START_MARKER: &'static str = "THE SONNETS\n\nby William Shakespeare\n\n\n\n";

/// The text that follows the last sonnet.
pub const END_MARKER: &'static str = "THE END";

/// The blank line that separates one block from the next.
pub const BLOCK_SEPARATOR: &'static str = "\n\n";

/// Why no blocks could be extracted from a document.
#[derive(Debug, Clone, Copy, PartialEq, Eq)]
pub enum ExtractError {
    /// The start marker does not occur in the document.
    MissingStartMarker,
    /// The end marker does not occur after the first start marker.
    MissingEndMarker,
}

/// The part of the document that holds the sonnets: what stands after the
/// first start marker and before the first end marker that follows it.
pub open spec fn sonnet_region(document: Seq<char>) -> Result<Seq<char>, ExtractError> {
    if !occurs(document, START_MARKER@) {
        Err(ExtractError::MissingStartMarker)
    } else if !occurs(after_first(document, START_MARKER@), END_MARKER@) {
        Err(ExtractError::MissingEndMarker)
    } else {
        Ok(before_first(after_first(document, START_MARKER@), END_MARKER@))
    }
}

/// The segments of the region that blank lines separate.
pub open spec fn segments_of(region: Seq<char>) -> Seq<Seq<char>> {
    split_on(region, BLOCK_SEPARATOR@)
}

/// The blocks of the region: every segment but the last, each without the
/// white space around it.
pub open spec fn blocks_of(region: Seq<char>) -> Seq<Seq<char>> {
    segments_of(region).drop_last().map_values(|segment: Seq<char>| trim(segment))
}

/// The blocks of a document, or why it has none.
pub open spec fn blocks_in(document: Seq<char>) -> Result<Seq<Seq<char>>, ExtractError> {
    match sonnet_region(document) {
        Ok(region) => Ok(blocks_of(region)),
        Err(error) => Err(error),
    }
}

/// Extracts the raw blocks of the sonnets from the full text of a document,
/// in the order of the document.
pub fn extract_blocks(document: &str) -> (result: Result<Vec<String>, ExtractError>)
    ensures
        match result {
            Ok(blocks) => blocks_in(document@) == Ok::<Seq<Seq<char>>, ExtractError>(
                blocks.deep_view(),
            ),
            Err(error) => blocks_in(document@) == Err::<Seq<Seq<char>>, ExtractError>(error),
        },
{
    let chars = to_chars(document);
    let total: usize = chars.len();
    let start = to_chars(START_MARKER);
    let from: usize = match find(chars.as_slice(), start.as_slice()) {
        Some(i) => i + start.len(),
        None => {
            return Err(ExtractError::MissingStartMarker);
        },
    };
    let rest = slice_subrange(chars.as_slice(), from, total);
    let end = to_chars(END_MARKER);
    let until: usize = match find(rest, end.as_slice()) {
        Some(j) => j,
        None => {
            return Err(ExtractError::MissingEndMarker);
        },
    };
    let region_text = document.substring_char(from, from + until);
    let region = slice_subrange(rest, 0, until);
    let separator = to_chars(BLOCK_SEPARATOR);
    let pieces = split_bounds(region, separator.as_slice());
    let ghost segments = segments_of(region@);
    proof {
        lemma_split_on_nonempty(region@, separator@);
    }
    let mut blocks: Vec<String> = Vec::new();
    let mut k: usize = 0;
    while k + 1 < pieces.len()
        invariant
            k + 1 <= pieces.len(),
            region_text@ == region@,
            within(pieces@, region@.len()),
            cut(region@, pieces@) == segments,
            blocks@.len() == k,
            forall|j: int| 0 <= j < blocks@.len() ==> (#[trigger] blocks@[j])@ == trim(segments[j]),
        decreases pieces.len() - k,
    {
        let piece = pieces[k];
        assert(region@.subrange(piece.0 as int, piece.1 as int) == segments[k as int]) by {
            assert(cut(region@, pieces@)[k as int] == segments[k as int]);
        }
        let segment = slice_subrange(region, piece.0, piece.1);
        let bounds = trim_bounds(segment);
        proof {
            assert(segment@.subrange(bounds.0 as int, bounds.1 as int) =~= region@.subrange(
                piece.0 + bounds.0,
                piece.0 + bounds.1,
            ));
        }
        blocks.push(region_text.substring_char(piece.0 + bounds.0, piece.0 + bounds.1).to_owned());
        k += 1;
    }
    proof {
        assert(blocks.deep_view() =~= blocks_of(region@));
    }
    Ok(blocks)
}

} // verus!
