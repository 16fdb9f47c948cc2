//! Parsing of one block of text into a sonnet record.

use crate::number::{parse_number, parse_u8};
use crate::record::{sentinel, SonnetModel, SonnetRecord};
use crate::scan::{split_bounds, to_chars, trim_bounds};
use crate::text::{cut, split_on, trim, within};
use crate::text_lemmas::lemma_split_on_nonempty;
use vstd::prelude::*;
use vstd::slice::slice_subrange;
use vstd::string::StrSliceExecFns;

verus! {

/// The separator of the lines of a block: one newline character.
pub open spec fn line_separator() -> Seq<char> {
    seq!['\n']
}

/// The lines of a block. A block without a newline is its own single line.
pub open spec fn lines_of(block: Seq<char>) -> Seq<Seq<char>> {
    split_on(block, line_separator())
}

/// The header of a block: its first line without the white space around it.
pub open spec fn header_of(block: Seq<char>) -> Seq<char> {
    trim(lines_of(block).first())
}

/// The record of a block. Where the header denotes a number, that number and
/// the lines after the first, each as it stands; else the sentinel record.
pub open spec fn record_of(block: Seq<char>) -> SonnetModel {
    match parse_u8(header_of(block)) {
        Some(number) => SonnetModel { number, lines: lines_of(block).drop_first() },
        None => sentinel(),
    }
}

/// The header of a block if it denotes no number, for a diagnostic that names
/// it; nothing where the header denotes a number.
pub open spec fn rejected_header(block: Seq<char>) -> Option<Seq<char>> {
    match parse_u8(header_of(block)) {
        Some(_) => None,
        None => Some(header_of(block)),
    }
}

/// Parses one block and reports a header that denotes no number.
///
/// The first component is the record of the block. The second is the
/// rejected header if there is one: the caller owes a diagnostic for it.
pub fn examine_block(block: &str) -> (out: (SonnetRecord, Option<String>))
    ensures
        out.0@ == record_of(block@),
        out.1.deep_view() == rejected_header(block@),
{
    let chars = to_chars(block);
    let newline: Vec<char> = vec!['\n'];
    proof {
        assert(newline@ =~= line_separator());
        lemma_split_on_nonempty(chars@, newline@);
    }
    let pieces = split_bounds(chars.as_slice(), newline.as_slice());
    let ghost lines = lines_of(block@);
    assert(cut(chars@, pieces@) == lines);
    assert(pieces@.len() == lines.len());
    let first = pieces[0];
    assert(chars@.subrange(first.0 as int, first.1 as int) == lines[0]) by {
        assert(cut(chars@, pieces@)[0] == lines[0]);
    }
    let first_line = slice_subrange(chars.as_slice(), first.0, first.1);
    let bounds = trim_bounds(first_line);
    let header = slice_subrange(first_line, bounds.0, bounds.1);
    proof {
        assert(header@ == header_of(block@));
        assert(header@ =~= block@.subrange(first.0 + bounds.0, first.0 + bounds.1));
    }
    match parse_number(header) {
        None => {
            let text = block.substring_char(first.0 + bounds.0, first.0 + bounds.1).to_owned();
            (SonnetRecord::sentinel(), Some(text))
        },
        Some(number) => {
            let mut verses: Vec<String> = Vec::new();
            let mut k: usize = 1;
            while k < pieces.len()
                invariant
                    1 <= k <= pieces.len(),
                    chars@ == block@,
                    within(pieces@, chars@.len()),
                    cut(chars@, pieces@) == lines,
                    verses@.len() == k - 1,
                    forall|j: int|
                        0 <= j < verses@.len() ==> (#[trigger] verses@[j])@ == lines[j + 1],
                decreases pieces.len() - k,
            {
                let piece = pieces[k];
                assert(chars@.subrange(piece.0 as int, piece.1 as int) == lines[k as int]) by {
                    assert(cut(chars@, pieces@)[k as int] == lines[k as int]);
                }
                verses.push(block.substring_char(piece.0, piece.1).to_owned());
                k += 1;
            }
            let record = SonnetRecord { number, lines: verses };
            proof {
                assert(record.lines.deep_view() =~= lines.drop_first());
            }
            (record, None)
        },
    }
}

/// Parses one block into its record.
pub fn parse_block(block: &str) -> (record: SonnetRecord)
    ensures
        record@ == record_of(block@),
{
    examine_block(block).0
}

} // verus!
