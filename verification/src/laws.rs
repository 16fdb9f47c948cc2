//! What holds of every document and every block.

use crate::extract::{
    blocks_in, blocks_of, segments_of, sonnet_region, ExtractError, BLOCK_SEPARATOR, END_MARKER,
    START_MARKER,
};
use crate::number::{
    is_digit, lemma_not_a_numeral, lemma_numeral_parses, lemma_numeral_value, numeral, parse_u8,
};
use crate::parse::{header_of, line_separator, lines_of, record_of, rejected_header};
use crate::record::{sentinel, SonnetModel};
use crate::select::{records_of, rejected_headers, selection_in};
use crate::text::{
    after_first, ends_at, first_index, free_of, is_whitespace, join, matches_at, occurs, trim,
};
use crate::text_lemmas::{
    lemma_first_after_piece, lemma_first_index_present, lemma_join_split, lemma_match_in_part,
    lemma_split_join_char, lemma_split_join_doubled, lemma_split_on_count,
    lemma_split_on_nonempty, lemma_trim_bounds, lemma_trim_unchanged,
};
use vstd::prelude::*;

verus! {

/// Blocks are extracted exactly from the documents in which the start marker
/// occurs and the end marker occurs after its first occurrence.
pub proof fn law_extraction_succeeds(document: Seq<char>)
    ensures
        blocks_in(document) is Ok <==> occurs(document, START_MARKER@) && occurs(
            after_first(document, START_MARKER@),
            END_MARKER@,
        ),
{
}

/// A document in which either marker is missing gives an error: no blocks
/// and no records.
pub proof fn law_missing_marker(document: Seq<char>)
    requires
        !occurs(document, START_MARKER@) || !occurs(document, END_MARKER@),
    ensures
        blocks_in(document) is Err,
        selection_in(document) is Err,
{
    if occurs(document, START_MARKER@) {
        lemma_first_index_present(document, START_MARKER@);
        let rest = after_first(document, START_MARKER@);
        if occurs(rest, END_MARKER@) {
            let i = choose|i: int| matches_at(rest, END_MARKER@, i);
            lemma_match_in_part(
                document,
                END_MARKER@,
                first_index(document, START_MARKER@) + START_MARKER@.len(),
                document.len() as int,
                i,
            );
        }
    }
}

/// From a document that holds both markers in their order, one block is
/// extracted for each segment between them but the last. There is at least
/// one block exactly if a blank line stands between the markers.
pub proof fn law_block_count(document: Seq<char>)
    requires
        occurs(document, START_MARKER@),
        occurs(after_first(document, START_MARKER@), END_MARKER@),
    ensures
        sonnet_region(document) is Ok,
        blocks_in(document) == Ok::<Seq<Seq<char>>, ExtractError>(
            blocks_of(sonnet_region(document)->Ok_0),
        ),
        blocks_of(sonnet_region(document)->Ok_0).len() == segments_of(
            sonnet_region(document)->Ok_0,
        ).len() - 1,
        blocks_of(sonnet_region(document)->Ok_0).len() >= 1 <==> occurs(
            sonnet_region(document)->Ok_0,
            BLOCK_SEPARATOR@,
        ),
{
    let region = sonnet_region(document)->Ok_0;
    reveal_strlit("\n\n");
    lemma_split_on_nonempty(region, BLOCK_SEPARATOR@);
    lemma_split_on_count(region, BLOCK_SEPARATOR@);
}

/// In a document written as a front part, the start marker, a region, the
/// end marker and a back part, the region is found again: where the front
/// part ends at the start marker and the region ends at the end marker, so
/// that neither marker begins earlier.
pub proof fn law_region_of_document(front: Seq<char>, region: Seq<char>, back: Seq<char>)
    requires
        ends_at(front, START_MARKER@),
        ends_at(region, END_MARKER@),
    ensures
        sonnet_region(front + START_MARKER@ + region + END_MARKER@ + back) == Ok::<
            Seq<char>,
            ExtractError,
        >(region),
{
    let rest = region + END_MARKER@ + back;
    let document = front + START_MARKER@ + region + END_MARKER@ + back;
    assert(document =~= front + START_MARKER@ + rest);
    lemma_first_after_piece(front, START_MARKER@, rest);
    lemma_first_after_piece(region, END_MARKER@, back);
}

/// A region written as blocks, each followed by a blank line, and a residue
/// after the last blank line gives back exactly the blocks, in their order:
/// where no block holds a blank line or has white space at either end, and
/// the residue holds no blank line. The residue is dropped.
pub proof fn law_blocks_of_region(blocks: Seq<Seq<char>>, residue: Seq<char>)
    requires
        forall|k: int| 0 <= k < blocks.len() ==> !occurs(#[trigger] blocks[k], BLOCK_SEPARATOR@),
        forall|k: int| 0 <= k < blocks.len() ==> trim(#[trigger] blocks[k]) == blocks[k],
        !occurs(residue, BLOCK_SEPARATOR@),
    ensures
        segments_of(join(blocks.push(residue), BLOCK_SEPARATOR@)) == blocks.push(residue),
        blocks_of(join(blocks.push(residue), BLOCK_SEPARATOR@)) == blocks,
{
    let sep = BLOCK_SEPARATOR@;
    let segments = blocks.push(residue);
    assert(sep == seq!['\n', '\n']) by {
        reveal_strlit("\n\n");
        assert(sep =~= seq!['\n', '\n']);
    }
    assert forall|k: int| 0 <= k < blocks.len() implies (#[trigger] blocks[k]).len() == 0
        || blocks[k].last() != '\n' by {
        lemma_trim_bounds(blocks[k]);
    }
    lemma_split_join_doubled(blocks, residue, '\n');
    assert(segments.drop_last() =~= blocks);
    assert(blocks_of(join(segments, sep)) =~= blocks);
}

/// A document written as a front part, the start marker, blocks that are each
/// followed by a blank line, a residue, the end marker and a back part gives
/// back exactly the blocks, in their order: where no marker begins earlier
/// than written, no block holds a blank line or has white space at either
/// end, and the residue holds no blank line.
pub proof fn law_blocks_of_document(
    front: Seq<char>,
    blocks: Seq<Seq<char>>,
    residue: Seq<char>,
    back: Seq<char>,
)
    requires
        ends_at(front, START_MARKER@),
        ends_at(join(blocks.push(residue), BLOCK_SEPARATOR@), END_MARKER@),
        forall|k: int| 0 <= k < blocks.len() ==> !occurs(#[trigger] blocks[k], BLOCK_SEPARATOR@),
        forall|k: int| 0 <= k < blocks.len() ==> trim(#[trigger] blocks[k]) == blocks[k],
        !occurs(residue, BLOCK_SEPARATOR@),
    ensures
        blocks_in(
            front + START_MARKER@ + join(blocks.push(residue), BLOCK_SEPARATOR@) + END_MARKER@
                + back,
        ) == Ok::<Seq<Seq<char>>, ExtractError>(blocks),
{
    law_region_of_document(front, join(blocks.push(residue), BLOCK_SEPARATOR@), back);
    law_blocks_of_region(blocks, residue);
}

/// Nothing of a region is lost between its segments, and nothing of a block
/// between its lines: joined again, they are the region and the block.
pub proof fn law_nothing_lost(region: Seq<char>, block: Seq<char>)
    ensures
        join(segments_of(region), BLOCK_SEPARATOR@) == region,
        join(lines_of(block), line_separator()) == block,
{
    lemma_join_split(region, BLOCK_SEPARATOR@);
    lemma_join_split(block, line_separator());
}

/// No block has white space at either end.
pub proof fn law_blocks_are_trimmed(region: Seq<char>, k: int)
    requires
        0 <= k < blocks_of(region).len(),
    ensures
        blocks_of(region)[k] == trim(segments_of(region)[k]),
        blocks_of(region)[k].len() > 0 ==> !is_whitespace(blocks_of(region)[k].first())
            && !is_whitespace(blocks_of(region)[k].last()),
{
    lemma_trim_bounds(segments_of(region)[k]);
}

/// A block made of a header line and further lines, none of which holds a
/// newline, whose header denotes a number once the white space around it is
/// taken away: its record holds that number and the further lines as they
/// stand, in their order, and no header is rejected.
pub proof fn law_header_and_lines(header: Seq<char>, verses: Seq<Seq<char>>, number: u8)
    requires
        free_of(header, '\n'),
        forall|k: int| 0 <= k < verses.len() ==> free_of(#[trigger] verses[k], '\n'),
        parse_u8(trim(header)) == Some(number),
    ensures
        record_of(join(seq![header] + verses, line_separator())) == (SonnetModel {
            number,
            lines: verses,
        }),
        rejected_header(join(seq![header] + verses, line_separator())) is None,
{
    let lines = seq![header] + verses;
    assert forall|k: int| 0 <= k < lines.len() implies free_of(#[trigger] lines[k], '\n') by {
        if k > 0 {
            assert(lines[k] == verses[k - 1]);
        }
    }
    lemma_split_join_char(lines, '\n');
    assert(lines_of(join(lines, line_separator())) == lines);
    assert(lines.first() == header);
    assert(lines.drop_first() =~= verses);
}

/// A block whose first line is the numeral of a number from 0 to 255: its
/// record holds that number and the lines after the first.
pub proof fn law_numeral_and_lines(number: u8, verses: Seq<Seq<char>>)
    requires
        forall|k: int| 0 <= k < verses.len() ==> free_of(#[trigger] verses[k], '\n'),
    ensures
        record_of(join(seq![numeral(number as nat)] + verses, line_separator())) == (SonnetModel {
            number,
            lines: verses,
        }),
{
    let header = numeral(number as nat);
    lemma_numeral_parses(number);
    lemma_numeral_value(number as nat);
    assert forall|i: int| 0 <= i < header.len() implies header[i] != '\n' by {
        assert(is_digit(header[i]));
    }
    assert(is_digit(header.first()) && is_digit(header.last()));
    lemma_trim_unchanged(header);
    law_header_and_lines(header, verses, number);
}

/// A block whose header denotes no number gives the sentinel record, whatever
/// lines follow the header, and the header is rejected.
pub proof fn law_sentinel(block: Seq<char>)
    requires
        parse_u8(header_of(block)) is None,
    ensures
        record_of(block) == sentinel(),
        rejected_header(block) == Some(header_of(block)),
{
}

/// A header is among those that denote no number if it is empty, or holds a
/// character that is neither a digit nor a plus sign at its beginning.
pub proof fn law_malformed_header(block: Seq<char>)
    requires
        header_of(block).len() == 0 || exists|i: int|
            0 <= i < header_of(block).len() && !is_digit(header_of(block)[i]) && !(i == 0
                && header_of(block)[0] == '+'),
    ensures
        record_of(block) == sentinel(),
        rejected_header(block) == Some(header_of(block)),
{
    lemma_not_a_numeral(header_of(block));
}

/// No block is dropped: there is one record for each block, in the order of
/// the blocks, and no more rejected headers than blocks.
pub proof fn law_one_record_per_block(blocks: Seq<Seq<char>>)
    ensures
        records_of(blocks).len() == blocks.len(),
        forall|k: int| 0 <= k < blocks.len() ==> records_of(blocks)[k] == record_of(blocks[k]),
        rejected_headers(blocks).len() <= blocks.len(),
    decreases blocks.len(),
{
    if blocks.len() > 0 {
        law_one_record_per_block(blocks.drop_last());
    }
}

} // verus!
