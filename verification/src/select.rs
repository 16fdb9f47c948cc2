//! From the full text of a document to the records of its sonnets.

use crate::extract::{blocks_in, extract_blocks, ExtractError};
use crate::parse::{examine_block, record_of, rejected_header};
use crate::record::{SonnetModel, SonnetRecord};
use vstd::prelude::*;

verus! {

/// The sonnets of a document, and what has to be reported of them.
#[derive(Debug, Clone, PartialEq, Eq)]
pub struct Selection {
    /// One record for each block, in the order of the document.
    pub sonnets: Vec<SonnetRecord>,
    /// The headers that denote no number, in the order of the document. Each
    /// is owed a diagnostic; its block is among `sonnets` as the sentinel.
    pub rejected: Vec<String>,
}

/// What a `Selection` stands for.
pub struct SelectionModel {
    pub sonnets: Seq<SonnetModel>,
    pub rejected: Seq<Seq<char>>,
}

impl View for Selection {
    type V = SelectionModel;

    open spec fn view(&self) -> SelectionModel {
        SelectionModel { sonnets: self.sonnets.deep_view(), rejected: self.rejected.deep_view() }
    }
}

/// The records of the given blocks, one for each, in order.
pub open spec fn records_of(blocks: Seq<Seq<char>>) -> Seq<SonnetModel> {
    blocks.map_values(|block: Seq<char>| record_of(block))
}

/// The headers among the given blocks that denote no number, in order.
pub open spec fn rejected_headers(blocks: Seq<Seq<char>>) -> Seq<Seq<char>>
    decreases blocks.len(),
{
    if blocks.len() == 0 {
        Seq::empty()
    } else {
        match rejected_header(blocks.last()) {
            Some(header) => rejected_headers(blocks.drop_last()).push(header),
            None => rejected_headers(blocks.drop_last()),
        }
    }
}

/// The selection that the given blocks give.
pub open spec fn selection_of(blocks: Seq<Seq<char>>) -> SelectionModel {
    SelectionModel { sonnets: records_of(blocks), rejected: rejected_headers(blocks) }
}

/// The selection of a document, or why it has none.
pub open spec fn selection_in(document: Seq<char>) -> Result<SelectionModel, ExtractError> {
    match blocks_in(document) {
        Ok(blocks) => Ok(selection_of(blocks)),
        Err(error) => Err(error),
    }
}

/// Parses each of the given blocks, in order.
pub fn parse_blocks(blocks: &Vec<String>) -> (selection: Selection)
    ensures
        selection@ == selection_of(blocks.deep_view()),
{
    let ghost all = blocks.deep_view();
    let mut sonnets: Vec<SonnetRecord> = Vec::new();
    let mut rejected: Vec<String> = Vec::new();
    let mut k: usize = 0;
    proof {
        assert(all.take(0) =~= Seq::<Seq<char>>::empty());
        assert(rejected.deep_view() =~= rejected_headers(all.take(0)));
    }
    while k < blocks.len()
        invariant
            k <= blocks.len(),
            all == blocks.deep_view(),
            sonnets@.len() == k,
            forall|j: int| 0 <= j < k ==> (#[trigger] sonnets@[j])@ == record_of(all[j]),
            rejected.deep_view() == rejected_headers(all.take(k as int)),
        decreases blocks.len() - k,
    {
        let ghost before = rejected.deep_view();
        let (record, diagnostic) = examine_block(blocks[k].as_str());
        sonnets.push(record);
        proof {
            assert(all[k as int] == blocks@[k as int]@);
            assert(all.take(k + 1).drop_last() =~= all.take(k as int));
            assert(all.take(k + 1).last() == all[k as int]);
        }
        match diagnostic {
            Some(header) => {
                rejected.push(header);
                proof {
                    assert(rejected.deep_view() =~= before.push(header@));
                }
            },
            None => {},
        }
        k += 1;
    }
    let selection = Selection { sonnets, rejected };
    proof {
        assert(all.take(k as int) =~= all);
        assert(selection.sonnets.deep_view() =~= records_of(all));
    }
    selection
}

/// Extracts the blocks of the sonnets from the full text of a document and
/// parses each into its record.
pub fn select_sonnets(document: &str) -> (result: Result<Selection, ExtractError>)
    ensures
        match result {
            Ok(selection) => selection_in(document@) == Ok::<SelectionModel, ExtractError>(
                selection@,
            ),
            Err(error) => selection_in(document@) == Err::<SelectionModel, ExtractError>(error),
        },
{
    match extract_blocks(document) {
        Ok(blocks) => Ok(parse_blocks(&blocks)),
        Err(error) => Err(error),
    }
}

} // verus!
