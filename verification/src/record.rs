//! The record that one sonnet is parsed into.

use vstd::prelude::*;

verus! {

/// One sonnet: its ordinal as printed in the source, and its verse lines in
/// the order of the source.
#[derive(Debug, Clone, PartialEq, Eq)]
pub struct SonnetRecord {
    pub number: u8,
    pub lines: Vec<String>,
}

/// What a `SonnetRecord` stands for: the ordinal, and each line as its
/// sequence of characters.
pub struct SonnetModel {
    pub number: u8,
    pub lines: Seq<Seq<char>>,
}

impl View for SonnetRecord {
    type V = SonnetModel;

    open spec fn view(&self) -> SonnetModel {
        SonnetModel { number: self.number, lines: self.lines.deep_view() }
    }
}

impl DeepView for SonnetRecord {
    type V = SonnetModel;

    open spec fn deep_view(&self) -> SonnetModel {
        self@
    }
}

/// The record that stands in for a block whose header is no number: ordinal 0
/// and no lines.
pub open spec fn sentinel() -> SonnetModel {
    SonnetModel { number: 0, lines: Seq::empty() }
}

impl SonnetRecord {
    /// The record that stands in for a block whose header is no number.
    pub fn sentinel() -> (record: SonnetRecord)
        ensures
            record@ == sentinel(),
    {
        let record = SonnetRecord { number: 0, lines: Vec::new() };
        proof {
            assert(record.lines.deep_view() =~= Seq::<Seq<char>>::empty());
        }
        record
    }
}

} // verus!
