//! Extraction of the numbered sonnets from a plain-text compilation of
//! literary works.

pub mod config;
pub mod extract;
pub mod failure;
pub mod laws;
pub mod number;
pub mod parse;
pub mod record;
pub mod scan;
pub mod select;
pub mod text;
pub mod text_lemmas;

pub use extract::{extract_blocks, ExtractError};
pub use parse::{examine_block, parse_block};
pub use record::SonnetRecord;
pub use select::{select_sonnets, Selection};
