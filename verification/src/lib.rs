//! Conversion of bank statements between a CSV ledger export, SWIFT MT940
//! and ISO 20022 CAMT.053.
//!
//! A statement is read by the parser of its format, turned into one
//! canonical list of transactions, and written by the serializer of the
//! format asked for. [`convert`] does the three steps in one call.

use vstd::prelude::*;

pub mod amount;
pub mod convert;
pub mod error;
pub mod from_parser;
pub mod identity;
pub mod laws;
pub mod model;
pub mod parser;
pub mod text;
pub mod to_format;

pub use crate::amount::Amount;
pub use crate::convert::{convert, parse_transactions, serialize, Converter, Format};
pub use crate::error::{ConvertError, ParseError};
pub use crate::from_parser::FromParser;
pub use crate::model::Transaction;
pub use crate::parser::{
    Camt053Parser, CsvParser, CsvRow, Mt940Parser, Mt940Record, Parser,
};
pub use crate::to_format::{escape_csv_field, Camt053Format, CsvFormat, Mt940Format, ToFormat};

verus! {

/// Sum of two counters.
pub fn add(left: u64, right: u64) -> (sum: u64)
    requires
        left + right <= u64::MAX,
    ensures
        sum == left + right,
{
    left + right
}

} // verus!
