//! The dispatcher: from the bytes of a statement in one format to its text
//! in another.

use vstd::prelude::*;
use crate::error::{ConvertError, ConvertErrorView, ParseError, ParseErrorView};
use crate::from_parser::FromParser;
use crate::model::{views, Transaction, TransactionView};
use crate::parser::{Camt053Parser, CsvParser, Mt940Parser, Parser};
use crate::text::{chars_of, same_text};
use crate::to_format::{Camt053Format, CsvFormat, Mt940Format, ToFormat};

verus! {

/// The statement formats.
#[derive(Debug, Clone, Copy, PartialEq, Eq)]
pub enum Format {
    Csv,
    Mt940,
    Camt053,
}

/// `c` as a small letter where it is one of the capitals `A` to `Z`, and
/// `c` itself otherwise.
pub open spec fn lower(c: char) -> char {
    if 'A' <= c <= 'Z' {
        (c as u32 + 32) as char
    } else {
        c
    }
}

/// `s` with its capitals `A` to `Z` as small letters.
pub open spec fn lowercase(s: Seq<char>) -> Seq<char> {
    s.map_values(|c: char| lower(c))
}

/// `s` with its capitals `A` to `Z` as small letters.
pub fn to_lowercase(s: &str) -> (out: String)
    ensures
        out@ == lowercase(s@),
{
    let chars = chars_of(s);
    let mut out = String::new();
    let mut i: usize = 0;
    while i < chars.len()
        invariant
            i <= chars@.len(),
            chars@ == s@,
            out@ == lowercase(s@).take(i as int),
        decreases chars@.len() - i,
    {
        let c = chars[i];
        if 'A' <= c && c <= 'Z' {
            out.push((c as u8 + 32) as char);
        } else {
            out.push(c);
        }
        proof {
            assert(lowercase(s@).take(i + 1) =~= lowercase(s@).take(i as int).push(lower(c)));
        }
        i += 1;
    }
    proof {
        assert(lowercase(s@).take(i as int) =~= lowercase(s@));
    }
    out
}

/// The format that the lower-case tag `tag` names, if it names one.
pub open spec fn named_format(tag: Seq<char>) -> Option<Format> {
    if tag == "csv"@ {
        Some(Format::Csv)
    } else if tag == "mt940"@ {
        Some(Format::Mt940)
    } else if tag == "camt053"@ {
        Some(Format::Camt053)
    } else {
        None
    }
}

/// The format that stands for the lower-case tag `tag`: the one it names,
/// and CSV where it names none.
pub open spec fn format_of(tag: Seq<char>) -> Format {
    match named_format(tag) {
        Some(format) => format,
        None => Format::Csv,
    }
}

impl Format {
    /// The format that the lower-case tag `tag` names: `csv`, `mt940` or
    /// `camt053`. Any other tag names none.
    pub fn from_lowercase(tag: &str) -> (format: Option<Format>)
        ensures
            format == named_format(tag@),
    {
        if same_text(tag, "csv") {
            Some(Format::Csv)
        } else if same_text(tag, "mt940") {
            Some(Format::Mt940)
        } else if same_text(tag, "camt053") {
            Some(Format::Camt053)
        } else {
            None
        }
    }

    /// The format that `tag` names in any mix of capitals and small letters,
    /// or nothing where it names none.
    pub fn recognize(tag: &str) -> (format: Option<Format>)
        ensures
            format == named_format(lowercase(tag@)),
    {
        let lower = to_lowercase(tag);
        Format::from_lowercase(lower.as_str())
    }
}

impl<'a> From<&'a str> for Format {
    /// The format that `tag` names in any mix of capitals and small letters.
    /// A tag that names none stands for CSV.
    fn from(tag: &'a str) -> (format: Format) {
        match Format::recognize(tag) {
            Some(format) => format,
            None => Format::Csv,
        }
    }
}

impl<'a> vstd::std_specs::convert::FromSpecImpl<&'a str> for Format {
    open spec fn obeys_from_spec() -> bool {
        true
    }

    open spec fn from_spec(tag: &'a str) -> Format {
        format_of(lowercase(tag@))
    }
}

/// The transactions of `input` read in `format`, or why it cannot be read.
pub open spec fn canonical_of(format: Format, input: Seq<u8>) -> Result<
    Seq<TransactionView>,
    ParseErrorView,
> {
    match format {
        Format::Csv => if CsvParser::accepts(input) {
            Ok(CsvParser::canonical(CsvParser::document(input)))
        } else {
            Err(CsvParser::failure(input))
        },
        Format::Mt940 => if Mt940Parser::accepts(input) {
            Ok(Mt940Parser::canonical(Mt940Parser::document(input)))
        } else {
            Err(Mt940Parser::failure(input))
        },
        Format::Camt053 => if Camt053Parser::accepts(input) {
            Ok(Camt053Parser::canonical(Camt053Parser::document(input)))
        } else {
            Err(Camt053Parser::failure(input))
        },
    }
}

/// The text of `txs` in `format`.
pub open spec fn rendered_in(format: Format, txs: Seq<TransactionView>) -> Seq<char> {
    match format {
        Format::Csv => CsvFormat::rendered(txs),
        Format::Mt940 => Mt940Format::rendered(txs),
        Format::Camt053 => Camt053Format::rendered(txs),
    }
}

/// What converting `input` from one format to another gives: the text of
/// its transactions in the second format, or the reason why the first
/// format does not accept it. No pair of formats is refused.
pub open spec fn converted(input: Seq<u8>, from: Format, to: Format) -> Result<
    Seq<char>,
    ConvertErrorView,
> {
    match canonical_of(from, input) {
        Ok(txs) => Ok(rendered_in(to, txs)),
        Err(error) => Err(ConvertErrorView::Parse(error)),
    }
}

/// Whether the outcome `out` of a conversion is `expected`.
pub open spec fn is_outcome(
    out: Result<String, ConvertError>,
    expected: Result<Seq<char>, ConvertErrorView>,
) -> bool {
    match out {
        Ok(text) => expected == Ok::<Seq<char>, ConvertErrorView>(text@),
        Err(error) => expected == Err::<Seq<char>, ConvertErrorView>(error@),
    }
}

/// Reads `input` in `format` and turns it into transactions.
pub fn parse_transactions(format: &Format, input: &[u8]) -> (read: Result<
    Vec<Transaction>,
    ParseError,
>)
    ensures
        match read {
            Ok(txs) => canonical_of(*format, input@) == Ok::<
                Seq<TransactionView>,
                ParseErrorView,
            >(views(txs@)),
            Err(error) => canonical_of(*format, input@) == Err::<
                Seq<TransactionView>,
                ParseErrorView,
            >(error@),
        },
{
    match format {
        Format::Csv => match CsvParser::parse(input) {
            Ok(doc) => Ok(doc.to_transactions()),
            Err(error) => Err(error),
        },
        Format::Mt940 => match Mt940Parser::parse(input) {
            Ok(doc) => Ok(doc.to_transactions()),
            Err(error) => Err(error),
        },
        Format::Camt053 => match Camt053Parser::parse(input) {
            Ok(doc) => Ok(doc.to_transactions()),
            Err(error) => Err(error),
        },
    }
}

/// Writes `txs` in `format`.
pub fn serialize(format: &Format, txs: &[Transaction]) -> (out: String)
    ensures
        out@ == rendered_in(*format, views(txs@)),
{
    match format {
        Format::Csv => CsvFormat::from_transactions(txs),
        Format::Mt940 => Mt940Format::from_transactions(txs),
        Format::Camt053 => Camt053Format::from_transactions(txs),
    }
}

/// Converts the statement `input` from the format `from` to the format
/// `to`. Either the whole statement is converted or nothing is: an input
/// that `from` does not accept gives the parser's error and no text.
pub fn convert(input: &[u8], from: &Format, to: &Format) -> (out: Result<String, ConvertError>)
    ensures
        is_outcome(out, converted(input@, *from, *to)),
{
    match parse_transactions(from, input) {
        Ok(txs) => Ok(serialize(to, txs.as_slice())),
        Err(error) => Err(ConvertError::Parse(error)),
    }
}

/// The conversions by name, for callers that know both formats beforehand.
pub struct Converter;

impl Converter {
    /// Writes `txs` as a CSV ledger export.
    pub fn to_csv(txs: &[Transaction]) -> (out: String)
        ensures
            out@ == CsvFormat::rendered(views(txs@)),
    {
        CsvFormat::from_transactions(txs)
    }

    /// Writes `txs` as an MT940 statement.
    pub fn to_mt940(txs: &[Transaction]) -> (out: String)
        ensures
            out@ == Mt940Format::rendered(views(txs@)),
    {
        Mt940Format::from_transactions(txs)
    }

    /// Writes `txs` as a CAMT.053 statement.
    pub fn to_camt053(txs: &[Transaction]) -> (out: String)
        ensures
            out@ == Camt053Format::rendered(views(txs@)),
    {
        Camt053Format::from_transactions(txs)
    }

    /// Converts a CSV ledger export into a CAMT.053 statement.
    pub fn from_csv_to_camt053(input: &[u8]) -> (out: Result<String, ConvertError>)
        ensures
            is_outcome(out, converted(input@, Format::Csv, Format::Camt053)),
    {
        convert(input, &Format::Csv, &Format::Camt053)
    }

    /// Converts a CSV ledger export into an MT940 statement.
    pub fn from_csv_to_mt940(input: &[u8]) -> (out: Result<String, ConvertError>)
        ensures
            is_outcome(out, converted(input@, Format::Csv, Format::Mt940)),
    {
        convert(input, &Format::Csv, &Format::Mt940)
    }

    /// Converts a CAMT.053 statement into a CSV ledger export.
    pub fn from_camt053_to_csv(input: &[u8]) -> (out: Result<String, ConvertError>)
        ensures
            is_outcome(out, converted(input@, Format::Camt053, Format::Csv)),
    {
        convert(input, &Format::Camt053, &Format::Csv)
    }

    /// Converts a CAMT.053 statement into an MT940 statement.
    pub fn from_camt053_to_mt940(input: &[u8]) -> (out: Result<String, ConvertError>)
        ensures
            is_outcome(out, converted(input@, Format::Camt053, Format::Mt940)),
    {
        convert(input, &Format::Camt053, &Format::Mt940)
    }

    /// Converts an MT940 statement into a CSV ledger export.
    pub fn from_mt940_to_csv(input: &[u8]) -> (out: Result<String, ConvertError>)
        ensures
            is_outcome(out, converted(input@, Format::Mt940, Format::Csv)),
    {
        convert(input, &Format::Mt940, &Format::Csv)
    }

    /// Converts an MT940 statement into a CAMT.053 statement.
    pub fn from_mt940_to_camt053(input: &[u8]) -> (out: Result<String, ConvertError>)
        ensures
            is_outcome(out, converted(input@, Format::Mt940, Format::Camt053)),
    {
        convert(input, &Format::Mt940, &Format::Camt053)
    }
}

} // verus!
