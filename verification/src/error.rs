//! What can go wrong while a statement is read or converted.

use vstd::prelude::*;
use vstd::string::StringExecFns;

verus! {

/// What a [`ParseError`] is: its kind and its message.
pub enum ParseErrorView {
    Io(Seq<char>),
    InvalidFormat(Seq<char>),
}

/// Why an input could not be read as a statement.
#[derive(Debug)]
pub enum ParseError {
    /// The input could not be taken in as text.
    Io(String),
    /// The text does not have the shape that the format asks for.
    InvalidFormat(String),
}

impl View for ParseError {
    type V = ParseErrorView;

    open spec fn view(&self) -> ParseErrorView {
        match self {
            ParseError::Io(message) => ParseErrorView::Io(message@),
            ParseError::InvalidFormat(message) => ParseErrorView::InvalidFormat(message@),
        }
    }
}

impl ParseErrorView {
    /// The error as one line of text.
    pub open spec fn text(self) -> Seq<char> {
        match self {
            ParseErrorView::Io(message) => "IO error: "@ + message,
            ParseErrorView::InvalidFormat(message) => "Invalid format: "@ + message,
        }
    }
}

impl ParseError {
    /// The error as one line of text.
    pub fn to_string(&self) -> (out: String)
        ensures
            out@ == self@.text(),
    {
        match self {
            ParseError::Io(message) => {
                let mut out = String::from_str("IO error: ");
                out.append(message.as_str());
                out
            },
            ParseError::InvalidFormat(message) => {
                let mut out = String::from_str("Invalid format: ");
                out.append(message.as_str());
                out
            },
        }
    }
}

/// What a [`ConvertError`] is.
pub enum ConvertErrorView {
    Parse(ParseErrorView),
    Unsupported { from: Seq<char>, to: Seq<char> },
}

/// Why a conversion gave no output.
#[derive(Debug)]
pub enum ConvertError {
    /// The input could not be read in its format.
    Parse(ParseError),
    /// No conversion exists between the two formats.
    Unsupported { from: String, to: String },
}

impl View for ConvertError {
    type V = ConvertErrorView;

    open spec fn view(&self) -> ConvertErrorView {
        match self {
            ConvertError::Parse(error) => ConvertErrorView::Parse(error@),
            ConvertError::Unsupported { from, to } => ConvertErrorView::Unsupported {
                from: from@,
                to: to@,
            },
        }
    }
}

impl ConvertErrorView {
    /// The error as one line of text.
    pub open spec fn text(self) -> Seq<char> {
        match self {
            ConvertErrorView::Parse(error) => "Parse error: "@ + error.text(),
            ConvertErrorView::Unsupported { from, to } => "Unsupported conversion: "@ + from
                + " -> "@ + to,
        }
    }
}

impl ConvertError {
    /// The error as one line of text.
    pub fn to_string(&self) -> (out: String)
        ensures
            out@ == self@.text(),
    {
        match self {
            ConvertError::Parse(error) => {
                let mut out = String::from_str("Parse error: ");
                let inner = error.to_string();
                out.append(inner.as_str());
                out
            },
            ConvertError::Unsupported { from, to } => {
                let mut out = String::from_str("Unsupported conversion: ");
                out.append(from.as_str());
                out.append(" -> ");
                out.append(to.as_str());
                out
            },
        }
    }
}

impl From<ParseError> for ConvertError {
    fn from(error: ParseError) -> (out: ConvertError) {
        ConvertError::Parse(error)
    }
}

impl vstd::std_specs::convert::FromSpecImpl<ParseError> for ConvertError {
    open spec fn obeys_from_spec() -> bool {
        true
    }

    open spec fn from_spec(error: ParseError) -> ConvertError {
        ConvertError::Parse(error)
    }
}

} // verus!
