//! Readers of the three statement formats: each turns the bytes of a
//! statement into the records of its format.

use vstd::prelude::*;
use vstd::slice::slice_subrange;
use vstd::string::StringExecFns;
use vstd::utf8::{decode_utf8, valid_utf8};
use crate::error::{ParseError, ParseErrorView};
use crate::text::{
    chars_of, decode, find_char, find_from, is_whitespace_char, lemma_find_from,
    lines, string_of, trim, trim_start, trimmed,
};

verus! {

/// A reader of one statement format.
pub trait Parser: Sized + View {
    /// Whether `input` is a statement of this format.
    spec fn accepts(input: Seq<u8>) -> bool;

    /// What a statement holds that the format accepts.
    spec fn document(input: Seq<u8>) -> Self::V;

    /// Why the format refuses an input that it does not accept.
    spec fn failure(input: Seq<u8>) -> ParseErrorView;

    /// Reads `input`: the document where the format accepts it, and else the
    /// reason why it does not.
    fn parse(input: &[u8]) -> (read: Result<Self, ParseError>)
        ensures
            read is Ok <==> Self::accepts(input@),
            read matches Ok(doc) ==> doc@ == Self::document(input@),
            read matches Err(error) ==> error@ == Self::failure(input@),
    ;
}

/// The message for bytes that are no UTF-8 text.
pub open spec fn not_text_message() -> Seq<char> {
    "stream did not contain valid UTF-8"@
}

fn not_text() -> (error: ParseError)
    ensures
        error@ == ParseErrorView::Io(not_text_message()),
{
    ParseError::Io(String::from_str("stream did not contain valid UTF-8"))
}

/// One row of a CSV document: its fields, in order.
#[derive(Debug)]
pub struct CsvRow {
    pub row: Vec<String>,
}

impl View for CsvRow {
    type V = Seq<Seq<char>>;

    open spec fn view(&self) -> Seq<Seq<char>> {
        self.row@.map_values(|field: String| field@)
    }
}

/// A CSV document: its rows, in order. The first row is the header.
#[derive(Debug)]
pub struct CsvParser {
    pub rows: Vec<CsvRow>,
}

/// The views of `rows`, in order.
pub open spec fn row_views(rows: Seq<CsvRow>) -> Seq<Seq<Seq<char>>> {
    rows.map_values(|row: CsvRow| row@)
}

impl View for CsvParser {
    type V = Seq<Seq<Seq<char>>>;

    open spec fn view(&self) -> Seq<Seq<Seq<char>>> {
        row_views(self.rows@)
    }
}

/// The records that the `csv` crate's reader finds in `input`, each as its
/// fields, or the message of the first error that the reader meets.
/// `has_headers` and `flexible` are the reader's settings of those names.
pub uninterp spec fn csv_records(input: Seq<u8>, has_headers: bool, flexible: bool) -> Result<
    Seq<Seq<Seq<char>>>,
    Seq<char>,
>;

/// Reads the records of `input` with `csv::Reader`, built by
/// `csv::ReaderBuilder` with the two settings given and the crate's defaults
/// otherwise (comma as delimiter, double quote as quote).
///
/// The contract names what the reader yields and claims only that it
/// depends on nothing but the bytes and the two settings.
#[verifier::external_body]
fn read_records(input: &[u8], has_headers: bool, flexible: bool) -> (found: Result<
    Vec<CsvRow>,
    String,
>)
    ensures
        match found {
            Ok(rows) => csv_records(input@, has_headers, flexible) == Ok::<
                Seq<Seq<Seq<char>>>,
                Seq<char>,
            >(row_views(rows@)),
            Err(message) => csv_records(input@, has_headers, flexible) == Err::<
                Seq<Seq<Seq<char>>>,
                Seq<char>,
            >(message@),
        },
{
    let mut builder = csv::ReaderBuilder::new();
    let mut reader = builder.has_headers(has_headers).flexible(flexible).from_reader(input);
    let mut rows = Vec::new();
    for record in reader.records() {
        match record {
            Ok(fields) => rows.push(CsvRow { row: fields.iter().map(String::from).collect() }),
            Err(error) => return Err(error.to_string()),
        }
    }
    Ok(rows)
}

/// The fields of `row`, each without the white space around it.
pub open spec fn trim_fields(row: Seq<Seq<char>>) -> Seq<Seq<char>> {
    row.map_values(|field: Seq<char>| trim(field))
}

/// The rows of `rows`, each field without the white space around it.
pub open spec fn trim_rows(rows: Seq<Seq<Seq<char>>>) -> Seq<Seq<Seq<char>>> {
    rows.map_values(|row: Seq<Seq<char>>| trim_fields(row))
}

/// The message for a CSV input without a byte.
pub open spec fn empty_csv_message() -> Seq<char> {
    "CSV input is empty"@
}

/// The message for a CSV input that holds a single quote.
pub open spec fn single_quote_message() -> Seq<char> {
    "CSV input holds a single quote, which is not supported"@
}

/// Whether `input` holds the byte of a single quote.
pub open spec fn has_single_quote(input: Seq<u8>) -> bool {
    exists|i: int| 0 <= i < input.len() && input[i] == 0x27
}

/// What reading a CSV document comes to, given what the reader found: the
/// rows with every field trimmed, or a format error with the reader's
/// message.
pub open spec fn csv_outcome(found: Result<Seq<Seq<Seq<char>>>, Seq<char>>) -> Result<
    Seq<Seq<Seq<char>>>,
    ParseErrorView,
> {
    match found {
        Ok(rows) => Ok(trim_rows(rows)),
        Err(message) => Err(ParseErrorView::InvalidFormat(message)),
    }
}

/// `field` without the white space around it.
fn trimmed_field(field: &String) -> (out: String)
    ensures
        out@ == trim(field@),
{
    let chars = chars_of(field.as_str());
    string_of(trimmed(chars.as_slice()))
}

/// `row` with every field trimmed.
fn trimmed_row(row: &CsvRow) -> (out: CsvRow)
    ensures
        out@ == trim_fields(row@),
{
    let mut fields: Vec<String> = Vec::new();
    let mut i: usize = 0;
    while i < row.row.len()
        invariant
            i <= row.row@.len(),
            fields@.len() == i,
            forall|j: int| 0 <= j < i ==> (#[trigger] fields@[j])@ == trim(row.row@[j]@),
        decreases row.row@.len() - i,
    {
        fields.push(trimmed_field(&row.row[i]));
        i += 1;
    }
    let out = CsvRow { row: fields };
    assert(out@ =~= trim_fields(row@));
    out
}

impl CsvParser {
    /// The document that comes of what the reader found.
    pub fn from_records(found: Result<Vec<CsvRow>, String>) -> (read: Result<
        CsvParser,
        ParseError,
    >)
        ensures
            match found {
                Ok(rows) => read matches Ok(doc) && doc@ == trim_rows(row_views(rows@)),
                Err(message) => read matches Err(error) && error@
                    == ParseErrorView::InvalidFormat(message@),
            },
    {
        match found {
            Ok(rows) => {
                let mut out: Vec<CsvRow> = Vec::new();
                let mut i: usize = 0;
                while i < rows.len()
                    invariant
                        i <= rows@.len(),
                        out@.len() == i,
                        forall|j: int| 0 <= j < i ==> (#[trigger] out@[j])@ == trim_fields(rows@[j]@),
                    decreases rows@.len() - i,
                {
                    out.push(trimmed_row(&rows[i]));
                    i += 1;
                }
                let doc = CsvParser { rows: out };
                assert(doc@ =~= trim_rows(row_views(rows@)));
                Ok(doc)
            },
            Err(message) => Err(ParseError::InvalidFormat(message)),
        }
    }

    /// Reads `input` as `parse` does, but refuses any input that holds a
    /// single quote: that dialect is not supported.
    pub fn parse_strict(input: &[u8]) -> (read: Result<CsvParser, ParseError>)
        ensures
            read is Ok <==> !has_single_quote(input@) && CsvParser::accepts(input@),
            read matches Ok(doc) ==> doc@ == CsvParser::document(input@),
            read matches Err(error) ==> error@ == (if has_single_quote(input@) {
                ParseErrorView::InvalidFormat(single_quote_message())
            } else {
                CsvParser::failure(input@)
            }),
    {
        let mut i: usize = 0;
        while i < input.len()
            invariant
                i <= input@.len(),
                forall|j: int| 0 <= j < i ==> input@[j] != 0x27,
            decreases input@.len() - i,
        {
            if input[i] == 0x27 {
                return Err(
                    ParseError::InvalidFormat(
                        String::from_str("CSV input holds a single quote, which is not supported"),
                    ),
                );
            }
            i += 1;
        }
        CsvParser::parse(input)
    }
}

impl Parser for CsvParser {
    /// A CSV document is any input of at least one byte in which the reader
    /// meets no error.
    open spec fn accepts(input: Seq<u8>) -> bool {
        input.len() > 0 && csv_records(input, false, true) is Ok
    }

    /// Its rows are the reader's records, the header among them, with every
    /// field trimmed.
    open spec fn document(input: Seq<u8>) -> Seq<Seq<Seq<char>>> {
        trim_rows(csv_records(input, false, true)->Ok_0)
    }

    open spec fn failure(input: Seq<u8>) -> ParseErrorView {
        if input.len() == 0 {
            ParseErrorView::InvalidFormat(empty_csv_message())
        } else {
            ParseErrorView::InvalidFormat(csv_records(input, false, true)->Err_0)
        }
    }

    fn parse(input: &[u8]) -> (read: Result<CsvParser, ParseError>) {
        if input.len() == 0 {
            return Err(ParseError::InvalidFormat(String::from_str("CSV input is empty")));
        }
        CsvParser::from_records(read_records(input, false, true))
    }
}

/// What a [`Mt940Record`] is.
pub struct RecordView {
    pub tag: Seq<char>,
    pub value: Seq<char>,
}

/// One tagged line of an MT940 statement, `:TAG:VALUE`.
#[derive(Debug)]
pub struct Mt940Record {
    pub tag: String,
    pub value: String,
}

impl View for Mt940Record {
    type V = RecordView;

    open spec fn view(&self) -> RecordView {
        RecordView { tag: self.tag@, value: self.value@ }
    }
}

/// An MT940 statement: its tagged lines, in order.
#[derive(Debug)]
pub struct Mt940Parser {
    pub data: Vec<Mt940Record>,
}

/// The views of `data`, in order.
pub open spec fn record_views(data: Seq<Mt940Record>) -> Seq<RecordView> {
    data.map_values(|record: Mt940Record| record@)
}

impl View for Mt940Parser {
    type V = Seq<RecordView>;

    open spec fn view(&self) -> Seq<RecordView> {
        record_views(self.data@)
    }
}

/// Whether the trimmed line `line` is a tagged one: it begins with a colon.
pub open spec fn is_tag_line(line: Seq<char>) -> bool {
    line.len() > 0 && line[0] == ':'
}

/// Whether the tagged line `line` has the colon that ends its tag.
pub open spec fn is_closed(line: Seq<char>) -> bool {
    find_from(line, ':', 1) < line.len()
}

/// The record of the tagged line `line`: the tag stands between the first
/// two colons, the value is all that follows the second.
pub open spec fn record_of(line: Seq<char>) -> RecordView {
    let close = find_from(line, ':', 1);
    RecordView { tag: line.subrange(1, close), value: line.skip(close + 1) }
}

/// The tagged ones among `raw` lines, trimmed. Blank lines and lines that
/// begin with anything but a colon are left out.
pub open spec fn trimmed_tags(raw: Seq<Seq<char>>) -> Seq<Seq<char>> {
    raw.map_values(|line: Seq<char>| trim(line)).filter(|line: Seq<char>| is_tag_line(line))
}

/// The tagged lines of `text`, trimmed, in order.
pub open spec fn tag_lines(text: Seq<char>) -> Seq<Seq<char>> {
    trimmed_tags(lines(text))
}

/// Whether every line of `tagged` has the colon that ends its tag.
pub open spec fn all_closed(tagged: Seq<Seq<char>>) -> bool {
    forall|i: int| 0 <= i < tagged.len() ==> is_closed(#[trigger] tagged[i])
}

/// The records of tagged lines, in order.
pub open spec fn records_of(tagged: Seq<Seq<char>>) -> Seq<RecordView> {
    tagged.map_values(|line: Seq<char>| record_of(line))
}

/// The message for an MT940 input without a character.
pub open spec fn empty_mt940_message() -> Seq<char> {
    "MT940 input is empty"@
}

/// The message for a tagged line whose tag is not ended by a colon.
pub open spec fn unclosed_tag_message() -> Seq<char> {
    "MT940 line has no `:` after its tag"@
}

/// No lines hold no tagged line.
pub proof fn lemma_trimmed_tags_none()
    ensures
        trimmed_tags(Seq::empty()) == Seq::<Seq<char>>::empty(),
{
    let none = Seq::<Seq<char>>::empty();
    assert(none.map_values(|line: Seq<char>| trim(line)) =~= none);
    none.lemma_filter_len(|line: Seq<char>| is_tag_line(line));
    assert(trimmed_tags(none) =~= none);
}

/// The tagged lines of two runs of lines are those of the first, then those
/// of the second.
pub proof fn lemma_trimmed_tags_add(a: Seq<Seq<char>>, b: Seq<Seq<char>>)
    ensures
        trimmed_tags(a + b) == trimmed_tags(a) + trimmed_tags(b),
{
    let f = |line: Seq<char>| trim(line);
    let p = |line: Seq<char>| is_tag_line(line);
    assert((a + b).map_values(f) =~= a.map_values(f) + b.map_values(f));
    Seq::filter_distributes_over_add(a.map_values(f), b.map_values(f), p);
}

/// The tagged lines of a single line: the line trimmed, if it is tagged.
pub proof fn lemma_trimmed_tags_one(line: Seq<char>)
    ensures
        trimmed_tags(seq![line]) == if is_tag_line(trim(line)) {
            seq![trim(line)]
        } else {
            Seq::<Seq<char>>::empty()
        },
{
    let f = |line: Seq<char>| trim(line);
    let p = |line: Seq<char>| is_tag_line(line);
    let none = Seq::<Seq<char>>::empty();
    assert(seq![line].map_values(f) =~= none.push(trim(line)));
    none.lemma_filter_len(p);
    none.lemma_filter_push(trim(line), p);
    assert(none.push(trim(line)) =~= seq![trim(line)]);
}

impl Parser for Mt940Parser {
    /// An MT940 statement is any text of at least one character in which
    /// every tagged line has the colon that ends its tag.
    open spec fn accepts(input: Seq<u8>) -> bool {
        &&& valid_utf8(input)
        &&& decode_utf8(input).len() > 0
        &&& all_closed(tag_lines(decode_utf8(input)))
    }

    /// It holds one record for each tagged line, in the order of the lines.
    open spec fn document(input: Seq<u8>) -> Seq<RecordView> {
        records_of(tag_lines(decode_utf8(input)))
    }

    open spec fn failure(input: Seq<u8>) -> ParseErrorView {
        if !valid_utf8(input) {
            ParseErrorView::Io(not_text_message())
        } else if decode_utf8(input).len() == 0 {
            ParseErrorView::InvalidFormat(empty_mt940_message())
        } else {
            ParseErrorView::InvalidFormat(unclosed_tag_message())
        }
    }

    fn parse(input: &[u8]) -> (read: Result<Mt940Parser, ParseError>) {
        let text = match decode(input) {
            Some(text) => text,
            None => {
                return Err(not_text());
            },
        };
        if text.is_empty() {
            return Err(ParseError::InvalidFormat(String::from_str("MT940 input is empty")));
        }
        let chars = chars_of(text);
        let mut rest: &[char] = chars.as_slice();
        let mut data: Vec<Mt940Record> = Vec::new();
        let ghost mut done: Seq<Seq<char>> = Seq::empty();
        proof {
            assert(done + lines(rest@) =~= lines(text@));
            lemma_trimmed_tags_none();
            assert(record_views(data@) =~= records_of(trimmed_tags(done)));
        }
        loop
            invariant_except_break
                lines(text@) == done + lines(rest@),
            invariant
                valid_utf8(input@),
                text@ == decode_utf8(input@),
                text@.len() > 0,
                all_closed(trimmed_tags(done)),
                record_views(data@) == records_of(trimmed_tags(done)),
            ensures
                lines(text@) == done,
            decreases rest@.len(),
        {
            let end = find_char(rest, '\n', 0);
            let line = trimmed(slice_subrange(rest, 0, end));
            let ghost raw = rest@.take(end as int);
            let ghost later = if end < rest@.len() {
                lines(rest@.skip(end + 1))
            } else {
                Seq::<Seq<char>>::empty()
            };
            proof {
                lemma_find_from(rest@, '\n', 0);
                assert(rest@.subrange(0, end as int) == raw);
                if end >= rest@.len() {
                    assert(raw == rest@);
                }
                assert(lines(rest@) =~= seq![raw] + later);
                assert(lines(text@) =~= done.push(raw) + later);
                lemma_trimmed_tags_add(done.push(raw), later);
                assert(done.push(raw) =~= done + seq![raw]);
                lemma_trimmed_tags_add(done, seq![raw]);
                lemma_trimmed_tags_one(raw);
            }
            if line.len() > 0 && line[0] == ':' {
                let close = find_char(line, ':', 1);
                let ghost kept = trimmed_tags(done);
                proof {
                    assert(trimmed_tags(done.push(raw)) =~= kept.push(line@));
                }
                if close >= line.len() {
                    proof {
                        assert(tag_lines(text@)[kept.len() as int] == line@);
                        assert(!is_closed(tag_lines(text@)[kept.len() as int]));
                    }
                    return Err(
                        ParseError::InvalidFormat(
                            String::from_str("MT940 line has no `:` after its tag"),
                        ),
                    );
                }
                proof {
                    lemma_find_from(line@, ':', 1);
                    assert(line@.subrange(close + 1, line@.len() as int) == line@.skip(close + 1));
                }
                let record = Mt940Record {
                    tag: string_of(slice_subrange(line, 1, close)),
                    value: string_of(slice_subrange(line, close + 1, line.len())),
                };
                let ghost before = data@;
                let ghost added = record@;
                assert(added == record_of(line@));
                data.push(record);
                proof {
                    assert(record_views(data@) =~= record_views(before).push(added));
                    assert(records_of(kept.push(line@)) =~= records_of(kept).push(
                        record_of(line@),
                    ));
                }
            } else {
                proof {
                    assert(trimmed_tags(done.push(raw)) =~= trimmed_tags(done));
                }
            }
            proof {
                done = done.push(raw);
            }
            if end >= rest.len() {
                proof {
                    assert(later.len() == 0);
                    assert(done + later =~= done);
                }
                break ;
            }
            rest = slice_subrange(rest, end + 1, rest.len());
        }
        Ok(Mt940Parser { data })
    }
}

/// A CAMT.053 statement: its whole text. Nothing of the XML inside is
/// taken apart.
#[derive(Debug)]
pub struct Camt053Parser {
    pub data: String,
}

impl View for Camt053Parser {
    type V = Seq<char>;

    open spec fn view(&self) -> Seq<char> {
        self.data@
    }
}

/// Whether the first character of `text` that is no white space is `<`.
pub open spec fn opens_with_angle(text: Seq<char>) -> bool {
    trim_start(text).len() > 0 && trim_start(text)[0] == '<'
}

/// The message for a text that does not begin as XML does.
pub open spec fn not_xml_message() -> Seq<char> {
    "CAMT.053 input does not begin with `<`"@
}

impl Parser for Camt053Parser {
    /// A CAMT.053 statement is any text that begins, after white space, with
    /// `<`.
    open spec fn accepts(input: Seq<u8>) -> bool {
        valid_utf8(input) && opens_with_angle(decode_utf8(input))
    }

    /// It holds the text as it came, white space included.
    open spec fn document(input: Seq<u8>) -> Seq<char> {
        decode_utf8(input)
    }

    open spec fn failure(input: Seq<u8>) -> ParseErrorView {
        if !valid_utf8(input) {
            ParseErrorView::Io(not_text_message())
        } else {
            ParseErrorView::InvalidFormat(not_xml_message())
        }
    }

    fn parse(input: &[u8]) -> (read: Result<Camt053Parser, ParseError>) {
        let text = match decode(input) {
            Some(text) => text,
            None => {
                return Err(not_text());
            },
        };
        let chars = chars_of(text);
        let mut at: usize = 0;
        proof {
            assert(chars@.skip(0) == chars@);
        }
        while at < chars.len() && is_whitespace_char(chars[at])
            invariant
                at <= chars@.len(),
                trim_start(chars@) == trim_start(chars@.skip(at as int)),
            decreases chars@.len() - at,
        {
            proof {
                assert(chars@.skip(at as int).drop_first() == chars@.skip(at + 1));
            }
            at += 1;
        }
        assert(trim_start(chars@) == chars@.skip(at as int));
        if at < chars.len() && chars[at] == '<' {
            Ok(Camt053Parser { data: String::from_str(text) })
        } else {
            Err(
                ParseError::InvalidFormat(
                    String::from_str("CAMT.053 input does not begin with `<`"),
                ),
            )
        }
    }
}

} // verus!
