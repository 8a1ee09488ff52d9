//! Serializers: from the list of transactions to the text of each format.

use vstd::prelude::*;
use vstd::string::StringExecFns;
use crate::model::{views, Transaction, TransactionView};
use crate::text::chars_of;

verus! {

/// A statement format that transactions can be written in.
pub trait ToFormat {
    /// The text of `txs` in this format.
    spec fn rendered(txs: Seq<TransactionView>) -> Seq<char>;

    /// Writes `txs` in this format. An empty list is written too.
    fn from_transactions(txs: &[Transaction]) -> (out: String)
        ensures
            out@ == Self::rendered(views(txs@)),
    ;
}

/// Whether `c` is one of the characters that force a CSV field into
/// quotes: the comma, the double quote, the line feed and the carriage
/// return.
pub open spec fn is_special(c: char) -> bool {
    c == ',' || c == '"' || c == '\n' || c == '\r'
}

/// Whether a CSV field must be written in quotes.
pub open spec fn needs_quotes(field: Seq<char>) -> bool {
    exists|i: int| 0 <= i < field.len() && is_special(#[trigger] field[i])
}

/// `field` with every double quote written twice.
pub open spec fn doubled_quotes(field: Seq<char>) -> Seq<char>
    decreases field.len(),
{
    if field.len() == 0 {
        Seq::empty()
    } else if field.last() == '"' {
        doubled_quotes(field.drop_last()) + seq!['"', '"']
    } else {
        doubled_quotes(field.drop_last()).push(field.last())
    }
}

/// A field as CSV writes it: as it is where nothing in it is special, and
/// else between double quotes with each double quote inside written twice.
pub open spec fn escaped_field(field: Seq<char>) -> Seq<char> {
    if needs_quotes(field) {
        seq!['"'] + doubled_quotes(field) + seq!['"']
    } else {
        field
    }
}

/// Writes one field of a CSV line.
pub fn escape_csv_field(field: &str) -> (out: String)
    ensures
        out@ == escaped_field(field@),
{
    let chars = chars_of(field);
    let mut special = false;
    let mut i: usize = 0;
    while i < chars.len()
        invariant
            i <= chars@.len(),
            special <==> needs_quotes(chars@.take(i as int)),
        decreases chars@.len() - i,
    {
        let c = chars[i];
        proof {
            let before = chars@.take(i as int);
            let after = chars@.take(i + 1);
            assert(after == before.push(c));
            if needs_quotes(before) {
                let j = choose|j: int| 0 <= j < before.len() && is_special(#[trigger] before[j]);
                assert(is_special(after[j]));
            }
            if is_special(c) {
                assert(is_special(after[i as int]));
            }
            if needs_quotes(after) && !is_special(c) {
                let j = choose|j: int| 0 <= j < after.len() && is_special(#[trigger] after[j]);
                assert(is_special(before[j]));
            }
        }
        if c == ',' || c == '"' || c == '\n' || c == '\r' {
            special = true;
        }
        i += 1;
    }
    proof {
        assert(chars@.take(i as int) == chars@);
    }
    if !special {
        return String::from_str(field);
    }
    let mut out = String::new();
    out.push('"');
    let mut k: usize = 0;
    while k < chars.len()
        invariant
            k <= chars@.len(),
            out@ == seq!['"'] + doubled_quotes(chars@.take(k as int)),
        decreases chars@.len() - k,
    {
        let c = chars[k];
        proof {
            assert(chars@.take(k + 1).drop_last() == chars@.take(k as int));
        }
        if c == '"' {
            out.push('"');
            out.push('"');
            assert(out@ =~= seq!['"'] + doubled_quotes(chars@.take(k + 1)));
        } else {
            out.push(c);
            assert(out@ =~= seq!['"'] + doubled_quotes(chars@.take(k + 1)));
        }
        k += 1;
    }
    proof {
        assert(chars@.take(k as int) == chars@);
    }
    out.push('"');
    assert(out@ =~= escaped_field(field@));
    out
}

/// The first line of every CSV output.
pub const CSV_HEADER: &'static str = "reference,account,amount,currency,date,description";

/// The CSV line of one transaction, line feed included: its six fields
/// with commas between them, the amount as its shortest numeral.
pub open spec fn csv_line(tx: TransactionView) -> Seq<char> {
    escaped_field(tx.reference) + seq![','] + escaped_field(tx.account) + seq![',']
        + tx.amount.numeral() + seq![','] + escaped_field(tx.currency) + seq![',']
        + escaped_field(tx.value_date) + seq![','] + escaped_field(tx.description) + seq!['\n']
}

/// The CSV lines of `txs`, one after the other.
pub open spec fn csv_lines(txs: Seq<TransactionView>) -> Seq<char>
    decreases txs.len(),
{
    if txs.len() == 0 {
        Seq::empty()
    } else {
        csv_lines(txs.drop_last()) + csv_line(txs.last())
    }
}

/// The CSV line of `tx`.
fn csv_line_of(tx: &Transaction) -> (line: String)
    ensures
        line@ == csv_line(tx@),
{
    let reference = escape_csv_field(tx.reference.as_str());
    let account = escape_csv_field(tx.account.as_str());
    let amount = tx.amount.to_string();
    let currency = escape_csv_field(tx.currency.as_str());
    let value_date = escape_csv_field(tx.value_date.as_str());
    let description = escape_csv_field(tx.description.as_str());
    let mut line = reference;
    line.push(',');
    line.append(account.as_str());
    line.push(',');
    line.append(amount.as_str());
    line.push(',');
    line.append(currency.as_str());
    line.push(',');
    line.append(value_date.as_str());
    line.push(',');
    line.append(description.as_str());
    line.push('\n');
    assert(line@ =~= csv_line(tx@));
    line
}

/// The CSV ledger export.
pub struct CsvFormat;

impl ToFormat for CsvFormat {
    /// The header line, then one line for each transaction.
    open spec fn rendered(txs: Seq<TransactionView>) -> Seq<char> {
        CSV_HEADER@ + seq!['\n'] + csv_lines(txs)
    }

    fn from_transactions(txs: &[Transaction]) -> (out: String) {
        let mut out = String::from_str(CSV_HEADER);
        out.push('\n');
        let mut i: usize = 0;
        proof {
            assert(views(txs@).take(0) =~= Seq::<TransactionView>::empty());
            assert(out@ =~= CSV_HEADER@ + seq!['\n'] + csv_lines(views(txs@).take(0)));
        }
        while i < txs.len()
            invariant
                i <= txs@.len(),
                out@ == CSV_HEADER@ + seq!['\n'] + csv_lines(views(txs@).take(i as int)),
            decreases txs@.len() - i,
        {
            let line = csv_line_of(&txs[i]);
            proof {
                assert(views(txs@).take(i + 1).drop_last() =~= views(txs@).take(i as int));
                assert(views(txs@).take(i + 1).last() == txs@[i as int]@);
            }
            out.append(line.as_str());
            i += 1;
        }
        proof {
            assert(views(txs@).take(i as int) =~= views(txs@));
        }
        out
    }
}

/// What follows the amount on every movement line written: the transaction
/// type and the reference of the account owner.
pub const MOVEMENT_SUFFIX: &'static str = "NMSCNONREF";

/// The date of a movement line written when the value date is too short.
pub const MOVEMENT_DATE_UNKNOWN: &'static str = "000101";

/// The date of a movement line, `YYMMDD`: of a value date `YYYY-MM-DD` the
/// two last digits of the year, the month and the day. A value date of
/// less than ten characters gives `000101`.
pub open spec fn short_date(value_date: Seq<char>) -> Seq<char> {
    if value_date.len() >= 10 {
        value_date.subrange(2, 4) + value_date.subrange(5, 7) + value_date.subrange(8, 10)
    } else {
        MOVEMENT_DATE_UNKNOWN@
    }
}

/// The letter of a movement line: `D` for an amount below zero, `C`
/// otherwise.
pub open spec fn debit_credit(tx: TransactionView) -> char {
    if tx.amount.negative {
        'D'
    } else {
        'C'
    }
}

/// The movement line of a transaction: date, letter, the size of the
/// amount with two places, and the fixed suffix.
pub open spec fn movement_line(tx: TransactionView) -> Seq<char> {
    ":61:"@ + short_date(tx.value_date) + seq![debit_credit(tx)] + tx.amount.abs().fixed2()
        + MOVEMENT_SUFFIX@ + seq!['\n']
}

/// The narrative line of a transaction, if it has a description.
pub open spec fn narrative_line(tx: TransactionView) -> Seq<char> {
    if tx.description.len() > 0 {
        ":86:"@ + tx.description + seq!['\n']
    } else {
        Seq::empty()
    }
}

/// The reference line of a transaction.
pub open spec fn reference_line(tx: TransactionView) -> Seq<char> {
    ":20:"@ + tx.reference + seq!['\n']
}

/// The account line of a transaction.
pub open spec fn account_line(tx: TransactionView) -> Seq<char> {
    ":25:"@ + tx.account + seq!['\n']
}

/// The MT940 lines of one transaction, closed by a blank line.
pub open spec fn mt940_block(tx: TransactionView) -> Seq<char> {
    reference_line(tx) + account_line(tx) + movement_line(tx) + narrative_line(tx) + seq!['\n']
}

/// The MT940 blocks of `txs`, one after the other.
pub open spec fn mt940_blocks(txs: Seq<TransactionView>) -> Seq<char>
    decreases txs.len(),
{
    if txs.len() == 0 {
        Seq::empty()
    } else {
        mt940_blocks(txs.drop_last()) + mt940_block(txs.last())
    }
}

/// The date of the movement line for `value_date`.
fn short_date_of(value_date: &str) -> (out: String)
    ensures
        out@ == short_date(value_date@),
{
    let chars = chars_of(value_date);
    if chars.len() >= 10 {
        let mut out = String::new();
        out.push(chars[2]);
        out.push(chars[3]);
        out.push(chars[5]);
        out.push(chars[6]);
        out.push(chars[8]);
        out.push(chars[9]);
        assert(out@ =~= short_date(value_date@));
        out
    } else {
        String::from_str(MOVEMENT_DATE_UNKNOWN)
    }
}

/// The movement line of `tx`.
fn movement_line_of(tx: &Transaction) -> (line: String)
    ensures
        line@ == movement_line(tx@),
{
    let date = short_date_of(tx.value_date.as_str());
    let size = tx.amount.abs().to_fixed2();
    let mut line = String::from_str(":61:");
    line.append(date.as_str());
    line.push(if tx.amount.is_negative() { 'D' } else { 'C' });
    line.append(size.as_str());
    line.append(MOVEMENT_SUFFIX);
    line.push('\n');
    assert(line@ =~= movement_line(tx@));
    line
}

/// The narrative line of `tx`, if it has one.
fn narrative_line_of(tx: &Transaction) -> (line: String)
    ensures
        line@ == narrative_line(tx@),
{
    if !tx.description.as_str().is_empty() {
        let mut line = String::from_str(":86:");
        line.append(tx.description.as_str());
        line.push('\n');
        line
    } else {
        String::new()
    }
}

/// The MT940 lines of `tx`.
fn mt940_block_of(tx: &Transaction) -> (block: String)
    ensures
        block@ == mt940_block(tx@),
{
    let movement = movement_line_of(tx);
    let narrative = narrative_line_of(tx);
    let mut block = String::from_str(":20:");
    block.append(tx.reference.as_str());
    block.push('\n');
    assert(block@ == reference_line(tx@));
    let mut account = String::from_str(":25:");
    account.append(tx.account.as_str());
    account.push('\n');
    assert(account@ == account_line(tx@));
    block.append(account.as_str());
    block.append(movement.as_str());
    block.append(narrative.as_str());
    block.push('\n');
    block
}

/// The SWIFT MT940 statement.
pub struct Mt940Format;

impl ToFormat for Mt940Format {
    /// One block of lines for each transaction; nothing for no transaction.
    open spec fn rendered(txs: Seq<TransactionView>) -> Seq<char> {
        mt940_blocks(txs)
    }

    fn from_transactions(txs: &[Transaction]) -> (out: String) {
        let mut out = String::new();
        let mut i: usize = 0;
        proof {
            assert(views(txs@).take(0) =~= Seq::<TransactionView>::empty());
        }
        while i < txs.len()
            invariant
                i <= txs@.len(),
                out@ == mt940_blocks(views(txs@).take(i as int)),
            decreases txs@.len() - i,
        {
            let block = mt940_block_of(&txs[i]);
            proof {
                assert(views(txs@).take(i + 1).drop_last() =~= views(txs@).take(i as int));
                assert(views(txs@).take(i + 1).last() == txs@[i as int]@);
            }
            out.append(block.as_str());
            i += 1;
        }
        proof {
            assert(views(txs@).take(i as int) =~= views(txs@));
        }
        out
    }
}

/// `text` as XML character data: `&`, `<`, `>` and both quotes are written
/// as their entities, so that no text can open or close an element or an
/// attribute.
pub open spec fn xml_escaped(text: Seq<char>) -> Seq<char>
    decreases text.len(),
{
    if text.len() == 0 {
        Seq::empty()
    } else {
        xml_escaped(text.drop_last()) + xml_entity(text.last())
    }
}

/// How XML character data writes `c`.
pub open spec fn xml_entity(c: char) -> Seq<char> {
    if c == '&' {
        "&amp;"@
    } else if c == '<' {
        "&lt;"@
    } else if c == '>' {
        "&gt;"@
    } else if c == '"' {
        "&quot;"@
    } else if c == '\'' {
        "&apos;"@
    } else {
        seq![c]
    }
}

/// Writes `text` as XML character data.
pub fn escape_xml(text: &str) -> (out: String)
    ensures
        out@ == xml_escaped(text@),
{
    let chars = chars_of(text);
    let mut out = String::new();
    let mut i: usize = 0;
    while i < chars.len()
        invariant
            i <= chars@.len(),
            out@ == xml_escaped(chars@.take(i as int)),
        decreases chars@.len() - i,
    {
        let c = chars[i];
        proof {
            assert(chars@.take(i + 1).drop_last() == chars@.take(i as int));
        }
        if c == '&' {
            out.append("&amp;");
        } else if c == '<' {
            out.append("&lt;");
        } else if c == '>' {
            out.append("&gt;");
        } else if c == '"' {
            out.append("&quot;");
        } else if c == '\'' {
            out.append("&apos;");
        } else {
            out.push(c);
        }
        i += 1;
    }
    proof {
        assert(chars@.take(i as int) == chars@);
    }
    out
}

/// The whole document of a statement without a transaction.
pub const CAMT053_EMPTY: &'static str =
    "<Document xmlns=\"urn:iso:std:iso:20022:tech:xsd:camt.053.001.02\"></Document>";

/// The opening of a statement, up to its identifier.
pub const CAMT053_OPEN: &'static str =
    "\n            <Document xmlns=\"urn:iso:std:iso:20022:tech:xsd:camt.053.001.02\">\n            <BkToCstmrStmt>\n            <Stmt>\n            <Id>";

/// From the statement's identifier to that of its account.
pub const CAMT053_ACCOUNT: &'static str = "</Id>\n            <Acct>\n                <Id>";

/// From the account's identifier to the entries.
pub const CAMT053_ENTRIES: &'static str = "</Id>\n            </Acct>\n            \n";

/// The opening of an entry, up to its currency.
pub const CAMT053_ENTRY_OPEN: &'static str =
    "\n                <Ntry>\n                    <Amt Ccy=\"";

/// From an entry's amount to its reversal indicator.
pub const CAMT053_REVERSAL: &'static str = "</Amt>\n                    <RvslInd>";

/// From an entry's reversal indicator to its narrative.
pub const CAMT053_NARRATIVE: &'static str =
    "</RvslInd>\n                    <AddtlNtryInf>";

/// The closing of an entry.
pub const CAMT053_ENTRY_CLOSE: &'static str =
    "</AddtlNtryInf>\n                </Ntry>\n                \n";

/// The closing of a statement.
pub const CAMT053_CLOSE: &'static str =
    "\n            </Stmt>\n            </BkToCstmrStmt>\n            </Document>\n            \n";

/// The reversal indicator of a transaction: `true` for an amount below
/// zero, `false` otherwise.
pub open spec fn reversal(tx: TransactionView) -> Seq<char> {
    if tx.amount.negative {
        "true"@
    } else {
        "false"@
    }
}

/// The entry of one transaction: the size of its amount with its currency,
/// the reversal indicator and the description.
pub open spec fn camt053_entry(tx: TransactionView) -> Seq<char> {
    CAMT053_ENTRY_OPEN@ + xml_escaped(tx.currency) + "\">"@ + tx.amount.abs().numeral()
        + CAMT053_REVERSAL@ + reversal(tx) + CAMT053_NARRATIVE@ + xml_escaped(tx.description)
        + CAMT053_ENTRY_CLOSE@
}

/// The entries of `txs`, one after the other.
pub open spec fn camt053_entries(txs: Seq<TransactionView>) -> Seq<char>
    decreases txs.len(),
{
    if txs.len() == 0 {
        Seq::empty()
    } else {
        camt053_entries(txs.drop_last()) + camt053_entry(txs.last())
    }
}

/// The opening of the statement of `first` and the transactions after it:
/// the identifiers of the statement and of its account are the reference
/// and the account of `first`.
pub open spec fn camt053_head(first: TransactionView) -> Seq<char> {
    CAMT053_OPEN@ + xml_escaped(first.reference) + CAMT053_ACCOUNT@ + xml_escaped(first.account)
        + CAMT053_ENTRIES@
}

/// The opening of the statement of `first`.
fn camt053_head_of(first: &Transaction) -> (head: String)
    ensures
        head@ == camt053_head(first@),
{
    let statement = escape_xml(first.reference.as_str());
    let account = escape_xml(first.account.as_str());
    let mut head = String::from_str(CAMT053_OPEN);
    head.append(statement.as_str());
    head.append(CAMT053_ACCOUNT);
    head.append(account.as_str());
    head.append(CAMT053_ENTRIES);
    assert(head@ =~= camt053_head(first@));
    head
}

/// The entry of `tx`.
fn camt053_entry_of(tx: &Transaction) -> (entry: String)
    ensures
        entry@ == camt053_entry(tx@),
{
    let currency = escape_xml(tx.currency.as_str());
    let size = tx.amount.abs().to_string();
    let description = escape_xml(tx.description.as_str());
    let mut entry = String::from_str(CAMT053_ENTRY_OPEN);
    entry.append(currency.as_str());
    entry.append("\">");
    entry.append(size.as_str());
    entry.append(CAMT053_REVERSAL);
    entry.append(if tx.amount.is_negative() { "true" } else { "false" });
    entry.append(CAMT053_NARRATIVE);
    entry.append(description.as_str());
    entry.append(CAMT053_ENTRY_CLOSE);
    assert(entry@ =~= camt053_entry(tx@));
    entry
}

/// The ISO 20022 CAMT.053 statement.
pub struct Camt053Format;

impl ToFormat for Camt053Format {
    /// An empty document for no transaction; else one statement, named
    /// after the first transaction, with one entry for each transaction.
    open spec fn rendered(txs: Seq<TransactionView>) -> Seq<char> {
        if txs.len() == 0 {
            CAMT053_EMPTY@
        } else {
            camt053_head(txs[0]) + camt053_entries(txs) + CAMT053_CLOSE@
        }
    }

    fn from_transactions(txs: &[Transaction]) -> (out: String) {
        if txs.len() == 0 {
            return String::from_str(CAMT053_EMPTY);
        }
        let mut out = camt053_head_of(&txs[0]);
        let ghost head = out@;
        let mut i: usize = 0;
        proof {
            assert(views(txs@)[0] == txs@[0]@);
            assert(views(txs@).take(0) =~= Seq::<TransactionView>::empty());
            assert(out@ =~= head + camt053_entries(views(txs@).take(0)));
        }
        while i < txs.len()
            invariant
                i <= txs@.len(),
                out@ == head + camt053_entries(views(txs@).take(i as int)),
            decreases txs@.len() - i,
        {
            let entry = camt053_entry_of(&txs[i]);
            proof {
                assert(views(txs@).take(i + 1).drop_last() =~= views(txs@).take(i as int));
                assert(views(txs@).take(i + 1).last() == txs@[i as int]@);
            }
            out.append(entry.as_str());
            proof {
                assert(out@ =~= head + camt053_entries(views(txs@).take(i + 1)));
            }
            i += 1;
        }
        proof {
            assert(views(txs@).take(i as int) =~= views(txs@));
        }
        out.append(CAMT053_CLOSE);
        out
    }
}

} // verus!
