//! Canonicalization: from the records of each format to the list of
//! transactions.

use vstd::prelude::*;
use vstd::string::StringExecFns;
use crate::amount::{decimal, is_decimal, Amount, Decimal};
use crate::model::{unknown_currency, unknown_date, views, Transaction, TransactionView};
use crate::parser::{
    Camt053Parser, CsvParser, Mt940Parser, RecordView,
};
use crate::text::{chars_of, same_text};

verus! {

/// A document that can be turned into transactions.
pub trait FromParser: View {
    /// The transactions that the document `doc` stands for.
    spec fn canonical(doc: Self::V) -> Seq<TransactionView>;

    /// The transactions of this document, in the order of its records.
    fn to_transactions(&self) -> (txs: Vec<Transaction>)
        ensures
            views(txs@) == Self::canonical(self@),
    ;
}

/// Whether a CSV row has the three fields that a transaction is made of.
pub open spec fn is_complete(row: Seq<Seq<char>>) -> bool {
    row.len() >= 3
}

/// The transaction of a complete CSV row: reference, account and
/// description are its first three fields; a CSV row says nothing of money.
pub open spec fn row_transaction(row: Seq<Seq<char>>) -> TransactionView {
    TransactionView::bare(row[0], row[1], row[2])
}

/// The transactions of CSV rows none of which is a header: one for each
/// complete row, in order.
pub open spec fn rows_transactions(rows: Seq<Seq<Seq<char>>>) -> Seq<TransactionView> {
    rows.filter(|row: Seq<Seq<char>>| is_complete(row)).map_values(
        |row: Seq<Seq<char>>| row_transaction(row),
    )
}

/// Adding a row adds its transaction, if the row is complete.
pub proof fn lemma_rows_transactions_push(rows: Seq<Seq<Seq<char>>>, row: Seq<Seq<char>>)
    ensures
        rows_transactions(rows.push(row)) == if is_complete(row) {
            rows_transactions(rows).push(row_transaction(row))
        } else {
            rows_transactions(rows)
        },
{
    let p = |row: Seq<Seq<char>>| is_complete(row);
    let f = |row: Seq<Seq<char>>| row_transaction(row);
    rows.lemma_filter_push(row, p);
    if is_complete(row) {
        assert(rows.filter(p).push(row).map_values(f) =~= rows.filter(p).map_values(f).push(
            row_transaction(row),
        ));
    }
}

impl FromParser for CsvParser {
    /// The first row is the header and gives no transaction; every later row
    /// of three fields or more gives one, and shorter rows give none.
    open spec fn canonical(doc: Seq<Seq<Seq<char>>>) -> Seq<TransactionView> {
        if doc.len() == 0 {
            Seq::empty()
        } else {
            rows_transactions(doc.skip(1))
        }
    }

    fn to_transactions(&self) -> (txs: Vec<Transaction>) {
        let mut txs: Vec<Transaction> = Vec::new();
        if self.rows.len() == 0 {
            assert(views(txs@) =~= Seq::<TransactionView>::empty());
            return txs;
        }
        let ghost body = self@.skip(1);
        let mut i: usize = 1;
        proof {
            assert(body.take(0) =~= Seq::<Seq<Seq<char>>>::empty());
            assert(rows_transactions(body.take(0)) =~= Seq::<TransactionView>::empty()) by {
                body.take(0).lemma_filter_len(|row: Seq<Seq<char>>| is_complete(row));
            }
            assert(views(txs@) =~= rows_transactions(body.take(0)));
        }
        while i < self.rows.len()
            invariant
                1 <= i <= self.rows@.len(),
                body == self@.skip(1),
                views(txs@) == rows_transactions(body.take(i - 1)),
            decreases self.rows@.len() - i,
        {
            let row = &self.rows[i];
            let ghost before = txs@;
            proof {
                assert(body.take(i as int) =~= body.take(i - 1).push(row@));
                lemma_rows_transactions_push(body.take(i - 1), row@);
            }
            if row.row.len() >= 3 {
                let tx = Transaction::bare(
                    row.row[0].clone(),
                    row.row[1].clone(),
                    row.row[2].clone(),
                );
                assert(tx@ == row_transaction(row@));
                txs.push(tx);
                assert(views(txs@) =~= views(before).push(row_transaction(row@)));
            }
            i += 1;
        }
        proof {
            assert(body.take(i - 1) =~= body);
        }
        txs
    }
}

/// What a regular expression caught in a text: the text of each group, or
/// nothing for a group that took no part in the match. Group 0 is the whole
/// match.
#[derive(Debug)]
pub struct Captures {
    pub groups: Vec<Option<String>>,
}

/// The text of a group, if it took part.
pub open spec fn group_view(group: Option<String>) -> Option<Seq<char>> {
    match group {
        Some(text) => Some(text@),
        None => None,
    }
}

impl View for Captures {
    type V = Seq<Option<Seq<char>>>;

    open spec fn view(&self) -> Seq<Option<Seq<char>>> {
        self.groups@.map_values(|group: Option<String>| group_view(group))
    }
}

/// What a search found, if it found a match.
pub open spec fn found_view(found: Option<Captures>) -> Option<Seq<Option<Seq<char>>>> {
    match found {
        Some(captures) => Some(captures@),
        None => None,
    }
}

/// What each of several searches found.
pub open spec fn found_views(found: Seq<Option<Captures>>) -> Seq<Option<Seq<Option<Seq<char>>>>> {
    found.map_values(|one: Option<Captures>| found_view(one))
}

/// The groups of the leftmost match of the regular expression `pattern` in
/// `text`, as the `regex` crate finds them: nothing where the text has no
/// match or where `pattern` is no regular expression that the crate takes.
pub uninterp spec fn regex_captures(pattern: Seq<char>, text: Seq<char>) -> Option<
    Seq<Option<Seq<char>>>,
>;

/// Searches each of `texts` for `pattern`.
///
/// Compiles the pattern with `regex::Regex::new` and runs
/// `regex::Regex::captures` on each text in turn, handing out the text of
/// every group of `regex::Captures::iter`. The contract names what the crate
/// finds and claims only that this depends on nothing but the pattern and
/// the text searched.
#[verifier::external_body]
fn captures_each(pattern: &str, texts: &Vec<&str>) -> (found: Vec<Option<Captures>>)
    ensures
        found@.len() == texts@.len(),
        forall|i: int|
            0 <= i < texts@.len() ==> found_view(#[trigger] found@[i]) == regex_captures(
                pattern@,
                texts@[i]@,
            ),
{
    let compiled = regex::Regex::new(pattern).ok();
    texts.iter().map(
        |text| {
            let caught = compiled.as_ref()?.captures(text)?;
            let groups = caught.iter().map(|group| group.map(|m| m.as_str().to_string()));
            Some(Captures { groups: groups.collect() })
        },
    ).collect()
}

/// The pattern of a movement line: six to ten digits, `C` or `D`, at will
/// an `R`, and a run of digits and commas. Group 1 is the letter, group 2
/// the run.
pub const MOVEMENT_PATTERN: &'static str = "^[0-9]{6,10}(C|D)R?([0-9,]+)";

/// `s` with a point for every comma.
pub open spec fn commas_to_points(s: Seq<char>) -> Seq<char> {
    s.map_values(
        |c: char|
            if c == ',' {
                '.'
            } else {
                c
            },
    )
}

/// The amount of a movement line, given what the movement pattern caught in
/// it: the run of group 2 read as a decimal with a comma for the point,
/// below zero where group 1 is `D`. Zero where nothing was caught or the
/// run is no decimal.
pub open spec fn captured_amount(found: Option<Seq<Option<Seq<char>>>>) -> Decimal {
    match found {
        Some(groups) => {
            if groups.len() > 2 && groups[1] is Some && groups[2] is Some && is_decimal(
                commas_to_points(groups[2]->0),
            ) {
                let size = decimal(commas_to_points(groups[2]->0));
                if groups[1]->0 == "D"@ {
                    size.negated()
                } else {
                    size
                }
            } else {
                Decimal::zero()
            }
        },
        None => Decimal::zero(),
    }
}

/// The value date of a movement line: its first six characters `YYMMDD`
/// written as `20YY-MM-DD`, or the unknown date where the line is shorter.
pub open spec fn movement_date(value: Seq<char>) -> Seq<char> {
    if value.len() >= 6 {
        "20"@ + value.subrange(0, 2) + "-"@ + value.subrange(2, 4) + "-"@ + value.subrange(4, 6)
    } else {
        unknown_date()
    }
}

/// Where a statement stands after some of its records: the reference and
/// the account that hold now, and the transactions so far.
pub struct Grouping {
    pub reference: Seq<char>,
    pub account: Seq<char>,
    pub transactions: Seq<TransactionView>,
}

impl Grouping {
    /// Before any record: no reference, no account, no transaction.
    pub open spec fn start() -> Grouping {
        Grouping { reference: Seq::empty(), account: Seq::empty(), transactions: Seq::empty() }
    }

    /// The transaction that the movement line `value` opens.
    pub open spec fn movement(self, value: Seq<char>, amount: Decimal) -> TransactionView {
        TransactionView {
            reference: self.reference,
            account: self.account,
            amount,
            currency: unknown_currency(),
            value_date: movement_date(value),
            description: Seq::empty(),
        }
    }

    /// The state after one more record. Tag `20` sets the reference and `25`
    /// the account. Tag `61` opens a new transaction with the reference and
    /// the account that hold now; its amount is the one of `amounts` at the
    /// number of transactions before it, zero where there is none. Tag `86`
    /// is the narrative of the transaction opened last, and is dropped where
    /// none is open. Any other tag changes nothing.
    pub open spec fn step(self, record: RecordView, amounts: Seq<Decimal>) -> Grouping {
        if record.tag == "20"@ {
            Grouping { reference: record.value, ..self }
        } else if record.tag == "25"@ {
            Grouping { account: record.value, ..self }
        } else if record.tag == "61"@ {
            let k = self.transactions.len() as int;
            let amount = if k < amounts.len() {
                amounts[k]
            } else {
                Decimal::zero()
            };
            Grouping {
                transactions: self.transactions.push(self.movement(record.value, amount)),
                ..self
            }
        } else if record.tag == "86"@ && self.transactions.len() > 0 {
            let last = self.transactions.last();
            Grouping {
                transactions: self.transactions.drop_last().push(
                    TransactionView { description: record.value, ..last },
                ),
                ..self
            }
        } else {
            self
        }
    }

    /// The state after all of `records`, taken in order.
    pub open spec fn after(records: Seq<RecordView>, amounts: Seq<Decimal>) -> Grouping
        decreases records.len(),
    {
        if records.len() == 0 {
            Grouping::start()
        } else {
            Grouping::after(records.drop_last(), amounts).step(records.last(), amounts)
        }
    }
}

/// Whether a record is a movement line.
pub open spec fn is_movement(record: RecordView) -> bool {
    record.tag == "61"@
}

/// The values of the movement lines among `records`, in order.
pub open spec fn movement_values(records: Seq<RecordView>) -> Seq<Seq<char>> {
    records.filter(|record: RecordView| is_movement(record)).map_values(
        |record: RecordView| record.value,
    )
}

/// The amounts of what was caught in each movement line.
pub open spec fn captured_amounts(found: Seq<Option<Seq<Option<Seq<char>>>>>) -> Seq<Decimal> {
    found.map_values(|one: Option<Seq<Option<Seq<char>>>>| captured_amount(one))
}

/// What the movement pattern catches in each of `values`.
pub open spec fn movement_captures(values: Seq<Seq<char>>) -> Seq<
    Option<Seq<Option<Seq<char>>>>,
> {
    values.map_values(|value: Seq<char>| regex_captures(MOVEMENT_PATTERN@, value))
}

/// The views of texts, in order.
pub open spec fn text_views(texts: Seq<&str>) -> Seq<Seq<char>> {
    texts.map_values(|text: &str| text@)
}

/// `s` with a point for every comma.
fn with_points(s: &str) -> (out: Vec<char>)
    ensures
        out@ == commas_to_points(s@),
{
    let chars = chars_of(s);
    let mut out: Vec<char> = Vec::new();
    let mut i: usize = 0;
    while i < chars.len()
        invariant
            i <= chars@.len(),
            chars@ == s@,
            out@.len() == i,
            forall|j: int| 0 <= j < i ==> out@[j] == commas_to_points(s@)[j],
        decreases chars@.len() - i,
    {
        let c = chars[i];
        out.push(if c == ',' { '.' } else { c });
        i += 1;
    }
    assert(out@ =~= commas_to_points(s@));
    out
}

/// The amount of a movement line, given what the movement pattern caught in
/// it.
pub fn amount_of(found: &Option<Captures>) -> (amount: Amount)
    ensures
        amount@ == captured_amount(found_view(*found)),
{
    match found {
        Some(captures) => {
            if captures.groups.len() > 2 {
                match (&captures.groups[1], &captures.groups[2]) {
                    (Some(letter), Some(run)) => {
                        let text = with_points(run.as_str());
                        match Amount::parse_chars(text.as_slice()) {
                            Some(size) => {
                                if same_text(letter.as_str(), "D") {
                                    size.negated()
                                } else {
                                    size
                                }
                            },
                            None => Amount::zero(),
                        }
                    },
                    _ => Amount::zero(),
                }
            } else {
                Amount::zero()
            }
        },
        None => Amount::zero(),
    }
}

/// The value date of the movement line `value`.
pub fn date_of(value: &str) -> (date: String)
    ensures
        date@ == movement_date(value@),
{
    let chars = chars_of(value);
    if chars.len() >= 6 {
        let mut date = String::from_str("20");
        date.push(chars[0]);
        date.push(chars[1]);
        date.push('-');
        date.push(chars[2]);
        date.push(chars[3]);
        date.push('-');
        date.push(chars[4]);
        date.push(chars[5]);
        proof {
            reveal_strlit("-");
            assert(date@ =~= movement_date(value@));
        }
        date
    } else {
        String::from_str("1970-01-01")
    }
}

/// The amounts of what was caught, in order.
fn amounts_of(found: &Vec<Option<Captures>>) -> (amounts: Vec<Amount>)
    ensures
        amount_views(amounts@) == captured_amounts(found_views(found@)),
{
    let mut amounts: Vec<Amount> = Vec::new();
    let mut i: usize = 0;
    while i < found.len()
        invariant
            i <= found@.len(),
            amounts@.len() == i,
            forall|j: int|
                0 <= j < i ==> (#[trigger] amounts@[j])@ == captured_amount(found_view(found@[j])),
        decreases found@.len() - i,
    {
        amounts.push(amount_of(&found[i]));
        i += 1;
    }
    assert(amount_views(amounts@) =~= captured_amounts(found_views(found@)));
    amounts
}

/// The views of amounts, in order.
pub open spec fn amount_views(amounts: Seq<Amount>) -> Seq<Decimal> {
    amounts.map_values(|amount: Amount| amount@)
}

impl Mt940Parser {
    /// The texts of the movement lines, in order.
    fn movement_texts(&self) -> (texts: Vec<&str>)
        ensures
            text_views(texts@) == movement_values(self@),
    {
        let mut texts: Vec<&str> = Vec::new();
        let mut i: usize = 0;
        let ghost p = |record: RecordView| is_movement(record);
        proof {
            assert(self@.take(0) =~= Seq::<RecordView>::empty());
            self@.take(0).lemma_filter_len(p);
            assert(text_views(texts@) =~= movement_values(self@.take(0)));
        }
        while i < self.data.len()
            invariant
                i <= self.data@.len(),
                p == |record: RecordView| is_movement(record),
                text_views(texts@) == movement_values(self@.take(i as int)),
            decreases self.data@.len() - i,
        {
            let record = &self.data[i];
            let ghost before = texts@;
            proof {
                assert(self@.take(i + 1) =~= self@.take(i as int).push(record@));
                self@.take(i as int).lemma_filter_push(record@, p);
            }
            if same_text(record.tag.as_str(), "61") {
                texts.push(record.value.as_str());
                proof {
                    assert(text_views(texts@) =~= text_views(before).push(record.value@));
                    assert(movement_values(self@.take(i + 1)) =~= movement_values(
                        self@.take(i as int),
                    ).push(record.value@));
                }
            }
            i += 1;
        }
        proof {
            assert(self@.take(i as int) =~= self@);
        }
        texts
    }

    /// The transactions of this statement, given the amount of each of its
    /// movement lines in order. A movement line for which `amounts` has no
    /// item gets the amount zero.
    pub fn transactions_with(&self, amounts: &Vec<Amount>) -> (txs: Vec<Transaction>)
        ensures
            views(txs@) == Grouping::after(self@, amount_views(amounts@)).transactions,
    {
        let mut reference = String::new();
        let mut account = String::new();
        let mut txs: Vec<Transaction> = Vec::new();
        let ghost given = amount_views(amounts@);
        let mut i: usize = 0;
        proof {
            assert(self@.take(0) =~= Seq::<RecordView>::empty());
            assert(views(txs@) =~= Seq::<TransactionView>::empty());
        }
        while i < self.data.len()
            invariant
                i <= self.data@.len(),
                given == amount_views(amounts@),
                Grouping::after(self@.take(i as int), given) == (Grouping {
                    reference: reference@,
                    account: account@,
                    transactions: views(txs@),
                }),
            decreases self.data@.len() - i,
        {
            let record = &self.data[i];
            let ghost state = Grouping::after(self@.take(i as int), given);
            let ghost before = txs@;
            proof {
                assert(self@.take(i + 1).drop_last() =~= self@.take(i as int));
                assert(self@.take(i + 1).last() == record@);
                assert(Grouping::after(self@.take(i + 1), given) == state.step(record@, given));
            }
            if same_text(record.tag.as_str(), "20") {
                reference = record.value.clone();
            } else if same_text(record.tag.as_str(), "25") {
                account = record.value.clone();
            } else if same_text(record.tag.as_str(), "61") {
                let k = txs.len();
                let amount = if k < amounts.len() {
                    amounts[k].clone()
                } else {
                    Amount::zero()
                };
                let tx = Transaction {
                    reference: reference.clone(),
                    account: account.clone(),
                    amount,
                    currency: String::from_str("XXX"),
                    value_date: date_of(record.value.as_str()),
                    description: String::new(),
                };
                txs.push(tx);
                proof {
                    assert(views(txs@) =~= views(before).push(tx@));
                }
            } else if same_text(record.tag.as_str(), "86") {
                match txs.pop() {
                    Some(last) => {
                        let ghost front = txs@;
                        let tx = Transaction {
                            reference: last.reference,
                            account: last.account,
                            amount: last.amount,
                            currency: last.currency,
                            value_date: last.value_date,
                            description: record.value.clone(),
                        };
                        txs.push(tx);
                        proof {
                            assert(views(front) =~= views(before).drop_last());
                            assert(views(txs@) =~= views(front).push(tx@));
                        }
                    },
                    None => {},
                }
            }
            i += 1;
        }
        proof {
            assert(self@.take(i as int) =~= self@);
        }
        txs
    }
}

impl FromParser for Mt940Parser {
    /// The records are taken in order, each changing the state as
    /// [`Grouping::step`] says; the amount of each movement line is the one
    /// of what the movement pattern catches in it.
    open spec fn canonical(doc: Seq<RecordView>) -> Seq<TransactionView> {
        Grouping::after(
            doc,
            captured_amounts(movement_captures(movement_values(doc))),
        ).transactions
    }

    fn to_transactions(&self) -> (txs: Vec<Transaction>) {
        let texts = self.movement_texts();
        let found = captures_each(MOVEMENT_PATTERN, &texts);
        proof {
            assert(found_views(found@) =~= movement_captures(movement_values(self@)));
        }
        let amounts = amounts_of(&found);
        self.transactions_with(&amounts)
    }
}

/// The one transaction that stands for a CAMT.053 statement.
pub open spec fn camt053_placeholder() -> TransactionView {
    TransactionView::bare("CAMT_REF"@, "CAMT_ACC"@, "Parsed from CAMT.053"@)
}

impl FromParser for Camt053Parser {
    /// Whatever the statement holds, it stands for one placeholder
    /// transaction: the entries inside the XML are not read.
    open spec fn canonical(doc: Seq<char>) -> Seq<TransactionView> {
        seq![camt053_placeholder()]
    }

    fn to_transactions(&self) -> (txs: Vec<Transaction>) {
        let mut txs: Vec<Transaction> = Vec::new();
        txs.push(
            Transaction::bare(
                String::from_str("CAMT_REF"),
                String::from_str("CAMT_ACC"),
                String::from_str("Parsed from CAMT.053"),
            ),
        );
        assert(views(txs@) =~= seq![camt053_placeholder()]);
        txs
    }
}

} // verus!
