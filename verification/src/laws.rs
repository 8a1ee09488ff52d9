//! What holds of the formats taken together, proved from the definitions
//! that the contracts are stated in.

use vstd::prelude::*;
use vstd::utf8::{decode_utf8, valid_utf8};
use crate::amount::{
    decimal, has_sign, is_decimal, is_digit, unsigned_decimal, unsigned_part, Decimal,
};
use crate::convert::{canonical_of, converted, Format};
use crate::error::{ConvertErrorView, ParseErrorView};
use crate::from_parser::{
    captured_amount, captured_amounts, movement_captures, commas_to_points, is_complete, is_movement, lemma_rows_transactions_push,
    movement_date, movement_values, row_transaction, rows_transactions, FromParser, Grouping,
};
use crate::model::{unknown_date, TransactionView};
use crate::parser::{
    empty_csv_message, empty_mt940_message, not_xml_message, opens_with_angle, Camt053Parser,
    CsvParser, Mt940Parser, Parser, RecordView,
};
use crate::to_format::{doubled_quotes, escaped_field, is_special, needs_quotes};

verus! {

/// A CSV document of a header and one row of three fields or more stands
/// for exactly one transaction, the one of that row: the header gives none.
pub proof fn lemma_header_gives_no_transaction(doc: Seq<Seq<Seq<char>>>)
    requires
        doc.len() == 2,
        is_complete(doc[1]),
    ensures
        CsvParser::canonical(doc) == seq![row_transaction(doc[1])],
{
    let none = Seq::<Seq<Seq<char>>>::empty();
    assert(doc.skip(1) =~= none.push(doc[1]));
    lemma_rows_transactions_push(none, doc[1]);
    lemma_no_rows_no_transactions();
    assert(rows_transactions(none).push(row_transaction(doc[1])) =~= seq![
        row_transaction(doc[1]),
    ]);
}

/// No rows stand for no transactions.
pub proof fn lemma_no_rows_no_transactions()
    ensures
        rows_transactions(Seq::empty()) == Seq::<TransactionView>::empty(),
{
    let none = Seq::<Seq<Seq<char>>>::empty();
    none.lemma_filter_len(|row: Seq<Seq<char>>| is_complete(row));
    assert(rows_transactions(none) =~= Seq::<TransactionView>::empty());
}

/// A CSV row of fewer than three fields is passed over: the document stands
/// for the same transactions with it as without it.
pub proof fn lemma_short_row_is_skipped(doc: Seq<Seq<Seq<char>>>, row: Seq<Seq<char>>)
    requires
        doc.len() >= 1,
        !is_complete(row),
    ensures
        CsvParser::canonical(doc.push(row)) == CsvParser::canonical(doc),
{
    assert(doc.push(row).skip(1) =~= doc.skip(1).push(row));
    lemma_rows_transactions_push(doc.skip(1), row);
}

/// A CSV document never stands for more transactions than it has rows
/// after the header.
pub proof fn lemma_at_most_one_transaction_per_row(doc: Seq<Seq<Seq<char>>>)
    requires
        doc.len() >= 1,
    ensures
        CsvParser::canonical(doc).len() <= doc.len() - 1,
{
    doc.skip(1).lemma_filter_len(|row: Seq<Seq<char>>| is_complete(row));
}

/// The tags that the state machine knows are four different texts.
pub proof fn lemma_tags_differ()
    ensures
        "20"@ != "25"@,
        "20"@ != "61"@,
        "20"@ != "86"@,
        "25"@ != "61"@,
        "25"@ != "86"@,
        "61"@ != "86"@,
{
    reveal_strlit("20");
    reveal_strlit("25");
    reveal_strlit("61");
    reveal_strlit("86");
    assert("20"@[0] == '2' && "25"@[1] == '5' && "20"@[1] == '0');
    assert("61"@[0] == '6' && "86"@[0] == '8');
}

/// Every movement line opens a transaction of its own, and nothing else
/// opens one: an MT940 statement stands for as many transactions as it has
/// records of tag `61`, whatever their amounts.
pub proof fn lemma_one_transaction_per_movement(records: Seq<RecordView>, amounts: Seq<Decimal>)
    ensures
        Grouping::after(records, amounts).transactions.len() == movement_values(records).len(),
    decreases records.len(),
{
    let p = |record: RecordView| is_movement(record);
    lemma_tags_differ();
    if records.len() == 0 {
        records.lemma_filter_len(p);
    } else {
        let front = records.drop_last();
        lemma_one_transaction_per_movement(front, amounts);
        assert(records =~= front.push(records.last()));
        front.lemma_filter_push(records.last(), p);
    }
}

/// The transactions of an MT940 statement are as many as its movement
/// lines, whatever the pattern catches in them.
pub proof fn lemma_mt940_multiplicity(doc: Seq<RecordView>)
    ensures
        Mt940Parser::canonical(doc).len() == movement_values(doc).len(),
{
    lemma_one_transaction_per_movement(
        doc,
        captured_amounts(movement_captures(movement_values(doc))),
    );
}

/// Whether two lists of transactions differ in their amounts at most.
pub open spec fn same_but_amounts(a: Seq<TransactionView>, b: Seq<TransactionView>) -> bool {
    &&& a.len() == b.len()
    &&& forall|i: int|
        0 <= i < a.len() ==> (#[trigger] a[i]) == (TransactionView { amount: a[i].amount, ..b[i] })
}

/// The amounts of the movement lines decide the amounts of the
/// transactions and nothing else: with other amounts the state machine
/// comes to the same reference and account, and to transactions that are
/// the same in everything but their amounts.
pub proof fn lemma_amounts_decide_amounts_only(
    records: Seq<RecordView>,
    first: Seq<Decimal>,
    second: Seq<Decimal>,
)
    ensures
        Grouping::after(records, first).reference == Grouping::after(records, second).reference,
        Grouping::after(records, first).account == Grouping::after(records, second).account,
        same_but_amounts(
            Grouping::after(records, first).transactions,
            Grouping::after(records, second).transactions,
        ),
    decreases records.len(),
{
    if records.len() > 0 {
        lemma_amounts_decide_amounts_only(records.drop_last(), first, second);
        let a0 = Grouping::after(records.drop_last(), first).transactions;
        let b0 = Grouping::after(records.drop_last(), second).transactions;
        let a = Grouping::after(records, first).transactions;
        let b = Grouping::after(records, second).transactions;
        assert forall|i: int| 0 <= i < a.len() implies (#[trigger] a[i]) == (TransactionView {
            amount: a[i].amount,
            ..b[i]
        }) by {
            if i < a0.len() {
                assert(a0[i] == (TransactionView { amount: a0[i].amount, ..b0[i] }));
            }
        }
    }
}

/// Whether `run` is made of digits and commas only, as the run that the
/// movement pattern catches is.
pub open spec fn is_digit_run(run: Seq<char>) -> bool {
    forall|i: int| 0 <= i < run.len() ==> is_digit(#[trigger] run[i]) || run[i] == ','
}

/// The sign of a movement follows its letter: where the pattern caught the
/// letter `D` and a run that is a decimal, the amount is that decimal below
/// zero (or zero); where it caught any other letter, the amount is that
/// decimal and not below zero.
pub proof fn lemma_sign_follows_letter(groups: Seq<Option<Seq<char>>>)
    requires
        groups.len() > 2,
        groups[1] is Some,
        groups[2] is Some,
        is_digit_run(groups[2]->0),
        is_decimal(commas_to_points(groups[2]->0)),
    ensures
        ({
            let amount = captured_amount(Some(groups));
            let size = unsigned_decimal(commas_to_points(groups[2]->0));
            &&& amount.whole == size.whole
            &&& amount.fraction == size.fraction
            &&& amount.negative <==> groups[1]->0 == "D"@ && !size.is_zero()
        }),
{
    let run = groups[2]->0;
    let text = commas_to_points(run);
    if run.len() > 0 {
        assert(is_digit(run[0]) || run[0] == ',');
        assert(text[0] == run[0] || text[0] == '.');
    }
    assert(!has_sign(text));
    assert(unsigned_part(text) == text);
}

/// The CSV and the MT940 reader refuse an input without a byte, each with
/// a format error.
pub proof fn lemma_empty_input_is_refused()
    ensures
        !CsvParser::accepts(Seq::empty()),
        CsvParser::failure(Seq::empty()) == ParseErrorView::InvalidFormat(empty_csv_message()),
        !Mt940Parser::accepts(Seq::empty()),
        Mt940Parser::failure(Seq::empty()) == ParseErrorView::InvalidFormat(
            empty_mt940_message(),
        ),
        !Camt053Parser::accepts(Seq::empty()),
        Camt053Parser::failure(Seq::empty()) == ParseErrorView::InvalidFormat(not_xml_message()),
{
    let none = Seq::<u8>::empty();
    assert(valid_utf8(none));
    assert(decode_utf8(none) =~= Seq::<char>::empty());
}

/// The CAMT.053 reader refuses, with a format error, every text whose
/// first character after white space is not `<`.
pub proof fn lemma_camt053_needs_angle(input: Seq<u8>)
    requires
        valid_utf8(input),
        !opens_with_angle(decode_utf8(input)),
    ensures
        !Camt053Parser::accepts(input),
        Camt053Parser::failure(input) == ParseErrorView::InvalidFormat(not_xml_message()),
{
}

/// A conversion from CSV or MT940 of an input without a byte fails with the
/// reader's format error and gives no text, whatever the format asked for.
pub proof fn lemma_empty_input_converts_to_nothing(to: Format)
    ensures
        converted(Seq::empty(), Format::Csv, to) == Err::<Seq<char>, ConvertErrorView>(
            ConvertErrorView::Parse(ParseErrorView::InvalidFormat(empty_csv_message())),
        ),
        converted(Seq::empty(), Format::Mt940, to) == Err::<Seq<char>, ConvertErrorView>(
            ConvertErrorView::Parse(ParseErrorView::InvalidFormat(empty_mt940_message())),
        ),
{
    lemma_empty_input_is_refused();
}

/// The value date of a movement line is always ten characters long.
pub proof fn lemma_movement_date_length(value: Seq<char>)
    ensures
        movement_date(value).len() == 10,
        unknown_date().len() == 10,
{
    reveal_strlit("20");
    reveal_strlit("-");
    reveal_strlit("1970-01-01");
}

/// Whether every transaction of `txs` has a value date of ten characters.
pub open spec fn dates_have_ten_characters(txs: Seq<TransactionView>) -> bool {
    forall|i: int| 0 <= i < txs.len() ==> (#[trigger] txs[i]).value_date.len() == 10
}

/// Every transaction that the state machine opens has a value date of ten
/// characters, and a narrative does not change it.
pub proof fn lemma_grouped_dates(records: Seq<RecordView>, amounts: Seq<Decimal>)
    ensures
        dates_have_ten_characters(Grouping::after(records, amounts).transactions),
    decreases records.len(),
{
    if records.len() > 0 {
        lemma_grouped_dates(records.drop_last(), amounts);
        lemma_movement_date_length(records.last().value);
        let before = Grouping::after(records.drop_last(), amounts).transactions;
        let after = Grouping::after(records, amounts).transactions;
        assert forall|i: int| 0 <= i < after.len() implies (#[trigger] after[i]).value_date.len()
            == 10 by {
            if i < before.len() {
                assert(after[i].value_date == before[i].value_date);
            }
        }
    }
}

/// Whatever is read, in whatever format, every transaction that comes of
/// it has a value date of ten characters: the date of its movement line, or
/// the unknown date.
pub proof fn lemma_value_dates_have_ten_characters(format: Format, input: Seq<u8>)
    ensures
        canonical_of(format, input) matches Ok(txs) ==> dates_have_ten_characters(txs),
{
    lemma_movement_date_length(Seq::empty());
    match format {
        Format::Csv => {
            let doc = CsvParser::document(input);
            if doc.len() > 0 {
                let p = |row: Seq<Seq<char>>| is_complete(row);
                let txs = rows_transactions(doc.skip(1));
                assert forall|i: int| 0 <= i < txs.len() implies (#[trigger] txs[i]).value_date
                    == unknown_date() by {
                    assert(txs[i] == row_transaction(doc.skip(1).filter(p)[i]));
                }
            }
        },
        Format::Mt940 => {
            let doc = Mt940Parser::document(input);
            lemma_grouped_dates(
                doc,
                captured_amounts(movement_captures(movement_values(doc))),
            );
        },
        Format::Camt053 => {},
    }
}

/// `s` with every pair of double quotes read as one.
pub open spec fn undoubled_quotes(s: Seq<char>) -> Seq<char>
    decreases s.len(),
{
    if s.len() == 0 {
        Seq::empty()
    } else if s.len() >= 2 && s[s.len() - 1] == '"' && s[s.len() - 2] == '"' {
        undoubled_quotes(s.take(s.len() - 2)).push('"')
    } else {
        undoubled_quotes(s.drop_last()).push(s.last())
    }
}

/// A written CSV field read back: what stands between the double quotes
/// around it, with doubled quotes read as one, or the text itself where it
/// is not in quotes.
pub open spec fn unquoted_field(written: Seq<char>) -> Seq<char> {
    if written.len() >= 2 && written[0] == '"' && written.last() == '"' {
        undoubled_quotes(written.subrange(1, written.len() - 1))
    } else {
        written
    }
}

/// Doubling the quotes of a field loses nothing.
pub proof fn lemma_doubling_is_reversible(field: Seq<char>)
    ensures
        undoubled_quotes(doubled_quotes(field)) == field,
    decreases field.len(),
{
    if field.len() > 0 {
        let front = field.drop_last();
        lemma_doubling_is_reversible(front);
        let written = doubled_quotes(field);
        if field.last() == '"' {
            assert(written.take(written.len() - 2) =~= doubled_quotes(front));
        } else {
            assert(written.drop_last() =~= doubled_quotes(front));
        }
        assert(front.push(field.last()) =~= field);
    }
}

/// Quoting is reversible: every field, whatever commas, quotes and line
/// breaks it holds, can be had back from what CSV output writes for it.
pub proof fn lemma_quoting_is_reversible(field: Seq<char>)
    ensures
        unquoted_field(escaped_field(field)) == field,
{
    let written = escaped_field(field);
    if needs_quotes(field) {
        lemma_doubling_is_reversible(field);
        assert(written.subrange(1, written.len() - 1) =~= doubled_quotes(field));
    } else {
        if field.len() > 0 {
            assert(!is_special(field[0]));
        }
    }
}

/// Two fields that are written alike are the same field.
pub proof fn lemma_quoting_tells_fields_apart(a: Seq<char>, b: Seq<char>)
    requires
        escaped_field(a) == escaped_field(b),
    ensures
        a == b,
{
    lemma_quoting_is_reversible(a);
    lemma_quoting_is_reversible(b);
}

} // verus!
