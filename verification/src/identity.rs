//! MT940 written and read again: the reader finds the records that the
//! serializer wrote, and the state machine groups them into transactions
//! with the references, accounts and narratives that went in.

use vstd::prelude::*;
use vstd::utf8::{encode_utf8, encode_utf8_decode_utf8, encode_utf8_valid_utf8};
use crate::amount::{chars_of_digits, Decimal};
use crate::convert::{converted, Format};
use crate::error::ConvertErrorView;
use crate::from_parser::{
    captured_amounts, is_complete, movement_captures, movement_values, rows_transactions,
    FromParser, Grouping,
};
use crate::laws::lemma_tags_differ;
use crate::model::{unknown_date, TransactionView};
use crate::parser::{
    all_closed, csv_records, is_closed, is_tag_line, lemma_trimmed_tags_add,
    lemma_trimmed_tags_one, record_of, records_of, tag_lines, trim_rows, CsvParser, Mt940Parser,
    Parser, RecordView,
};
use crate::text::{
    is_one_line, is_whitespace, lemma_find_from_is, lemma_lines_after_line, lemma_trim_is_trimmed,
    lemma_trim_keeps, lines, trim,
};
use crate::to_format::{
    account_line, debit_credit, movement_line, mt940_block, mt940_blocks, narrative_line,
    reference_line, short_date, Mt940Format, ToFormat, MOVEMENT_SUFFIX,
};

verus! {

/// Whether `s` does not end with white space.
pub open spec fn keeps_its_end(s: Seq<char>) -> bool {
    s.len() > 0 ==> !is_whitespace(s.last())
}

/// The line that writes a record: `:TAG:VALUE`.
pub open spec fn tagged_line(record: RecordView) -> Seq<char> {
    seq![':'] + record.tag + seq![':'] + record.value
}

/// Whether a record can be written on a line of its own and found again:
/// its tag holds no colon and no line feed, and its value is one line that
/// does not end with white space.
pub open spec fn is_writable(record: RecordView) -> bool {
    &&& forall|i: int| 0 <= i < record.tag.len() ==> record.tag[i] != ':' && record.tag[i] != '\n'
    &&& is_one_line(record.value)
    &&& keeps_its_end(record.value)
}

/// The line of a writable record is read as that record.
pub proof fn lemma_tagged_line_is_read(record: RecordView)
    requires
        is_writable(record),
    ensures
        is_one_line(tagged_line(record)),
        trim(tagged_line(record)) == tagged_line(record),
        is_tag_line(tagged_line(record)),
        is_closed(tagged_line(record)),
        record_of(tagged_line(record)) == record,
{
    let line = tagged_line(record);
    let close = record.tag.len() as int + 1;
    assert(line[0] == ':');
    assert(line[close] == ':');
    assert forall|i: int| 1 <= i < close implies line[i] != ':' by {
        assert(line[i] == record.tag[i - 1]);
    }
    lemma_find_from_is(line, ':', 1, close);
    assert(line.subrange(1, close) =~= record.tag);
    assert(line.skip(close + 1) =~= record.value);
    assert(!is_whitespace(':'));
    if record.value.len() > 0 {
        assert(line.last() == record.value.last());
    } else {
        assert(line.last() == ':');
    }
    lemma_trim_keeps(line);
    assert forall|i: int| 0 <= i < line.len() implies line[i] != '\n' by {
        if 1 <= i < close {
            assert(line[i] == record.tag[i - 1]);
        } else if i > close {
            assert(line[i] == record.value[i - close - 1]);
        }
    }
}

/// In front of any text, the line of a writable record adds that line to
/// the tagged lines.
pub proof fn lemma_tagged_line_in_front(record: RecordView, rest: Seq<char>)
    requires
        is_writable(record),
    ensures
        tag_lines(tagged_line(record) + seq!['\n'] + rest) == seq![tagged_line(record)]
            + tag_lines(rest),
{
    let line = tagged_line(record);
    lemma_tagged_line_is_read(record);
    lemma_lines_after_line(line, rest);
    lemma_trimmed_tags_add(seq![line], lines(rest));
    lemma_trimmed_tags_one(line);
}

/// In front of any text, a blank line adds nothing to the tagged lines.
pub proof fn lemma_blank_line_in_front(rest: Seq<char>)
    ensures
        tag_lines(seq!['\n'] + rest) == tag_lines(rest),
{
    let blank = Seq::<char>::empty();
    assert(blank + seq!['\n'] + rest =~= seq!['\n'] + rest);
    lemma_lines_after_line(blank, rest);
    lemma_trimmed_tags_add(seq![blank], lines(rest));
    lemma_trimmed_tags_one(blank);
    assert(Seq::<Seq<char>>::empty() + tag_lines(rest) =~= tag_lines(rest));
}

/// Whether a transaction can be written as MT940 lines and found again:
/// its reference, account and description are each one line that does not
/// end with white space, and its value date holds no line feed.
pub open spec fn fits_mt940(tx: TransactionView) -> bool {
    &&& is_one_line(tx.reference) && keeps_its_end(tx.reference)
    &&& is_one_line(tx.account) && keeps_its_end(tx.account)
    &&& is_one_line(tx.description) && keeps_its_end(tx.description)
    &&& is_one_line(tx.value_date)
}

/// The value of the movement line that is written for a transaction.
pub open spec fn movement_text(tx: TransactionView) -> Seq<char> {
    short_date(tx.value_date) + seq![debit_credit(tx)] + tx.amount.abs().fixed2()
        + MOVEMENT_SUFFIX@
}

/// The records that are written for a transaction: reference, account and
/// movement, and the narrative where the description is not empty.
pub open spec fn block_records(tx: TransactionView) -> Seq<RecordView> {
    seq![
        RecordView { tag: "20"@, value: tx.reference },
        RecordView { tag: "25"@, value: tx.account },
        RecordView { tag: "61"@, value: movement_text(tx) },
    ] + if tx.description.len() > 0 {
        seq![RecordView { tag: "86"@, value: tx.description }]
    } else {
        Seq::<RecordView>::empty()
    }
}

/// The records that are written for `txs`, in order.
pub open spec fn written_records(txs: Seq<TransactionView>) -> Seq<RecordView>
    decreases txs.len(),
{
    if txs.len() == 0 {
        Seq::empty()
    } else {
        written_records(txs.drop_last()) + block_records(txs.last())
    }
}

/// The lines that write `records`.
pub open spec fn tagged_lines(records: Seq<RecordView>) -> Seq<Seq<char>> {
    records.map_values(|record: RecordView| tagged_line(record))
}

/// No digit is written as a line feed.
proof fn lemma_digits_are_one_line(d: Seq<u8>)
    ensures
        is_one_line(chars_of_digits(d)),
{
}

/// A numeral with two places holds no line feed.
proof fn lemma_fixed2_is_one_line(d: Decimal)
    ensures
        is_one_line(d.fixed2()),
{
    let h = d.hundredths();
    lemma_digits_are_one_line(h.take(h.len() - 2));
    lemma_digits_are_one_line(h.skip(h.len() - 2));
}

/// The value of a written movement line is one line that ends with the
/// fixed suffix.
proof fn lemma_movement_text_is_writable(tx: TransactionView)
    requires
        is_one_line(tx.value_date),
    ensures
        is_one_line(movement_text(tx)),
        keeps_its_end(movement_text(tx)),
{
    reveal_strlit("NMSCNONREF");
    reveal_strlit("000101");
    lemma_fixed2_is_one_line(tx.amount.abs());
    let date = short_date(tx.value_date);
    let size = tx.amount.abs().fixed2();
    let text = movement_text(tx);
    assert(is_one_line(date));
    assert(text.last() == 'F');
    assert forall|i: int| 0 <= i < text.len() implies text[i] != '\n' by {
        if i < date.len() {
            assert(text[i] == date[i]);
        } else if i == date.len() {
        } else if i < date.len() + 1 + size.len() {
            assert(text[i] == size[i - date.len() - 1]);
        } else {
            assert(text[i] == MOVEMENT_SUFFIX@[i - date.len() - 1 - size.len()]);
        }
    }
}

/// The records written for a fitting transaction are all writable.
proof fn lemma_block_records_are_writable(tx: TransactionView)
    requires
        fits_mt940(tx),
    ensures
        forall|i: int|
            0 <= i < block_records(tx).len() ==> is_writable(#[trigger] block_records(tx)[i]),
{
    reveal_strlit("20");
    reveal_strlit("25");
    reveal_strlit("61");
    reveal_strlit("86");
    lemma_movement_text_is_writable(tx);
}

/// The four lines of a block are the lines of its records, each with its
/// line feed.
proof fn lemma_block_lines(tx: TransactionView)
    ensures
        reference_line(tx) == tagged_line(block_records(tx)[0]) + seq!['\n'],
        account_line(tx) == tagged_line(block_records(tx)[1]) + seq!['\n'],
        movement_line(tx) == tagged_line(block_records(tx)[2]) + seq!['\n'],
        tx.description.len() > 0 ==> narrative_line(tx) == tagged_line(block_records(tx)[3])
            + seq!['\n'],
{
    let records = block_records(tx);
    assert(reference_line(tx) =~= tagged_line(records[0]) + seq!['\n']) by {
        reveal_strlit("20");
        reveal_strlit(":20:");
    }
    assert(account_line(tx) =~= tagged_line(records[1]) + seq!['\n']) by {
        reveal_strlit("25");
        reveal_strlit(":25:");
    }
    assert(movement_line(tx) =~= tagged_line(records[2]) + seq!['\n']) by {
        reveal_strlit("61");
        reveal_strlit(":61:");
    }
    if tx.description.len() > 0 {
        assert(narrative_line(tx) =~= tagged_line(records[3]) + seq!['\n']) by {
            reveal_strlit("86");
            reveal_strlit(":86:");
        }
    }
}

/// A line with its line feed, in front of any text, adds the line of its
/// record to the tagged lines.
proof fn lemma_line_in_front(line: Seq<char>, record: RecordView, rest: Seq<char>)
    requires
        is_writable(record),
        line == tagged_line(record) + seq!['\n'],
    ensures
        tag_lines(line + rest) == seq![tagged_line(record)] + tag_lines(rest),
{
    assert(line + rest =~= tagged_line(record) + seq!['\n'] + rest);
    lemma_tagged_line_in_front(record, rest);
}

/// In front of any text, the block of a fitting transaction adds the lines
/// of its records to the tagged lines, and nothing else.
pub proof fn lemma_block_in_front(tx: TransactionView, rest: Seq<char>)
    requires
        fits_mt940(tx),
    ensures
        tag_lines(mt940_block(tx) + rest) == tagged_lines(block_records(tx)) + tag_lines(rest),
{
    lemma_block_records_are_writable(tx);
    lemma_block_lines(tx);
    let records = block_records(tx);
    let l0 = reference_line(tx);
    let l1 = account_line(tx);
    let l2 = movement_line(tx);
    let l3 = narrative_line(tx);
    let t4 = seq!['\n'] + rest;
    let t3 = l3 + t4;
    let t2 = l2 + t3;
    let t1 = l1 + t2;
    assert(mt940_block(tx) + rest == l0 + t1) by {
        assert(l0 + l1 + l2 + l3 + seq!['\n'] + rest =~= l0 + (l1 + (l2 + (l3 + (seq!['\n']
            + rest)))));
    }
    assert(is_writable(records[0]) && is_writable(records[1]) && is_writable(records[2]));
    lemma_line_in_front(l0, records[0], t1);
    lemma_line_in_front(l1, records[1], t2);
    lemma_line_in_front(l2, records[2], t3);
    lemma_blank_line_in_front(rest);
    if tx.description.len() > 0 {
        assert(is_writable(records[3]));
        lemma_line_in_front(l3, records[3], t4);
        assert(tagged_lines(records) =~= seq![tagged_line(records[0])] + (seq![
            tagged_line(records[1]),
        ] + (seq![tagged_line(records[2])] + seq![tagged_line(records[3])])));
        assert(tag_lines(l0 + t1) =~= tagged_lines(records) + tag_lines(rest));
    } else {
        assert(t3 =~= t4);
        assert(tagged_lines(records) =~= seq![tagged_line(records[0])] + (seq![
            tagged_line(records[1]),
        ] + seq![tagged_line(records[2])]));
        assert(tag_lines(l0 + t1) =~= tagged_lines(records) + tag_lines(rest));
    }
}

/// In front of any text, the blocks of fitting transactions add the lines
/// of their records to the tagged lines, and nothing else.
pub proof fn lemma_blocks_in_front(txs: Seq<TransactionView>, rest: Seq<char>)
    requires
        forall|i: int| 0 <= i < txs.len() ==> fits_mt940(#[trigger] txs[i]),
    ensures
        tag_lines(mt940_blocks(txs) + rest) == tagged_lines(written_records(txs)) + tag_lines(
            rest,
        ),
    decreases txs.len(),
{
    if txs.len() == 0 {
        assert(mt940_blocks(txs) + rest =~= rest);
        assert(tagged_lines(written_records(txs)) + tag_lines(rest) =~= tag_lines(rest));
    } else {
        let front = txs.drop_last();
        let last = txs.last();
        assert(mt940_blocks(txs) + rest =~= mt940_blocks(front) + (mt940_block(last) + rest));
        lemma_blocks_in_front(front, mt940_block(last) + rest);
        lemma_block_in_front(last, rest);
        assert(tagged_lines(written_records(txs)) =~= tagged_lines(written_records(front))
            + tagged_lines(block_records(last)));
    }
}

/// The records written for fitting transactions are all writable.
proof fn lemma_written_records_are_writable(txs: Seq<TransactionView>)
    requires
        forall|i: int| 0 <= i < txs.len() ==> fits_mt940(#[trigger] txs[i]),
    ensures
        forall|i: int|
            0 <= i < written_records(txs).len() ==> is_writable(#[trigger] written_records(txs)[i]),
    decreases txs.len(),
{
    if txs.len() > 0 {
        let front = written_records(txs.drop_last());
        let block = block_records(txs.last());
        lemma_written_records_are_writable(txs.drop_last());
        lemma_block_records_are_writable(txs.last());
        assert forall|i: int| 0 <= i < written_records(txs).len() implies is_writable(
            #[trigger] written_records(txs)[i],
        ) by {
            if i < front.len() {
                assert(written_records(txs)[i] == front[i]);
            } else {
                assert(written_records(txs)[i] == block[i - front.len()]);
            }
        }
    }
}

/// The reader finds in the MT940 text of fitting transactions exactly the
/// records that were written for them, in order.
pub proof fn lemma_mt940_reads_what_was_written(txs: Seq<TransactionView>)
    requires
        forall|i: int| 0 <= i < txs.len() ==> fits_mt940(#[trigger] txs[i]),
    ensures
        all_closed(tag_lines(Mt940Format::rendered(txs))),
        records_of(tag_lines(Mt940Format::rendered(txs))) == written_records(txs),
{
    let text = Mt940Format::rendered(txs);
    let none = Seq::<char>::empty();
    let records = written_records(txs);
    lemma_blocks_in_front(txs, none);
    assert(text + none =~= text);
    assert(tag_lines(none) =~= Seq::<Seq<char>>::empty()) by {
        assert(lines(none) =~= seq![none]);
        lemma_trimmed_tags_one(none);
    }
    assert(tag_lines(text) =~= tagged_lines(records));
    lemma_written_records_are_writable(txs);
    assert forall|i: int| 0 <= i < records.len() implies is_closed(
        #[trigger] tagged_lines(records)[i],
    ) && record_of(tagged_lines(records)[i]) == records[i] by {
        lemma_tagged_line_is_read(records[i]);
    }
    assert(records_of(tagged_lines(records)) =~= records);
}

/// One more record moves the state one step on.
pub proof fn lemma_after_one_more(
    records: Seq<RecordView>,
    record: RecordView,
    amounts: Seq<Decimal>,
)
    ensures
        Grouping::after(records.push(record), amounts) == Grouping::after(records, amounts).step(
            record,
            amounts,
        ),
{
    assert(records.push(record).drop_last() =~= records);
}

/// Whether the transactions `back` carry the references, accounts and
/// descriptions of `txs`, one for one.
pub open spec fn same_texts(back: Seq<TransactionView>, txs: Seq<TransactionView>) -> bool {
    &&& back.len() == txs.len()
    &&& forall|i: int|
        0 <= i < txs.len() ==> {
            &&& (#[trigger] back[i]).reference == txs[i].reference
            &&& back[i].account == txs[i].account
            &&& back[i].description == txs[i].description
        }
}

/// The state machine groups the records written for `txs` into as many
/// transactions, each with the reference, the account and the description
/// of its own, whatever the amounts.
pub proof fn lemma_written_records_are_grouped(txs: Seq<TransactionView>, amounts: Seq<Decimal>)
    ensures
        same_texts(Grouping::after(written_records(txs), amounts).transactions, txs),
    decreases txs.len(),
{
    lemma_tags_differ();
    if txs.len() > 0 {
        let front = txs.drop_last();
        let tx = txs.last();
        lemma_written_records_are_grouped(front, amounts);
        let r0 = written_records(front);
        let g0 = Grouping::after(r0, amounts);
        let b = block_records(tx);
        let r1 = r0.push(b[0]);
        let r2 = r1.push(b[1]);
        let r3 = r2.push(b[2]);
        lemma_after_one_more(r0, b[0], amounts);
        lemma_after_one_more(r1, b[1], amounts);
        lemma_after_one_more(r2, b[2], amounts);
        let g3 = Grouping::after(r3, amounts);
        assert(g3.transactions.len() == txs.len());
        assert(g3.transactions.last().reference == tx.reference);
        assert(g3.transactions.last().account == tx.account);
        assert(g3.transactions.last().description.len() == 0);
        assert(g3.transactions.drop_last() =~= g0.transactions);
        if tx.description.len() > 0 {
            let r4 = r3.push(b[3]);
            lemma_after_one_more(r3, b[3], amounts);
            assert(written_records(txs) =~= r4);
            let g4 = Grouping::after(r4, amounts);
            assert(g4.transactions.drop_last() =~= g0.transactions);
            assert forall|i: int| 0 <= i < txs.len() implies {
                &&& (#[trigger] g4.transactions[i]).reference == txs[i].reference
                &&& g4.transactions[i].account == txs[i].account
                &&& g4.transactions[i].description == txs[i].description
            } by {
                if i < front.len() {
                    assert(g4.transactions[i] == g0.transactions[i]);
                    assert(txs[i] == front[i]);
                }
            }
        } else {
            assert(written_records(txs) =~= r3);
            assert(tx.description =~= Seq::<char>::empty());
            assert forall|i: int| 0 <= i < txs.len() implies {
                &&& (#[trigger] g3.transactions[i]).reference == txs[i].reference
                &&& g3.transactions[i].account == txs[i].account
                &&& g3.transactions[i].description == txs[i].description
            } by {
                if i < front.len() {
                    assert(g3.transactions[i] == g0.transactions[i]);
                    assert(txs[i] == front[i]);
                }
            }
        }
    }
}

/// Format identity: the MT940 text of one or more fitting transactions is
/// accepted by the MT940 reader, and stands for as many transactions with
/// the same references, accounts and descriptions. Amounts, currencies and
/// dates need not come back.
pub proof fn lemma_mt940_keeps_texts(txs: Seq<TransactionView>)
    requires
        txs.len() > 0,
        forall|i: int| 0 <= i < txs.len() ==> fits_mt940(#[trigger] txs[i]),
    ensures
        Mt940Parser::accepts(encode_utf8(Mt940Format::rendered(txs))),
        same_texts(
            Mt940Parser::canonical(
                Mt940Parser::document(encode_utf8(Mt940Format::rendered(txs))),
            ),
            txs,
        ),
{
    let text = Mt940Format::rendered(txs);
    encode_utf8_valid_utf8(text);
    encode_utf8_decode_utf8(text);
    lemma_mt940_reads_what_was_written(txs);
    assert(text.len() > 0) by {
        assert(text == mt940_blocks(txs.drop_last()) + mt940_block(txs.last()));
        assert(mt940_block(txs.last()).last() == '\n');
    }
    let records = written_records(txs);
    lemma_written_records_are_grouped(
        txs,
        captured_amounts(movement_captures(movement_values(records))),
    );
}

/// Whether no field of `rows` ends with white space.
pub open spec fn fields_keep_their_ends(rows: Seq<Seq<Seq<char>>>) -> bool {
    forall|j: int, k: int|
        0 <= j < rows.len() && 0 <= k < rows[j].len() ==> keeps_its_end(#[trigger] rows[j][k])
}

/// Trimmed rows have no field that ends with white space.
proof fn lemma_trimmed_rows_keep_their_ends(rows: Seq<Seq<Seq<char>>>)
    ensures
        fields_keep_their_ends(trim_rows(rows)),
{
    assert forall|j: int, k: int|
        0 <= j < trim_rows(rows).len() && 0 <= k < trim_rows(rows)[j].len() implies keeps_its_end(
        #[trigger] trim_rows(rows)[j][k],
    ) by {
        lemma_trim_is_trimmed(rows[j][k]);
    }
}

/// The transactions of rows are made of fields of those rows: of rows
/// whose fields do not end with white space, every transaction has a
/// reference, an account and a description that do not either.
proof fn lemma_row_transactions_keep_their_ends(rows: Seq<Seq<Seq<char>>>, i: int)
    requires
        fields_keep_their_ends(rows),
        0 <= i < rows_transactions(rows).len(),
    ensures
        keeps_its_end(rows_transactions(rows)[i].reference),
        keeps_its_end(rows_transactions(rows)[i].account),
        keeps_its_end(rows_transactions(rows)[i].description),
        rows_transactions(rows)[i].value_date == unknown_date(),
{
    let p = |row: Seq<Seq<char>>| is_complete(row);
    let kept = rows.filter(p);
    let row = kept[i];
    rows.lemma_filter_pred(p, i);
    assert(kept.contains(row));
    rows.lemma_filter_contains_rev(p, row);
    let j = choose|j: int| 0 <= j < rows.len() && rows[j] == row;
    assert(keeps_its_end(rows[j][0]) && keeps_its_end(rows[j][1]) && keeps_its_end(rows[j][2]));
}

/// Format identity, from CSV to MT940 and back: where a CSV document
/// stands for one transaction or more, and no reference, account or
/// description among them holds a line feed, its conversion to MT940
/// succeeds, the MT940 reader accepts the text, and the text stands for as
/// many transactions with the same references, accounts and descriptions.
pub proof fn lemma_csv_to_mt940_and_back(input: Seq<u8>)
    requires
        CsvParser::accepts(input),
        CsvParser::canonical(CsvParser::document(input)).len() > 0,
        forall|i: int|
            0 <= i < CsvParser::canonical(CsvParser::document(input)).len() ==> {
                let tx = #[trigger] CsvParser::canonical(CsvParser::document(input))[i];
                is_one_line(tx.reference) && is_one_line(tx.account) && is_one_line(
                    tx.description,
                )
            },
    ensures
        converted(input, Format::Csv, Format::Mt940) == Ok::<Seq<char>, ConvertErrorView>(
            Mt940Format::rendered(CsvParser::canonical(CsvParser::document(input))),
        ),
        Mt940Parser::accepts(
            encode_utf8(Mt940Format::rendered(CsvParser::canonical(CsvParser::document(input)))),
        ),
        same_texts(
            Mt940Parser::canonical(
                Mt940Parser::document(
                    encode_utf8(
                        Mt940Format::rendered(CsvParser::canonical(CsvParser::document(input))),
                    ),
                ),
            ),
            CsvParser::canonical(CsvParser::document(input)),
        ),
{
    let doc = CsvParser::document(input);
    let txs = CsvParser::canonical(doc);
    let found = csv_records(input, false, true)->Ok_0;
    lemma_trimmed_rows_keep_their_ends(found);
    assert(fields_keep_their_ends(doc.skip(1))) by {
        assert forall|j: int, k: int|
            0 <= j < doc.skip(1).len() && 0 <= k < doc.skip(1)[j].len() implies keeps_its_end(
            #[trigger] doc.skip(1)[j][k],
        ) by {
            assert(doc.skip(1)[j][k] == doc[j + 1][k]);
        }
    }
    assert forall|i: int| 0 <= i < txs.len() implies fits_mt940(#[trigger] txs[i]) by {
        lemma_row_transactions_keep_their_ends(doc.skip(1), i);
        reveal_strlit("1970-01-01");
    }
    lemma_mt940_keeps_texts(txs);
}

} // verus!
