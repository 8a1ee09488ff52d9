use converter::amount::Amount;
use converter::from_parser::{amount_of, date_of, Captures};
use converter::to_format::escape_xml;
use converter::{
    convert, escape_csv_field, Camt053Format, Camt053Parser, ConvertError, Converter, CsvFormat,
    CsvParser, Format, FromParser, Mt940Format, Mt940Parser, ParseError, Parser, ToFormat,
    Transaction,
};

fn amount(text: &str) -> Amount {
    Amount::parse(text).unwrap()
}

fn number(amount: &Amount) -> f64 {
    amount.to_string().parse().unwrap()
}

fn transaction(reference: &str, account: &str, value: &str, date: &str, text: &str) -> Transaction {
    Transaction {
        reference: reference.to_string(),
        account: account.to_string(),
        amount: amount(value),
        currency: "USD".to_string(),
        value_date: date.to_string(),
        description: text.to_string(),
    }
}

#[test]
fn mt940_amount_dr_should_be_negative() {
    let mt940 = ":20:REF\n:25:ACC\n:61:2301010101DR100,50NMSCNONREF\n:86:desc\n";
    let p = Mt940Parser::parse(mt940.as_bytes()).unwrap();

    let txs = FromParser::to_transactions(&p);

    assert_eq!(txs.len(), 1, "exactly one transaction is expected");
    assert!(
        (number(&txs[0].amount) - (-100.50)).abs() < 1e-6,
        "expected -100.50, got {}",
        txs[0].amount.to_string()
    );
}

#[test]
fn mt940_amount_cr_should_be_positive() {
    let mt940 = ":20:REF2\n:25:ACC2\n:61:230101CR999,99NTRFREF123\n";
    let p = Mt940Parser::parse(mt940.as_bytes()).unwrap();
    let txs = FromParser::to_transactions(&p);
    assert_eq!(txs.len(), 1);
    assert!((number(&txs[0].amount) - 999.99).abs() < 1e-6);
}

#[test]
fn mt940_multiple_61_should_produce_multiple_transactions() {
    let mt940 = "\
        :20:REF
        :25:ACC
        :61:230101CR10,00NMSCREF1
        :86:first
        :61:230102DR5,00NMSCREF2
        :86:second
    ";
    let p = Mt940Parser::parse(mt940.as_bytes()).unwrap();
    let txs = FromParser::to_transactions(&p);

    assert_eq!(txs.len(), 2, "each :61: opens a new transaction");
}

#[test]
fn test_csv_format() {
    let txs = vec![];
    let output = CsvFormat::from_transactions(&txs);
    assert!(output.contains("reference,account"));
}

#[test]
fn test_csv_to_mt940() {
    let csv = "ref,acc,comment\nREF123,ACC456,Buy bread";

    let output = convert(csv.as_bytes(), &Format::Csv, &Format::Mt940).unwrap();

    assert!(output.contains(":20:REF123"));
    assert!(output.contains(":25:ACC456"));
}

#[test]
fn test_mt940_to_csv() {
    let mt940 = ":20:REF999\n:25:ACC789\n:61:2301010101DR100,50NMSCNONREF\n:86:Salary\n";
    let output = convert(mt940.as_bytes(), &Format::Mt940, &Format::Csv).unwrap();
    assert!(output.contains("REF999"));
    assert!(output.contains("ACC789"));
}

#[test]
fn test_multiple_transactions_to_camt053() {
    let txs = vec![
        Transaction {
            reference: "STMT1".to_string(),
            account: "ACC1".to_string(),
            amount: amount("-100.5"),
            currency: "USD".to_string(),
            value_date: "2023-01-01".to_string(),
            description: "Debit".to_string(),
        },
        Transaction {
            reference: "STMT1".to_string(),
            account: "ACC1".to_string(),
            amount: amount("200.0"),
            currency: "USD".to_string(),
            value_date: "2023-01-02".to_string(),
            description: "Credit".to_string(),
        },
    ];
    let output = Camt053Format::from_transactions(&txs);
    assert!(output.contains("<Ntry>"));
    assert_eq!(output.matches("<Ntry>").count(), 2);
    assert!(output.contains("100.5"));
    assert!(output.contains("200"));
}

#[test]
fn test_csv_format_with_special_chars() {
    let txs = vec![Transaction {
        reference: "REF,001".to_string(),
        account: "ACC\"123".to_string(),
        amount: amount("100.5"),
        currency: "USD".to_string(),
        value_date: "2023-01-01".to_string(),
        description: "Line1\nLine2".to_string(),
    }];

    let output = CsvFormat::from_transactions(&txs);

    assert!(output.contains(r#""REF,001""#));
    assert!(output.contains(r#""ACC""123""#));
    assert!(output.contains("\"Line1\nLine2\""));
    println!("{:?}", output);

    let reader = CsvParser::parse(output.as_bytes());
    println!("{:?}", reader);
    assert_eq!(reader.as_ref().unwrap().rows.len(), 2);
    assert_eq!(reader.as_ref().unwrap().rows[1].row.len(), 6);
    assert_eq!(reader.as_ref().unwrap().rows[1].row[0], "REF,001");
    assert_eq!(reader.as_ref().unwrap().rows[1].row[1], "ACC\"123");
    assert_eq!(reader.as_ref().unwrap().rows[1].row[5], "Line1\nLine2");
}

#[test]
fn csv_output_is_exact() {
    let txs = vec![
        transaction("R1", "A1", "-100.50", "2023-01-01", "rent, May"),
        transaction("R2", "A2", "0", "2023-01-02", ""),
    ];
    assert_eq!(
        CsvFormat::from_transactions(&txs),
        "reference,account,amount,currency,date,description\n\
         R1,A1,-100.5,USD,2023-01-01,\"rent, May\"\n\
         R2,A2,0,USD,2023-01-02,\n"
    );
    assert_eq!(
        CsvFormat::from_transactions(&[]),
        "reference,account,amount,currency,date,description\n"
    );
}

#[test]
fn csv_fields_are_quoted_only_when_needed() {
    assert_eq!(escape_csv_field("plain text"), "plain text");
    assert_eq!(escape_csv_field(""), "");
    assert_eq!(escape_csv_field("a,b"), "\"a,b\"");
    assert_eq!(escape_csv_field("a\"b"), "\"a\"\"b\"");
    assert_eq!(escape_csv_field("a\rb"), "\"a\rb\"");
    assert_eq!(escape_csv_field("a\nb"), "\"a\nb\"");
    assert_eq!(escape_csv_field("\""), "\"\"\"\"");
}

#[test]
fn csv_round_trip_keeps_fields_and_rows() {
    let txs = vec![
        transaction("REF,001", "ACC\"123", "12.34", "2023-01-01", "Line1\nLine2"),
        transaction("\"q\"", "a\r\nb", "-7", "2023-02-03", ",,"),
    ];
    let rows = CsvParser::parse(CsvFormat::from_transactions(&txs).as_bytes()).unwrap().rows;
    assert_eq!(rows.len(), 3);
    for (tx, row) in txs.iter().zip(rows.iter().skip(1)) {
        assert_eq!(
            row.row,
            vec![
                tx.reference.clone(),
                tx.account.clone(),
                tx.amount.to_string(),
                tx.currency.clone(),
                tx.value_date.clone(),
                tx.description.clone(),
            ]
        );
    }
}

#[test]
fn csv_header_is_skipped_and_short_rows_too() {
    let doc = CsvParser::parse(b"ref,acc,comment\nREF1,ACC1,first\n").unwrap();
    let txs = doc.to_transactions();
    assert_eq!(txs.len(), 1);
    assert_eq!(txs[0].reference, "REF1");
    assert_eq!(txs[0].account, "ACC1");
    assert_eq!(txs[0].description, "first");
    assert_eq!(txs[0].amount, Amount::zero());
    assert_eq!(txs[0].currency, "XXX");
    assert_eq!(txs[0].value_date, "1970-01-01");

    let ragged = CsvParser::parse(b"ref,acc,comment\nonly,two\nR,A,D,extra\n").unwrap();
    let txs = ragged.to_transactions();
    assert_eq!(txs.len(), 1);
    assert_eq!(txs[0].reference, "R");

    let header_only = CsvParser::parse(b"a,b,c\n").unwrap();
    assert!(header_only.to_transactions().is_empty());
}

#[test]
fn mt940_transactions_follow_the_state_machine() {
    let input = ":86:dropped\n:61:230101CR10,00\n:20:REF\n:25:ACC\n:61:230102DR5,00X\n:86:first\n\
                 :86:second\n:28C:1/1\n:25:ACC2\n:61:2301CR1,00\n:61:230103XR1,00\n:61:2301\n";
    let txs = Mt940Parser::parse(input.as_bytes()).unwrap().to_transactions();
    assert_eq!(txs.len(), 5);

    assert_eq!(txs[0].reference, "");
    assert_eq!(txs[0].account, "");
    assert_eq!(txs[0].amount, amount("10"));
    assert_eq!(txs[0].value_date, "2023-01-01");
    assert_eq!(txs[0].description, "");
    assert_eq!(txs[0].currency, "XXX");

    assert_eq!(txs[1].reference, "REF");
    assert_eq!(txs[1].account, "ACC");
    assert_eq!(txs[1].amount, amount("-5"));
    assert_eq!(txs[1].value_date, "2023-01-02");
    assert_eq!(txs[1].description, "second");

    assert_eq!(txs[2].reference, "REF");
    assert_eq!(txs[2].account, "ACC2");
    assert_eq!(txs[2].amount, Amount::zero());
    assert_eq!(txs[2].value_date, "2023-01-CR");

    assert_eq!(txs[3].amount, Amount::zero());
    assert_eq!(txs[3].value_date, "2023-01-03");

    assert_eq!(txs[4].amount, Amount::zero());
    assert_eq!(txs[4].value_date, "1970-01-01");
}

#[test]
fn mt940_amounts_with_given_amounts_are_taken_in_order() {
    let doc = Mt940Parser::parse(b":61:230101\n:61:230102\n:61:230103\n").unwrap();
    let txs = doc.transactions_with(&vec![amount("1"), amount("-2")]);
    assert_eq!(txs.len(), 3);
    assert_eq!(txs[0].amount, amount("1"));
    assert_eq!(txs[1].amount, amount("-2"));
    assert_eq!(txs[2].amount, Amount::zero());
}

fn captures(groups: &[Option<&str>]) -> Option<Captures> {
    Some(Captures { groups: groups.iter().map(|g| g.map(|s| s.to_string())).collect() })
}

#[test]
fn amount_of_what_was_caught() {
    assert_eq!(amount_of(&captures(&[Some("230101DR100,50"), Some("D"), Some("100,50")])), amount("-100.5"));
    assert_eq!(amount_of(&captures(&[Some("230101CR999,99"), Some("C"), Some("999,99")])), amount("999.99"));
    assert_eq!(amount_of(&captures(&[Some("x"), Some("D"), Some("0,00")])), Amount::zero());
    assert_eq!(amount_of(&captures(&[Some("x"), Some("C"), Some("1,2,3")])), Amount::zero());
    assert_eq!(amount_of(&captures(&[Some("x"), Some("C"), Some(",")])), Amount::zero());
    assert_eq!(amount_of(&captures(&[Some("x"), Some("C"), Some("7,")])), amount("7"));
    assert_eq!(amount_of(&captures(&[Some("x"), Some("C"), Some(",5")])), amount("0.5"));
    assert_eq!(amount_of(&captures(&[Some("x"), None, Some("5")])), Amount::zero());
    assert_eq!(amount_of(&captures(&[Some("x"), Some("D")])), Amount::zero());
    assert_eq!(amount_of(&None), Amount::zero());
}

#[test]
fn date_of_a_movement_line() {
    assert_eq!(date_of("230105CR1,00"), "2023-01-05");
    assert_eq!(date_of("ABCDEF"), "20AB-CD-EF");
    assert_eq!(date_of("23010"), "1970-01-01");
    assert_eq!(date_of(""), "1970-01-01");
}

#[test]
fn camt053_gives_one_placeholder() {
    let doc = Camt053Parser::parse(b"<Document><Ntry/><Ntry/></Document>").unwrap();
    let txs = doc.to_transactions();
    assert_eq!(txs.len(), 1);
    assert_eq!(txs[0].reference, "CAMT_REF");
    assert_eq!(txs[0].account, "CAMT_ACC");
    assert_eq!(txs[0].description, "Parsed from CAMT.053");
    assert_eq!(txs[0].amount, Amount::zero());
    assert_eq!(txs[0].currency, "XXX");
    assert_eq!(txs[0].value_date, "1970-01-01");
}

#[test]
fn mt940_output_is_exact() {
    let txs = vec![
        transaction("REF1", "ACC1", "-100.5", "2023-01-31", "Salary"),
        transaction("REF2", "ACC2", "999.999", "2024-12-01", ""),
        transaction("REF3", "ACC3", "12", "short", "x"),
    ];
    assert_eq!(
        Mt940Format::from_transactions(&txs),
        ":20:REF1\n:25:ACC1\n:61:230131D100.50NMSCNONREF\n:86:Salary\n\n\
         :20:REF2\n:25:ACC2\n:61:241201C1000.00NMSCNONREF\n\n\
         :20:REF3\n:25:ACC3\n:61:000101C12.00NMSCNONREF\n:86:x\n\n"
    );
    assert_eq!(Mt940Format::from_transactions(&[]), "");
}

#[test]
fn camt053_output_is_exact() {
    assert_eq!(
        Camt053Format::from_transactions(&[]),
        "<Document xmlns=\"urn:iso:std:iso:20022:tech:xsd:camt.053.001.02\"></Document>"
    );
    let txs = vec![transaction("S<1>", "A&B", "-100.5", "2023-01-01", "\"x\" 'y'")];
    let want = concat_all(&[
        "\n            <Document xmlns=\"urn:iso:std:iso:20022:tech:xsd:camt.053.001.02\">\n",
        "            <BkToCstmrStmt>\n",
        "            <Stmt>\n",
        "            <Id>S&lt;1&gt;</Id>\n",
        "            <Acct>\n",
        "                <Id>A&amp;B</Id>\n",
        "            </Acct>\n",
        "            \n",
        "\n                <Ntry>\n",
        "                    <Amt Ccy=\"USD\">100.5</Amt>\n",
        "                    <RvslInd>true</RvslInd>\n",
        "                    <AddtlNtryInf>&quot;x&quot; &apos;y&apos;</AddtlNtryInf>\n",
        "                </Ntry>\n",
        "                \n",
        "\n            </Stmt>\n",
        "            </BkToCstmrStmt>\n",
        "            </Document>\n",
        "            \n",
    ]);
    assert_eq!(Camt053Format::from_transactions(&txs), want);
}

fn concat_all(parts: &[&str]) -> String {
    let mut out = String::new();
    for part in parts {
        out.push_str(part);
    }
    out
}

#[test]
fn xml_text_is_escaped() {
    assert_eq!(escape_xml("a<b>&\"c\"'d'"), "a&lt;b&gt;&amp;&quot;c&quot;&apos;d&apos;");
    assert_eq!(escape_xml("plain"), "plain");
    assert_eq!(escape_xml(""), "");
}

#[test]
fn camt053_reversal_is_false_for_credits_and_zero() {
    let txs = vec![
        transaction("S", "A", "5", "2023-01-01", "c"),
        transaction("S", "A", "0", "2023-01-01", "z"),
    ];
    let output = Camt053Format::from_transactions(&txs);
    assert_eq!(output.matches("<RvslInd>false</RvslInd>").count(), 2);
    assert_eq!(output.matches("<RvslInd>true</RvslInd>").count(), 0);
}

#[test]
fn format_tags_are_read_in_any_case() {
    assert_eq!(Format::from("csv"), Format::Csv);
    assert_eq!(Format::from("CSV"), Format::Csv);
    assert_eq!(Format::from("Mt940"), Format::Mt940);
    assert_eq!(Format::from("MT940"), Format::Mt940);
    assert_eq!(Format::from("CAMT053"), Format::Camt053);
    assert_eq!(Format::from("camt053"), Format::Camt053);
    assert_eq!(Format::from("xml"), Format::Csv);
    assert_eq!(Format::from(""), Format::Csv);
    assert_eq!(Format::recognize("xml"), None);
    assert_eq!(Format::recognize("cAmT053"), Some(Format::Camt053));
    assert_eq!(Format::from_lowercase("MT940"), None);
    assert_eq!(Format::from_lowercase("mt940"), Some(Format::Mt940));
}

#[test]
fn conversion_fails_whole_on_a_parse_error() {
    match convert(b"", &Format::Csv, &Format::Mt940) {
        Err(ConvertError::Parse(ParseError::InvalidFormat(_))) => {}
        other => panic!("unexpected: {:?}", other),
    }
    match convert(b"", &Format::Mt940, &Format::Csv) {
        Err(ConvertError::Parse(ParseError::InvalidFormat(_))) => {}
        other => panic!("unexpected: {:?}", other),
    }
    match convert(b"not xml", &Format::Camt053, &Format::Csv) {
        Err(ConvertError::Parse(ParseError::InvalidFormat(_))) => {}
        other => panic!("unexpected: {:?}", other),
    }
    match convert(&[0xff], &Format::Mt940, &Format::Csv) {
        Err(ConvertError::Parse(ParseError::Io(_))) => {}
        other => panic!("unexpected: {:?}", other),
    }
}

#[test]
fn convert_error_text() {
    let parse = ConvertError::Parse(ParseError::InvalidFormat("bad".to_string()));
    assert_eq!(parse.to_string(), "Parse error: Invalid format: bad");
    let unsupported = ConvertError::Unsupported { from: "a".to_string(), to: "b".to_string() };
    assert_eq!(unsupported.to_string(), "Unsupported conversion: a -> b");
    let from: ConvertError = ParseError::Io("x".to_string()).into();
    assert!(matches!(from, ConvertError::Parse(ParseError::Io(_))));
}

#[test]
fn every_pair_of_formats_converts() {
    let csv: &[u8] = b"ref,acc,comment\nREF1,ACC1,hello\n";
    let mt940: &[u8] = b":20:REF1\n:25:ACC1\n:61:230101DR1,50\n:86:hello\n";
    let camt: &[u8] = b"<Document/>";
    let inputs = [(Format::Csv, csv), (Format::Mt940, mt940), (Format::Camt053, camt)];
    for (from, input) in inputs.iter() {
        for to in [Format::Csv, Format::Mt940, Format::Camt053].iter() {
            assert!(convert(input, from, to).is_ok());
        }
    }
    assert_eq!(
        convert(mt940, &Format::Mt940, &Format::Csv).unwrap(),
        "reference,account,amount,currency,date,description\n\
         REF1,ACC1,-1.5,XXX,2023-01-01,hello\n"
    );
    assert_eq!(
        convert(camt, &Format::Camt053, &Format::Mt940).unwrap(),
        ":20:CAMT_REF\n:25:CAMT_ACC\n:61:700101C0.00NMSCNONREF\n:86:Parsed from CAMT.053\n\n"
    );
}

#[test]
fn named_conversions_agree_with_convert() {
    let csv: &[u8] = b"ref,acc,comment\nREF1,ACC1,hello\n";
    let mt940: &[u8] = b":20:REF1\n:25:ACC1\n:61:230101DR1,50\n:86:hello\n";
    let camt: &[u8] = b"<Document/>";
    assert_eq!(
        Converter::from_csv_to_mt940(csv).unwrap(),
        convert(csv, &Format::Csv, &Format::Mt940).unwrap()
    );
    assert_eq!(
        Converter::from_csv_to_camt053(csv).unwrap(),
        convert(csv, &Format::Csv, &Format::Camt053).unwrap()
    );
    assert_eq!(
        Converter::from_mt940_to_csv(mt940).unwrap(),
        convert(mt940, &Format::Mt940, &Format::Csv).unwrap()
    );
    assert_eq!(
        Converter::from_mt940_to_camt053(mt940).unwrap(),
        convert(mt940, &Format::Mt940, &Format::Camt053).unwrap()
    );
    assert_eq!(
        Converter::from_camt053_to_csv(camt).unwrap(),
        convert(camt, &Format::Camt053, &Format::Csv).unwrap()
    );
    assert_eq!(
        Converter::from_camt053_to_mt940(camt).unwrap(),
        convert(camt, &Format::Camt053, &Format::Mt940).unwrap()
    );
    let txs = vec![transaction("R", "A", "1", "2023-01-01", "d")];
    assert_eq!(Converter::to_csv(&txs), CsvFormat::from_transactions(&txs));
    assert_eq!(Converter::to_mt940(&txs), Mt940Format::from_transactions(&txs));
    assert_eq!(Converter::to_camt053(&txs), Camt053Format::from_transactions(&txs));
}

#[test]
fn csv_to_mt940_and_back_keeps_reference_and_account() {
    let csv = "ref,acc,comment\nREF123,ACC456,Buy bread\nREF124,ACC457,\n";
    let mt940 = convert(csv.as_bytes(), &Format::Csv, &Format::Mt940).unwrap();
    let back = Mt940Parser::parse(mt940.as_bytes()).unwrap().to_transactions();
    assert_eq!(back.len(), 2);
    assert_eq!(back[0].reference, "REF123");
    assert_eq!(back[0].account, "ACC456");
    assert_eq!(back[0].description, "Buy bread");
    assert_eq!(back[1].reference, "REF124");
    assert_eq!(back[1].account, "ACC457");
    assert_eq!(back[1].description, "");
}

#[test]
fn default_transaction() {
    let tx = Transaction::default();
    assert_eq!(tx.reference, "DEFAULT");
    assert_eq!(tx.account, "DEFAULT");
    assert_eq!(tx.amount, Amount::zero());
    assert_eq!(tx.currency, "XXX");
    assert_eq!(tx.value_date, "1970-01-01");
    assert_eq!(tx.description, "Default");
}
