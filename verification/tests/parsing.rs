use converter::error::ParseError;
use converter::parser::{Camt053Parser, CsvParser, Mt940Parser, Parser};

#[test]
fn test_mt940_parse() {
    let input = ":20:REF123\n:25:ACC123\n:60F:C230101USD1000,00\n";
    let parser = Mt940Parser::parse(input.as_bytes()).unwrap();
    assert_eq!(parser.data.len(), 3);
    assert_eq!(parser.data[0].tag, "20");
    assert_eq!(parser.data[0].value, "REF123");
}

#[test]
fn test_mt940_parse_invalid_not_mt940() {
    let input = ":невиданная хрень";
    let result = Mt940Parser::parse(input.as_bytes());
    assert!(result.is_err());
    assert!(matches!(result.unwrap_err(), ParseError::InvalidFormat(_)));
}

#[test]
fn test_mt940_parse_empty() {
    let input = "";
    let result = Mt940Parser::parse(input.as_bytes());
    assert!(result.is_err());
}

#[test]
fn test_csv_parse() {
    let input = "fullname, transaction_id, comment\nAleks, 21312312, На мягкие французкие булки\n";
    let parser = CsvParser::parse(input.as_bytes()).unwrap();
    assert_eq!(parser.rows.len(), 2);
    assert_eq!(parser.rows[0].row.len(), 3);
    assert_eq!(parser.rows[0].row[0], "fullname".to_string());
    assert_eq!(parser.rows[1].row[0], "Aleks".to_string());
}

#[test]
fn test_camt053_parse() {
    let input = r#"
        <Document xmlns="urn:iso:std:iso:20022:tech:xsd:camt.053.001.02">
        <BkToCstmrStmt>
            <Stmt>
                <Id>STATEMENT123</Id>
            </Stmt>
        </BkToCstmrStmt>
        </Document>"#;
    let parser = Camt053Parser::parse(input.as_bytes()).unwrap();
    assert!(parser.data.contains("<Document"));
    assert!(parser.data.contains("STATEMENT123"));
}

#[test]
fn test_camt053_parse_invalid_not_xml() {
    let input = "невиданная хрень";
    let result = Camt053Parser::parse(input.as_bytes());
    assert!(result.is_err());
    assert!(matches!(result.unwrap_err(), ParseError::InvalidFormat(_)));
}

#[test]
fn test_camt053_parse_empty() {
    let input = "";
    let result = Camt053Parser::parse(input.as_bytes());
    assert!(result.is_err());
}

#[test]
fn it_works() {
    let result = converter::add(2, 2);
    assert_eq!(result, 4);
}

#[test]
fn csv_parse_trims_every_field() {
    let parser = CsvParser::parse(b"  a , b\t,c  \n").unwrap();
    assert_eq!(parser.rows.len(), 1);
    assert_eq!(parser.rows[0].row, vec!["a", "b", "c"]);
}

#[test]
fn csv_parse_skips_blank_lines_and_keeps_ragged_rows() {
    let parser = CsvParser::parse(b"h1,h2,h3\n\nonly,two\n\r\nx,y,z,w\n").unwrap();
    assert_eq!(parser.rows.len(), 3);
    assert_eq!(parser.rows[1].row, vec!["only", "two"]);
    assert_eq!(parser.rows[2].row, vec!["x", "y", "z", "w"]);
}

#[test]
fn csv_parse_reads_quoted_fields_as_one() {
    let parser = CsvParser::parse(b"\"a,b\",\"say \"\"hi\"\"\",\"two\nlines\"\n").unwrap();
    assert_eq!(parser.rows.len(), 1);
    assert_eq!(parser.rows[0].row, vec!["a,b", "say \"hi\"", "two\nlines"]);
}

#[test]
fn csv_parse_empty_is_invalid_format() {
    match CsvParser::parse(b"") {
        Err(ParseError::InvalidFormat(message)) => assert_eq!(message, "CSV input is empty"),
        other => panic!("unexpected: {:?}", other),
    }
}

#[test]
fn csv_parse_bad_utf8_is_invalid_format() {
    let result = CsvParser::parse(&[b'a', b',', 0xff, b'\n']);
    assert!(matches!(result, Err(ParseError::InvalidFormat(_))));
}

#[test]
fn csv_parse_strict_refuses_single_quotes() {
    match CsvParser::parse_strict(b"a,b,c\nit's,x,y\n") {
        Err(ParseError::InvalidFormat(message)) => {
            assert_eq!(message, "CSV input holds a single quote, which is not supported")
        }
        other => panic!("unexpected: {:?}", other),
    }
    let plain = CsvParser::parse_strict(b"a,b,c\n1,2,3\n").unwrap();
    assert_eq!(plain.rows.len(), 2);
    assert!(CsvParser::parse(b"a,b,c\nit's,x,y\n").is_ok());
    assert!(matches!(CsvParser::parse_strict(b""), Err(ParseError::InvalidFormat(_))));
}

#[test]
fn mt940_parse_keeps_order_and_duplicate_tags() {
    let input = "  :20:R \r\nnoise\n\n:61:230101CR10,00\n:61:230102DR5,00\n:86:a:b:c\n::x\n";
    let parser = Mt940Parser::parse(input.as_bytes()).unwrap();
    let got: Vec<(String, String)> =
        parser.data.iter().map(|r| (r.tag.clone(), r.value.clone())).collect();
    let want: Vec<(String, String)> = vec![
        ("20", "R"),
        ("61", "230101CR10,00"),
        ("61", "230102DR5,00"),
        ("86", "a:b:c"),
        ("", "x"),
    ]
    .into_iter()
    .map(|(t, v)| (t.to_string(), v.to_string()))
    .collect();
    assert_eq!(got, want);
}

#[test]
fn mt940_parse_messages() {
    match Mt940Parser::parse(b"") {
        Err(ParseError::InvalidFormat(message)) => assert_eq!(message, "MT940 input is empty"),
        other => panic!("unexpected: {:?}", other),
    }
    match Mt940Parser::parse(b":20:ok\n:25\n") {
        Err(ParseError::InvalidFormat(message)) => {
            assert_eq!(message, "MT940 line has no `:` after its tag")
        }
        other => panic!("unexpected: {:?}", other),
    }
    match Mt940Parser::parse(&[b':', 0xc3, 0x28]) {
        Err(ParseError::Io(message)) => {
            assert_eq!(message, "stream did not contain valid UTF-8")
        }
        other => panic!("unexpected: {:?}", other),
    }
}

#[test]
fn mt940_parse_of_untagged_text_has_no_record() {
    let parser = Mt940Parser::parse(b"just text\n\n  \n").unwrap();
    assert!(parser.data.is_empty());
}

#[test]
fn camt053_parse_keeps_the_text_as_it_came() {
    let input = " \n\t<a/> trailing ";
    let parser = Camt053Parser::parse(input.as_bytes()).unwrap();
    assert_eq!(parser.data, input);
}

#[test]
fn camt053_parse_messages() {
    match Camt053Parser::parse(b"  x<a/>") {
        Err(ParseError::InvalidFormat(message)) => {
            assert_eq!(message, "CAMT.053 input does not begin with `<`")
        }
        other => panic!("unexpected: {:?}", other),
    }
    assert!(matches!(Camt053Parser::parse(&[0xff, b'<']), Err(ParseError::Io(_))));
}

#[test]
fn parse_error_text() {
    let io = ParseError::Io("gone".to_string());
    assert_eq!(io.to_string(), "IO error: gone");
    let format = ParseError::InvalidFormat("bad".to_string());
    assert_eq!(format.to_string(), "Invalid format: bad");
}
