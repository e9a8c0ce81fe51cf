use csv::StringRecord;
use unix_tools::cut::{
    extract_bytes, extract_chars, extract_fields, parse_delimiter, parse_extract, parse_index,
    parse_pos, pick, CutError, Extract,
};

#[test]
fn test_parse_pos() {
    // The empty string is an error
    assert!(parse_pos("".to_string()).is_err());

    // Zero is an error
    let res = parse_pos("0".to_string());
    assert!(res.is_err());
    assert_eq!(res.unwrap_err().message(), r#"illegal list value: "0""#);

    let res = parse_pos("0-1".to_string());
    assert!(res.is_err());
    assert_eq!(res.unwrap_err().message(), r#"illegal list value: "0""#);

    // A leading "+" is an error
    let res = parse_pos("+1".to_string());
    assert!(res.is_err());
    assert_eq!(res.unwrap_err().message(), r#"illegal list value: "+1""#,);

    let res = parse_pos("+1-2".to_string());
    assert!(res.is_err());
    assert_eq!(
        res.unwrap_err().message(),
        r#"illegal list value: "+1-2""#,
    );

    let res = parse_pos("1-+2".to_string());
    assert!(res.is_err());
    assert_eq!(
        res.unwrap_err().message(),
        r#"illegal list value: "1-+2""#,
    );

    // Any non-number is an error
    let res = parse_pos("a".to_string());
    assert!(res.is_err());
    assert_eq!(res.unwrap_err().message(), r#"illegal list value: "a""#);

    let res = parse_pos("1,a".to_string());
    assert!(res.is_err());
    assert_eq!(res.unwrap_err().message(), r#"illegal list value: "a""#);

    let res = parse_pos("1-a".to_string());
    assert!(res.is_err());
    assert_eq!(res.unwrap_err().message(), r#"illegal list value: "1-a""#,);

    let res = parse_pos("a-1".to_string());
    assert!(res.is_err());
    assert_eq!(res.unwrap_err().message(), r#"illegal list value: "a-1""#,);

    // Wonky ranges
    let res = parse_pos("-".to_string());
    assert!(res.is_err());

    let res = parse_pos(",".to_string());
    assert!(res.is_err());

    let res = parse_pos("1,".to_string());
    assert!(res.is_err());

    let res = parse_pos("1-".to_string());
    assert!(res.is_err());

    let res = parse_pos("1-1-1".to_string());
    assert!(res.is_err());

    let res = parse_pos("1-1-a".to_string());
    assert!(res.is_err());

    // First number must be less than second
    let res = parse_pos("1-1".to_string());
    assert!(res.is_err());
    assert_eq!(
        res.unwrap_err().message(),
        "First number in range (1) must be lower than second number (1)"
    );

    let res = parse_pos("2-1".to_string());
    assert!(res.is_err());
    assert_eq!(
        res.unwrap_err().message(),
        "First number in range (2) must be lower than second number (1)"
    );

    // All the following are acceptable
    let res = parse_pos("1".to_string());
    assert!(res.is_ok());
    assert_eq!(res.unwrap(), vec![0..1]);

    let res = parse_pos("01".to_string());
    assert!(res.is_ok());
    assert_eq!(res.unwrap(), vec![0..1]);

    let res = parse_pos("1,3".to_string());
    assert!(res.is_ok());
    assert_eq!(res.unwrap(), vec![0..1, 2..3]);

    let res = parse_pos("001,0003".to_string());
    assert!(res.is_ok());
    assert_eq!(res.unwrap(), vec![0..1, 2..3]);

    let res = parse_pos("1-3".to_string());
    assert!(res.is_ok());
    assert_eq!(res.unwrap(), vec![0..3]);

    let res = parse_pos("0001-03".to_string());
    assert!(res.is_ok());
    assert_eq!(res.unwrap(), vec![0..3]);

    let res = parse_pos("1,7,3-5".to_string());
    assert!(res.is_ok());
    assert_eq!(res.unwrap(), vec![0..1, 6..7, 2..5]);

    let res = parse_pos("15,19-20".to_string());
    assert!(res.is_ok());
    assert_eq!(res.unwrap(), vec![14..15, 18..20]);
}

#[test]
fn test_extract_chars() {
    assert_eq!(extract_chars("", &[0..1]), "".to_string());
    assert_eq!(extract_chars("ábc", &[0..1]), "á".to_string());
    assert_eq!(extract_chars("ábc", &[0..1, 2..3]), "ác".to_string());
    assert_eq!(extract_chars("ábc", &[0..3]), "ábc".to_string());
    assert_eq!(extract_chars("ábc", &[2..3, 1..2]), "cb".to_string());
    assert_eq!(extract_chars("ábc", &[0..1, 1..2, 4..5]), "áb".to_string());
}

#[test]
fn test_extract_bytes() {
    assert_eq!(extract_bytes("ábc", &[0..1]), "�".to_string());
    assert_eq!(extract_bytes("ábc", &[0..2]), "á".to_string());
    assert_eq!(extract_bytes("ábc", &[0..3]), "áb".to_string());
    assert_eq!(extract_bytes("ábc", &[0..4]), "ábc".to_string());
    assert_eq!(extract_bytes("ábc", &[3..4, 2..3]), "cb".to_string());
    assert_eq!(extract_bytes("ábc", &[0..2, 5..6]), "á".to_string());
}

#[test]
fn test_extract_fields() {
    let rec = StringRecord::from(vec!["Captain", "Sham", "12345"]);
    assert_eq!(extract_fields(&rec, &[0..1]), &["Captain"]);
    assert_eq!(extract_fields(&rec, &[1..2]), &["Sham"]);
    assert_eq!(extract_fields(&rec, &[0..1, 2..3]), &["Captain", "12345"]);
    assert_eq!(extract_fields(&rec, &[0..1, 3..4]), &["Captain"]);
    assert_eq!(extract_fields(&rec, &[1..2, 0..1]), &["Sham", "Captain"]);
}

#[test]
fn parse_index_counts_from_one() {
    assert_eq!(parse_index("1").unwrap(), 0);
    assert_eq!(parse_index("10").unwrap(), 9);
    assert_eq!(parse_index("0042").unwrap(), 41);
    assert_eq!(
        parse_index(&usize::MAX.to_string()).unwrap(),
        usize::MAX - 1
    );
}

#[test]
fn parse_index_refuses() {
    for bad in ["", "0", "000", "+1", "-1", "a", "1a", " 1", "1.0", "\u{663}", "99999999999999999999999999"] {
        let res = parse_index(bad);
        assert!(res.is_err(), "{bad:?} was accepted");
        assert_eq!(
            res.unwrap_err().message(),
            format!("illegal list value: \"{bad}\"")
        );
    }
}

#[test]
fn parse_pos_reports_the_first_fault() {
    let res = parse_pos("1,0,a".to_string());
    assert_eq!(res.unwrap_err().message(), r#"illegal list value: "0""#);
    let res = parse_pos("3-1,a".to_string());
    assert_eq!(
        res.unwrap_err().message(),
        "First number in range (3) must be lower than second number (1)"
    );
    let res = parse_pos("1-0".to_string());
    assert_eq!(res.unwrap_err().message(), r#"illegal list value: "0""#);
    let res = parse_pos("0-0".to_string());
    assert_eq!(res.unwrap_err().message(), r#"illegal list value: "0""#);
    let res = parse_pos("1,,2".to_string());
    assert_eq!(res.unwrap_err().message(), r#"illegal list value: """#);
    let res = parse_pos("".to_string());
    assert_eq!(res.unwrap_err().message(), r#"illegal list value: """#);
    let res = parse_pos("1-2-3".to_string());
    assert_eq!(res.unwrap_err().message(), r#"illegal list value: "1-2-3""#);
}

#[test]
fn parse_pos_error_kinds() {
    assert!(matches!(
        parse_pos("x".to_string()),
        Err(CutError::IllegalListValue(_))
    ));
    match parse_pos("12-7".to_string()) {
        Err(CutError::RangeOrder(first, second)) => {
            assert_eq!(first, 12);
            assert_eq!(second, 7);
        }
        other => panic!("unexpected result {other:?}"),
    }
}

#[test]
fn pick_takes_positions_in_list_order() {
    let items = [10u8, 11, 12, 13];
    assert_eq!(pick(&items, &[0..2]), vec![10, 11]);
    assert_eq!(pick(&items, &[2..4, 0..1]), vec![12, 13, 10]);
    assert_eq!(pick(&items, &[1..2, 1..2]), vec![11, 11]);
    assert_eq!(pick(&items, &[3..9]), vec![13]);
    assert_eq!(pick(&items, &[4..9, 7..8]), Vec::<u8>::new());
    assert_eq!(pick(&items, &[]), Vec::<u8>::new());
    let reversed = std::ops::Range { start: 3usize, end: 1usize };
    assert_eq!(pick(&items, &[reversed]), Vec::<u8>::new());
}

#[test]
fn extract_bytes_replaces_broken_sequences() {
    assert_eq!(extract_bytes("ábc", &[1..2]), "\u{fffd}");
    assert_eq!(extract_bytes("ábc", &[1..3]), "\u{fffd}b");
    assert_eq!(extract_bytes("abc", &[0..1, 2..3]), "ac");
}

#[test]
fn parse_delimiter_wants_one_byte() {
    assert_eq!(parse_delimiter("\t").unwrap(), b'\t');
    assert_eq!(parse_delimiter(",").unwrap(), b',');
    assert_eq!(
        parse_delimiter(",,").unwrap_err().message(),
        r#"--delim ",," must be a single byte"#
    );
    assert_eq!(
        parse_delimiter("").unwrap_err().message(),
        r#"--delim "" must be a single byte"#
    );
    assert_eq!(
        parse_delimiter("á").unwrap_err().message(),
        r#"--delim "á" must be a single byte"#
    );
}

#[test]
fn parse_extract_prefers_fields_then_bytes() {
    let res = parse_extract(Some("1".to_string()), Some("x".to_string()), None);
    assert!(matches!(res, Ok(Extract::Fields(p)) if p == vec![0..1]));
    let res = parse_extract(None, Some("2-3".to_string()), Some("x".to_string()));
    assert!(matches!(res, Ok(Extract::Bytes(p)) if p == vec![1..3]));
    let res = parse_extract(None, None, Some("4".to_string()));
    assert!(matches!(res, Ok(Extract::Chars(p)) if p == vec![3..4]));
    let res = parse_extract(Some("x".to_string()), Some("1".to_string()), None);
    assert_eq!(res.unwrap_err().message(), r#"illegal list value: "x""#);
}

#[test]
fn parse_pos_reads_digits_of_other_scripts_as_a_range_and_refuses_the_part() {
    let res = parse_pos("\u{663}-4".to_string());
    assert_eq!(res.unwrap_err().message(), "illegal list value: \"\u{663}\"");
    let res = parse_pos("1-\u{663}".to_string());
    assert_eq!(res.unwrap_err().message(), "illegal list value: \"\u{663}\"");
    let res = parse_pos("0-\u{663}".to_string());
    assert_eq!(res.unwrap_err().message(), r#"illegal list value: "0""#);
    let res = parse_pos("\u{663}".to_string());
    assert_eq!(res.unwrap_err().message(), "illegal list value: \"\u{663}\"");
    let res = parse_pos("\u{663}-x".to_string());
    assert_eq!(res.unwrap_err().message(), "illegal list value: \"\u{663}-x\"");
}

#[test]
fn parse_pos_range_limits() {
    let max = usize::MAX;
    let res = parse_pos(format!("1-{max}"));
    assert_eq!(res.unwrap(), vec![0..max]);
    let res = parse_pos(format!("{max}"));
    assert_eq!(res.unwrap(), vec![max - 1..max]);
    let res = parse_pos(format!("1-{max}0"));
    assert_eq!(res.unwrap_err().message(), format!("illegal list value: \"{max}0\""));
}
