use textutils::cut::{
    cut_line, extract_bytes, extract_chars, extract_fields, parse_delimiter, parse_index,
    parse_pos, parse_range, range_of_groups, AnyRange, Args, Extract, PositionError,
};

#[test]
fn test_parser_pos() {
    let res = parse_pos("");
    assert!(res.is_err());

    let res = parse_pos("0");
    assert!(res.is_err());
    assert_eq!(res.unwrap_err().to_string(), "illegal list value: \"0\"");

    let res = parse_pos("0-1");
    assert!(res.is_err());
    assert_eq!(res.unwrap_err().to_string(), "illegal list value: \"0\"");

    let res = parse_pos("+1");
    assert!(res.is_err());
    assert_eq!(res.unwrap_err().to_string(), "illegal list value: \"+1\"");

    let res = parse_pos("+1-2");
    assert!(res.is_err());
    assert_eq!(res.unwrap_err().to_string(), "illegal list value: \"+1-2\"");

    let res = parse_pos("1-+2");
    assert!(res.is_err());
    assert_eq!(res.unwrap_err().to_string(), "illegal list value: \"1-+2\"");

    let res = parse_pos("1,a");
    assert!(res.is_err());
    assert_eq!(res.unwrap_err().to_string(), "illegal list value: \"a\"");

    let res = parse_pos("1-a");
    assert!(res.is_err());
    assert_eq!(res.unwrap_err().to_string(), "illegal list value: \"1-a\"");

    let res = parse_pos("a-1");
    assert!(res.is_err());
    assert_eq!(res.unwrap_err().to_string(), "illegal list value: \"a-1\"");

    let res = parse_pos("-");
    assert!(res.is_err());

    let res = parse_pos(",");
    assert!(res.is_err());

    let res = parse_pos("1,");
    assert!(res.is_err());

    let res = parse_pos("1-");
    assert!(res.is_ok());
    assert_eq!(res.unwrap(), vec![AnyRange::From(0)]);

    let res = parse_pos("1-1-1");
    assert!(res.is_err());

    let res = parse_pos("1-1-a");
    assert!(res.is_err());

    let res = parse_pos("1-1");
    assert!(res.is_err());
    assert_eq!(
        res.unwrap_err().to_string(),
        "First number in range (1) must be lower than second number (1)"
    );

    let res = parse_pos("2-1");
    assert!(res.is_err());
    assert_eq!(
        res.unwrap_err().to_string(),
        "First number in range (2) must be lower than second number (1)"
    );

    // normal cases

    let res = parse_pos("1");
    assert!(res.is_ok());
    assert_eq!(res.unwrap(), vec![AnyRange::Range(0, 1)]);

    let res = parse_pos("01");
    assert!(res.is_ok());
    assert_eq!(res.unwrap(), vec![AnyRange::Range(0, 1)]);

    let res = parse_pos("1,3");
    assert!(res.is_ok());
    assert_eq!(
        res.unwrap(),
        vec![AnyRange::Range(0, 1), AnyRange::Range(2, 3)]
    );

    let res = parse_pos("001,0003");
    assert!(res.is_ok());
    assert_eq!(
        res.unwrap(),
        vec![AnyRange::Range(0, 1), AnyRange::Range(2, 3)]
    );

    let res = parse_pos("1-3");
    assert!(res.is_ok());
    assert_eq!(res.unwrap(), vec![AnyRange::Range(0, 3)]);

    let res = parse_pos("1,7,3-5");
    assert!(res.is_ok());
    assert_eq!(
        res.unwrap(),
        vec![
            AnyRange::Range(0, 1),
            AnyRange::Range(6, 7),
            AnyRange::Range(2, 5)
        ]
    );

    let res = parse_pos("15,19-20");
    assert!(res.is_ok());
    assert_eq!(
        res.unwrap(),
        vec![AnyRange::Range(14, 15), AnyRange::Range(18, 20)]
    );

    let res = parse_pos("-3");
    assert!(res.is_ok());
    assert_eq!(res.unwrap(), vec![AnyRange::To(3)]);

    let res = parse_pos("1,-3");
    assert!(res.is_ok());
    assert_eq!(res.unwrap(), vec![AnyRange::Range(0, 1), AnyRange::To(3)]);

    let res = parse_pos("-3,5-");
    assert!(res.is_ok());
    assert_eq!(res.unwrap(), vec![AnyRange::To(3), AnyRange::From(4)]);

    let res = parse_pos("3-");
    assert!(res.is_ok());
    assert_eq!(res.unwrap(), vec![AnyRange::From(2)]);

    let res = parse_pos("1-3,5-");
    assert!(res.is_ok());
    assert_eq!(
        res.unwrap(),
        vec![AnyRange::Range(0, 3), AnyRange::From(4)]
    );
}

#[test]
fn test_extract_chars() {
    assert_eq!(extract_chars("", &[AnyRange::Range(0, 1)]), "".to_string());
    assert_eq!(
        extract_chars("ábc", &[AnyRange::Range(0, 1)]),
        "á".to_string()
    );
    assert_eq!(
        extract_chars("ábc", &[AnyRange::Range(0, 1), AnyRange::Range(2, 3)]),
        "ác".to_string()
    );
    assert_eq!(
        extract_chars("ábc", &[AnyRange::Range(0, 3)]),
        "ábc".to_string()
    );
    assert_eq!(
        extract_chars("ábc", &[AnyRange::Range(2, 3), AnyRange::Range(1, 2)]),
        "cb".to_string()
    );
    assert_eq!(
        extract_chars(
            "ábc",
            &[
                AnyRange::Range(0, 1),
                AnyRange::Range(1, 2),
                AnyRange::Range(4, 5)
            ]
        ),
        "áb".to_string()
    );
}

#[test]
fn test_extract_bytes() {
    assert_eq!(
        extract_bytes("ábc", &[AnyRange::Range(0, 1)]),
        "�".to_string()
    );
    assert_eq!(
        extract_bytes("ábc", &[AnyRange::Range(0, 2)]),
        "á".to_string()
    );
    assert_eq!(
        extract_bytes("ábc", &[AnyRange::Range(0, 3)]),
        "áb".to_string()
    );
    assert_eq!(
        extract_bytes("ábc", &[AnyRange::Range(0, 4)]),
        "ábc".to_string()
    );
    assert_eq!(
        extract_bytes("ábc", &[AnyRange::Range(3, 4), AnyRange::Range(2, 3)]),
        "cb".to_string()
    );
    assert_eq!(
        extract_bytes("ábc", &[AnyRange::Range(0, 2), AnyRange::Range(5, 6)]),
        "á".to_string()
    );
}

#[test]
fn test_extract_fields() {
    assert_eq!(extract_fields("a\tb\tc", b'\t', &[AnyRange::Range(0, 1)]), "a");
    assert_eq!(extract_fields("a\tb\tc", b'\t', &[AnyRange::Range(1, 3)]), "b\tc");
    assert_eq!(extract_fields("a,b,c", b',', &[AnyRange::From(1)]), "b,c");
    assert_eq!(extract_fields("a,b,c", b',', &[AnyRange::To(2)]), "a,b");
    assert_eq!(extract_fields("a,b,c", b',', &[AnyRange::Range(2, 3), AnyRange::Range(0, 1)]), "c,a");
    assert_eq!(extract_fields("a,b,c", b',', &[AnyRange::Range(5, 6)]), "");
    assert_eq!(extract_fields("a,,c", b',', &[AnyRange::To(9)]), "a,,c");
    assert_eq!(extract_fields("", b',', &[AnyRange::From(0)]), "");
    assert_eq!(extract_fields("abc", b',', &[AnyRange::From(0), AnyRange::From(0)]), "abc,abc");
    assert_eq!(extract_fields("x,", b',', &[AnyRange::Range(1, 2), AnyRange::Range(0, 1)]), ",x");
}

#[test]
fn extract_open_ranges() {
    assert_eq!(extract_chars("ábc", &[AnyRange::From(1)]), "bc");
    assert_eq!(extract_chars("ábc", &[AnyRange::To(2)]), "áb");
    assert_eq!(extract_chars("ábc", &[AnyRange::From(3)]), "");
    assert_eq!(extract_chars("ábc", &[AnyRange::To(0)]), "");
    assert_eq!(extract_chars("ábc", &[AnyRange::Range(1, usize::MAX)]), "bc");
    assert_eq!(extract_chars("ábc", &[AnyRange::To(2), AnyRange::To(2)]), "ábáb");
    assert_eq!(extract_chars("ábc", &[]), "");
    assert_eq!(extract_bytes("ábc", &[AnyRange::From(2)]), "bc");
    assert_eq!(extract_bytes("ábc", &[AnyRange::From(1)]), "\u{fffd}bc");
    assert_eq!(extract_bytes("ábc", &[AnyRange::To(9)]), "ábc");
}

#[test]
fn test_parse_index() {
    assert_eq!(parse_index("1"), Ok(1));
    assert_eq!(parse_index("0012"), Ok(12));
    assert_eq!(parse_index(&usize::MAX.to_string()), Ok(usize::MAX));
    for bad in ["", "0", "000", "+1", "-1", "1 ", "a", "1a", "99999999999999999999999"] {
        let res = parse_index(bad);
        assert_eq!(res, Err(PositionError::IllegalValue(bad.to_string())));
        assert_eq!(res.unwrap_err().to_string(), format!("illegal list value: \"{}\"", bad));
    }
}

#[test]
fn parse_pos_errors_in_order() {
    assert_eq!(parse_pos("1,0,a"), Err(PositionError::IllegalValue("0".to_string())));
    assert_eq!(parse_pos("2-1,0"), Err(PositionError::NotAscending(2, 1)));
    assert_eq!(parse_pos("0-a"), Err(PositionError::IllegalValue("0-a".to_string())));
    assert_eq!(parse_pos("3-0"), Err(PositionError::IllegalValue("0".to_string())));
    assert_eq!(parse_pos("0-0"), Err(PositionError::IllegalValue("0".to_string())));
    assert_eq!(parse_pos("-0"), Err(PositionError::IllegalValue("0".to_string())));
    assert_eq!(parse_pos("0-"), Err(PositionError::IllegalValue("0".to_string())));
    assert_eq!(parse_pos(""), Err(PositionError::IllegalValue("".to_string())));
    assert_eq!(parse_pos("1,"), Err(PositionError::IllegalValue("".to_string())));
    assert_eq!(parse_pos("-"), Err(PositionError::IllegalValue("-".to_string())));
    assert_eq!(parse_pos("1--2"), Err(PositionError::IllegalValue("1--2".to_string())));
    assert_eq!(
        parse_pos("99999999999999999999999-"),
        Err(PositionError::IllegalValue("99999999999999999999999".to_string()))
    );
    assert_eq!(
        PositionError::NotAscending(10, 3).to_string(),
        "First number in range (10) must be lower than second number (3)"
    );
}

#[test]
fn get_extract_prefers_fields() {
    let list = vec![AnyRange::Range(0, 1)];
    let mut args = Args {
        files: vec![],
        delimiter: b'\t',
        fields: Some(list.clone()),
        bytes: Some(vec![AnyRange::From(3)]),
        chars: Some(vec![AnyRange::To(3)]),
    };
    assert!(matches!(args.get_extract(), Some(Extract::Fields(l)) if l == list));
    args.fields = None;
    assert!(matches!(args.get_extract(), Some(Extract::Bytes(l)) if l == vec![AnyRange::From(3)]));
    args.bytes = None;
    assert!(matches!(args.get_extract(), Some(Extract::Chars(l)) if l == vec![AnyRange::To(3)]));
    args.chars = None;
    assert!(args.get_extract().is_none());
}

#[test]
fn cut_line_by_kind() {
    let list = vec![AnyRange::Range(1, 2)];
    assert_eq!(cut_line(&Extract::Fields(list.clone()), b' ', "ábc déf"), "déf");
    assert_eq!(cut_line(&Extract::Chars(list.clone()), b' ', "ábc déf"), "b");
    assert_eq!(cut_line(&Extract::Bytes(list), b' ', "ábc déf"), "\u{fffd}");
}

#[test]
fn delimiter_is_one_byte() {
    assert_eq!(parse_delimiter(b","), Some(b','));
    assert_eq!(parse_delimiter(b""), None);
    assert_eq!(parse_delimiter(b",,"), None);
    assert_eq!(parse_delimiter("á".as_bytes()), None);
}

fn found(items: &[&str]) -> Option<Vec<Option<String>>> {
    Some(items.iter().map(|s| Some(s.to_string())).collect())
}

#[test]
fn ranges_of_matches() {
    let illegal = |text: &str| Err(PositionError::IllegalValue(text.to_string()));
    assert_eq!(range_of_groups("7", &None, &None, &None), Ok(AnyRange::Range(6, 7)));
    assert_eq!(range_of_groups("7", &found(&["7-", "9"]), &None, &None), Ok(AnyRange::Range(6, 7)));
    assert_eq!(range_of_groups("x", &None, &None, &None), illegal("x"));
    assert_eq!(range_of_groups("3-", &found(&["3-", "3"]), &None, &None), Ok(AnyRange::From(2)));
    assert_eq!(range_of_groups("0-", &found(&["0-", "0"]), &None, &None), illegal("0"));
    assert_eq!(range_of_groups("-3", &None, &found(&["-3", "3"]), &None), Ok(AnyRange::To(3)));
    assert_eq!(range_of_groups("-0", &None, &found(&["-0", "0"]), &None), illegal("0"));
    assert_eq!(
        range_of_groups("2-5", &None, &None, &found(&["2-5", "2", "5"])),
        Ok(AnyRange::Range(1, 5))
    );
    assert_eq!(
        range_of_groups("5-2", &None, &None, &found(&["5-2", "5", "2"])),
        Err(PositionError::NotAscending(5, 2))
    );
    assert_eq!(range_of_groups("0-2", &None, &None, &found(&["0-2", "0", "2"])), illegal("0"));
    assert_eq!(range_of_groups("2-0", &None, &None, &found(&["2-0", "2", "0"])), illegal("0"));
    assert_eq!(range_of_groups("2-5", &None, &None, &found(&["2-5", "2"])), illegal("2-5"));
    assert_eq!(
        range_of_groups("x", &found(&["x", "0"]), &found(&["x", "4"]), &None),
        Ok(AnyRange::To(4))
    );
    assert_eq!(
        range_of_groups("x", &found(&["x", "0"]), &None, &found(&["x", "9", "8"])),
        Err(PositionError::NotAscending(9, 8))
    );
    assert_eq!(range_of_groups("x", &found(&["x", "0"]), &found(&["x", "a"]), &None), illegal("a"));
}

#[test]
fn one_part_of_a_list() {
    assert_eq!(parse_range("12"), Ok(AnyRange::Range(11, 12)));
    assert_eq!(parse_range("12-"), Ok(AnyRange::From(11)));
    assert_eq!(parse_range("-12"), Ok(AnyRange::To(12)));
    assert_eq!(parse_range("3-12"), Ok(AnyRange::Range(2, 12)));
    assert_eq!(parse_range("1,2"), Err(PositionError::IllegalValue("1,2".to_string())));
    assert_eq!(parse_range("٣-"), Err(PositionError::IllegalValue("٣".to_string())));
    assert_eq!(parse_range("1-\n"), Err(PositionError::IllegalValue("1-\n".to_string())));
}
