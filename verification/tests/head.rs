use textutils::head::{
    first_bytes, head, head_bytes, head_lines, invalid_value_message, parse_positive_int, run,
    Config, HeadError,
};

#[test]
fn test_parse_positive_int() {
    let res = parse_positive_int("3");
    assert!(res.is_ok());
    assert_eq!(res.unwrap(), 3);

    let res = parse_positive_int("foo");
    assert!(res.is_err());
    assert_eq!(res.unwrap_err().to_string(), "foo".to_string());

    let res = parse_positive_int("0");
    assert!(res.is_err());
    assert_eq!(res.unwrap_err().to_string(), "0".to_string());
}

#[test]
fn parse_positive_int_edges() {
    assert_eq!(parse_positive_int("+3"), Ok(3));
    assert_eq!(parse_positive_int("003"), Ok(3));
    assert_eq!(parse_positive_int(&usize::MAX.to_string()), Ok(usize::MAX));
    for bad in ["", "-3", "+0", "3.0", "99999999999999999999999", " 3"] {
        assert_eq!(parse_positive_int(bad), Err(bad.to_string()));
    }
}

#[test]
fn head_of_lines() {
    let text = "one\ntwo\nthree";
    assert_eq!(head_lines(text, 1), "one\n");
    assert_eq!(head_lines(text, 2), "one\ntwo\n");
    assert_eq!(head_lines(text, 3), text);
    assert_eq!(head_lines(text, 10), text);
    assert_eq!(head_lines(text, 0), "");
    assert_eq!(head_lines("", 5), "");
    assert_eq!(head_lines("\n\n\n", 2), "\n\n");
    assert_eq!(head_lines("a\r\nb\r\n", 1), "a\r\n");
}

#[test]
fn head_of_bytes() {
    assert_eq!(first_bytes(b"abcdef", 2), b"ab".to_vec());
    assert_eq!(first_bytes(b"abcdef", 9), b"abcdef".to_vec());
    assert_eq!(first_bytes(b"abcdef", 0), Vec::<u8>::new());
    assert_eq!(head_bytes("ábc".as_bytes(), 1), "\u{fffd}");
    assert_eq!(head_bytes("ábc".as_bytes(), 2), "á");
    assert_eq!(head_bytes("ábc".as_bytes(), 3), "áb");
    assert_eq!(head_bytes(&[b'a', 0xff, b'b'], 3), "a\u{fffd}b");
}

#[test]
fn head_with_headings() {
    let one = Config { files: vec!["a".to_string()], lines: 1, bytes: None };
    assert_eq!(head(&one, 0, "a", b"x\ny\n"), Ok("x\n".to_string()));
    let two = Config { files: vec!["a".to_string(), "b".to_string()], lines: 1, bytes: None };
    assert_eq!(head(&two, 0, "a", b"x\ny\n"), Ok("==> a <==\nx\n".to_string()));
    assert_eq!(head(&two, 1, "b", b"x\ny\n"), Ok("\n==> b <==\nx\n".to_string()));
    assert_eq!(head(&two, 1, "b", "é\n".as_bytes()), Ok("\n==> b <==\né\n".to_string()));
    let bytes = Config { files: vec!["a".to_string(), "b".to_string()], lines: 10, bytes: Some(3) };
    assert_eq!(head(&bytes, 1, "b", b"x\ny\n"), Ok("\n==> b <==\nx\ny".to_string()));
}

#[test]
fn head_of_what_is_no_text() {
    let lines = Config { files: vec!["a".to_string()], lines: 1, bytes: None };
    assert_eq!(head(&lines, 0, "a", &[b'x', 0xff, b'\n']), Err(HeadError::InvalidUtf8));
    assert_eq!(head(&lines, 0, "a", &[0xc3]), Err(HeadError::InvalidUtf8));
    let bytes = Config { files: vec!["a".to_string()], lines: 1, bytes: Some(2) };
    assert_eq!(head(&bytes, 0, "a", &[b'x', 0xff, b'\n']), Ok("x\u{fffd}".to_string()));
}

#[test]
fn refused_counts() {
    assert_eq!(
        invalid_value_message("foo", "lines", "LINES"),
        "error: invalid value 'foo' for '--lines <LINES>': invalid digit found in string"
    );
    assert_eq!(
        invalid_value_message("0", "bytes", "BYTES"),
        "error: invalid value '0' for '--bytes <BYTES>': invalid digit found in string"
    );
}

#[test]
fn head_over_sources() {
    let config = Config { files: vec!["a".to_string(), "b".to_string(), "c".to_string()], lines: 1, bytes: None };
    let contents = vec![Some(b"x\ny\n".to_vec()), None, Some(b"z".to_vec())];
    assert_eq!(
        run(&config, &contents),
        (vec![Some("==> a <==\nx\n".to_string()), None, Some("\n==> c <==\nz".to_string())], Ok(()))
    );
    let contents = vec![Some(b"x\n".to_vec()), Some(vec![0xff]), Some(b"z".to_vec())];
    assert_eq!(
        run(&config, &contents),
        (vec![Some("==> a <==\nx\n".to_string())], Err(HeadError::InvalidUtf8))
    );
    let bytes = Config { files: vec!["a".to_string()], lines: 1, bytes: Some(1) };
    assert_eq!(run(&bytes, &vec![Some(vec![0xff, 0xfe])]), (vec![Some("\u{fffd}".to_string())], Ok(())));
}
