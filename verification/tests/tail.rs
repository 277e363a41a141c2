use textutils::tail::TakeValue::{PlusZero, TakeNum};
use textutils::tail::{
    count_lines_bytes, get_start_index, parse_num, run, select_bytes, select_lines, tail,
    take_value_of_match, Args,
};
use textutils::text::header;

const ONE: &str = "Öne line, four wordś.\n";
const TWELVE: &str = "one\ntwo\nthree\nfour\nfive\nsix\nseven\neight\nnine\nten\neleven\ntwelve\n";

#[test]
fn test_parse_num() {
    let res = parse_num("3");
    assert!(res.is_ok());
    assert_eq!(res.unwrap(), TakeNum(-3));

    let res = parse_num("+3");
    assert!(res.is_ok());
    assert_eq!(res.unwrap(), TakeNum(3));

    let res = parse_num("-3");
    assert!(res.is_ok());
    assert_eq!(res.unwrap(), TakeNum(-3));

    let res = parse_num("0");
    assert!(res.is_ok());
    assert_eq!(res.unwrap(), TakeNum(0));

    let res = parse_num("+0");
    assert!(res.is_ok());
    assert_eq!(res.unwrap(), PlusZero);

    let res = parse_num(&i64::MAX.to_string());
    assert!(res.is_ok());
    assert_eq!(res.unwrap(), TakeNum(i64::MIN + 1));

    let res = parse_num(&(i64::MIN + 1).to_string());
    assert!(res.is_ok());
    assert_eq!(res.unwrap(), TakeNum(i64::MIN + 1));

    let res = parse_num(&format!("+{}", i64::MAX));
    assert!(res.is_ok());
    assert_eq!(res.unwrap(), TakeNum(i64::MAX));

    let res = parse_num(&i64::MIN.to_string());
    assert!(res.is_ok());
    assert_eq!(res.unwrap(), TakeNum(i64::MIN));

    let res = parse_num("3.14");
    assert!(res.is_err());
    assert_eq!(res.unwrap_err().to_string(), "3.14");

    let res = parse_num("foo");
    assert!(res.is_err());
    assert_eq!(res.unwrap_err().to_string(), "foo");
}

#[test]
fn test_count_lines_bytes() {
    let res = count_lines_bytes(ONE);
    assert_eq!(res, (1, 24));

    let res = count_lines_bytes(TWELVE);
    assert_eq!(res, (12, 63));
}

#[test]
fn test_get_start_index() {
    assert_eq!(get_start_index(&PlusZero, 0), None);

    assert_eq!(get_start_index(&PlusZero, 1), Some(0));

    assert_eq!(get_start_index(&TakeNum(0), 1), None);

    assert_eq!(get_start_index(&TakeNum(1), 0), None);

    assert_eq!(get_start_index(&TakeNum(2), 1), None);

    assert_eq!(get_start_index(&TakeNum(1), 10), Some(0));
    assert_eq!(get_start_index(&TakeNum(2), 10), Some(1));
    assert_eq!(get_start_index(&TakeNum(3), 10), Some(2));

    assert_eq!(get_start_index(&TakeNum(-1), 10), Some(9));
    assert_eq!(get_start_index(&TakeNum(-2), 10), Some(8));
    assert_eq!(get_start_index(&TakeNum(-3), 10), Some(7));

    assert_eq!(get_start_index(&TakeNum(-20), 10), Some(0));
}

#[test]
fn start_index_of_plus_zero() {
    assert_eq!(get_start_index(&PlusZero, 0), None);
    assert_eq!(get_start_index(&PlusZero, 5), Some(0));
}

#[test]
fn start_index_of_nothing_to_read() {
    for spec in [PlusZero, TakeNum(0), TakeNum(1), TakeNum(-1), TakeNum(i64::MAX), TakeNum(i64::MIN)] {
        assert_eq!(get_start_index(&spec, 0), None);
    }
}

#[test]
fn start_index_of_zero_count() {
    for total in [0, 1, 10, i64::MAX] {
        assert_eq!(get_start_index(&TakeNum(0), total), None);
    }
}

#[test]
fn start_index_at_the_bounds() {
    assert_eq!(get_start_index(&TakeNum(10), 10), Some(9));
    assert_eq!(get_start_index(&TakeNum(11), 10), None);
    assert_eq!(get_start_index(&TakeNum(-10), 10), Some(0));
    assert_eq!(get_start_index(&TakeNum(-11), 10), Some(0));
    assert_eq!(get_start_index(&TakeNum(i64::MIN), i64::MAX), Some(0));
    assert_eq!(get_start_index(&TakeNum(i64::MAX), i64::MAX), Some(i64::MAX - 1));
    assert_eq!(get_start_index(&TakeNum(-1), i64::MAX), Some(i64::MAX - 1));
}

#[test]
fn parse_num_saturates() {
    assert_eq!(parse_num("9223372036854775808"), Ok(TakeNum(i64::MIN)));
    assert_eq!(parse_num("99999999999999999999999999"), Ok(TakeNum(i64::MIN)));
    assert_eq!(parse_num("-99999999999999999999999999"), Ok(TakeNum(i64::MIN)));
    assert_eq!(parse_num("+9223372036854775808"), Ok(TakeNum(i64::MAX)));
    assert_eq!(parse_num("+99999999999999999999999999"), Ok(TakeNum(i64::MAX)));
    assert_eq!(parse_num("+000"), Ok(PlusZero));
    assert_eq!(parse_num("-0"), Ok(TakeNum(0)));
    assert_eq!(parse_num("007"), Ok(TakeNum(-7)));
}

#[test]
fn parse_num_rejects() {
    for bad in ["", "+", "-", "+-3", "--3", "3 ", " 3", "3\n", "0x10", "1e3", "٣", "3a", "a3"] {
        assert_eq!(parse_num(bad), Err(bad.to_string()));
    }
}

fn strings(items: &[&str]) -> Vec<String> {
    items.iter().map(|s| s.to_string()).collect()
}

#[test]
fn select_lines_takes_the_end() {
    let lines = strings(&["a\n", "b\n", "c\n", "d\n"]);
    assert_eq!(select_lines(&lines, &TakeNum(-2), 4), strings(&["c\n", "d\n"]));
    assert_eq!(select_lines(&lines, &TakeNum(2), 4), strings(&["b\n", "c\n", "d\n"]));
    assert_eq!(select_lines(&lines, &PlusZero, 4), lines);
    assert_eq!(select_lines(&lines, &TakeNum(-9), 4), lines);
    assert_eq!(select_lines(&lines, &TakeNum(0), 4), strings(&[]));
    assert_eq!(select_lines(&lines, &TakeNum(5), 4), strings(&[]));
    assert_eq!(select_lines(&lines, &TakeNum(-1), 3), strings(&["c\n"]));
    assert_eq!(select_lines(&lines, &TakeNum(-1), 9), strings(&[]));
    assert_eq!(select_lines(&lines, &TakeNum(-7), 9), strings(&["c\n", "d\n"]));
}

#[test]
fn select_lines_round_trip() {
    let lines = strings(&["a\n", "b\n", "c\n", "d\n", "e"]);
    let total = lines.len() as i64;
    for spec in [PlusZero, TakeNum(1), TakeNum(3), TakeNum(5), TakeNum(-1), TakeNum(-4), TakeNum(-8)] {
        let start = get_start_index(&spec, total).unwrap() as usize;
        let picked = select_lines(&lines, &spec, total);
        assert_eq!(picked.len(), lines.len() - start);
        assert_eq!(picked[..], lines[start..]);
    }
}

#[test]
fn select_bytes_whole_single_line() {
    let bytes = ONE.as_bytes();
    assert_eq!(bytes.len(), 24);
    assert_eq!(get_start_index(&PlusZero, 24), Some(0));
    assert_eq!(select_bytes(bytes, &PlusZero, 24), Some(bytes.to_vec()));
    assert_eq!(select_bytes(bytes, &TakeNum(-24), 24), Some(bytes.to_vec()));
    assert_eq!(select_bytes(bytes, &TakeNum(1), 24), Some(bytes.to_vec()));
}

#[test]
fn select_bytes_parts() {
    let bytes = b"abcdef";
    assert_eq!(select_bytes(bytes, &TakeNum(-2), 6), Some(b"ef".to_vec()));
    assert_eq!(select_bytes(bytes, &TakeNum(3), 6), Some(b"cdef".to_vec()));
    assert_eq!(select_bytes(bytes, &TakeNum(0), 6), Some(vec![]));
    assert_eq!(select_bytes(bytes, &TakeNum(0), 60), Some(vec![]));
    assert_eq!(select_bytes(bytes, &TakeNum(-2), 7), None);
    assert_eq!(select_bytes(bytes, &TakeNum(-2), 4), Some(b"cd".to_vec()));
}

#[test]
fn header_lines() {
    assert_eq!(header(true, "a.txt"), "==> a.txt <==\n");
    assert_eq!(header(false, "a.txt"), "\n==> a.txt <==\n");
}

fn args(files: &[&str], lines: textutils::tail::TakeValue, bytes: Option<textutils::tail::TakeValue>, quiet: bool) -> Args {
    Args { files: strings(files), lines, bytes, quiet }
}

#[test]
fn tail_of_lines() {
    let one = args(&["twelve.txt"], TakeNum(-3), None, false);
    assert_eq!(tail(&one, true, "twelve.txt", TWELVE), "ten\neleven\ntwelve\n");
    let two = args(&["one.txt", "twelve.txt"], TakeNum(11), None, false);
    assert_eq!(tail(&two, true, "one.txt", ONE), "==> one.txt <==\n");
    assert_eq!(tail(&two, false, "twelve.txt", TWELVE), "\n==> twelve.txt <==\neleven\ntwelve\n");
    let quiet = args(&["one.txt", "twelve.txt"], PlusZero, None, true);
    assert_eq!(tail(&quiet, false, "one.txt", ONE), ONE);
    assert_eq!(tail(&quiet, false, "empty.txt", ""), "");
}

#[test]
fn tail_of_bytes() {
    let whole = args(&["one.txt"], TakeNum(-10), Some(PlusZero), false);
    assert_eq!(tail(&whole, true, "one.txt", ONE), ONE);
    let cut = args(&["one.txt"], TakeNum(-10), Some(TakeNum(2)), false);
    assert_eq!(tail(&cut, true, "one.txt", ONE), "\u{fffd}ne line, four wordś.\n");
    let last = args(&["one.txt"], TakeNum(-10), Some(TakeNum(-3)), false);
    assert_eq!(tail(&last, true, "one.txt", ONE), "\u{fffd}.\n");
}

#[test]
fn tail_over_sources() {
    let three = args(&["one.txt", "gone.txt", "twelve.txt"], TakeNum(-1), None, false);
    let contents = vec![Some(ONE.to_string()), None, Some(TWELVE.to_string())];
    assert_eq!(
        run(&three, &contents),
        vec![
            Ok(format!("==> one.txt <==\n{}", ONE)),
            Err("gone.txt".to_string()),
            Ok("\n==> twelve.txt <==\ntwelve\n".to_string()),
        ]
    );
    let contents = vec![None, None, Some(TWELVE.to_string())];
    assert_eq!(
        run(&three, &contents),
        vec![
            Err("one.txt".to_string()),
            Err("gone.txt".to_string()),
            Ok("==> twelve.txt <==\ntwelve\n".to_string()),
        ]
    );
    let quiet = args(&["one.txt", "twelve.txt"], TakeNum(-1), Some(TakeNum(-4)), true);
    let contents = vec![Some(ONE.to_string()), Some(TWELVE.to_string())];
    assert_eq!(run(&quiet, &contents), vec![Ok("ś.\n".to_string()), Ok("lve\n".to_string())]);
    assert_eq!(run(&args(&[], PlusZero, None, false), &vec![]), vec![]);
}

fn groups(items: &[Option<&str>]) -> Vec<Option<String>> {
    items.iter().map(|item| item.map(|s| s.to_string())).collect()
}

#[test]
fn take_value_of_a_match() {
    assert_eq!(take_value_of_match("+0", &groups(&[Some("+0"), Some("+")])), Ok(PlusZero));
    assert_eq!(take_value_of_match("0", &groups(&[Some("0"), Some("")])), Ok(TakeNum(0)));
    assert_eq!(take_value_of_match("-3", &groups(&[Some("-3"), Some("-")])), Ok(TakeNum(-3)));
    assert_eq!(take_value_of_match("3", &groups(&[Some("3"), Some("")])), Ok(TakeNum(-3)));
    assert_eq!(take_value_of_match("+3", &groups(&[Some("+3"), Some("+")])), Ok(TakeNum(3)));
    assert_eq!(
        take_value_of_match("99999999999999999999", &groups(&[None, Some("")])),
        Ok(TakeNum(i64::MIN))
    );
    assert_eq!(
        take_value_of_match("+99999999999999999999", &groups(&[None, Some("+")])),
        Ok(TakeNum(i64::MAX))
    );
    assert_eq!(take_value_of_match("-3", &groups(&[None, Some("")])), Ok(TakeNum(3)));
    assert_eq!(
        take_value_of_match("-9223372036854775808", &groups(&[None, Some("")])),
        Ok(TakeNum(i64::MAX))
    );
    assert_eq!(take_value_of_match("3", &groups(&[Some("3")])), Err("3".to_string()));
    assert_eq!(take_value_of_match("3", &groups(&[Some("3"), None])), Err("3".to_string()));
    assert_eq!(take_value_of_match("٣", &groups(&[Some("٣"), Some("")])), Err("٣".to_string()));
    assert_eq!(take_value_of_match("x", &groups(&[Some("x"), Some("+")])), Err("x".to_string()));
}
