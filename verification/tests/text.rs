use textutils::decimal::{digit_of, integer_chars, push_decimal, scan_integer, Integer, Scanned};
use textutils::text::{
    chars_of, concatenate, equals, equals_ignoring_case, lines, lists_of, push_centered,
    push_left_aligned, push_right_aligned, slice, split, split_lines, string_of, strings_of,
    trimmed_length, whitespace,
};

fn chars(s: &str) -> Vec<char> {
    s.chars().collect()
}

#[test]
fn characters_and_strings() {
    assert_eq!(chars_of("héllo"), chars("héllo"));
    assert_eq!(chars_of(""), chars(""));
    assert_eq!(string_of(&chars("héllo")), "héllo");
    assert_eq!(strings_of(&vec![chars("a"), chars("")]), ["a", ""]);
    assert_eq!(lists_of(&vec!["a".to_string(), "bc".to_string()]), [chars("a"), chars("bc")]);
    assert_eq!(concatenate(&vec!["a\n".to_string(), "".to_string(), "b".to_string()]), "a\nb");
    assert_eq!(concatenate(&vec![]), "");
}

#[test]
fn lines_keep_their_ends() {
    assert_eq!(lines("a\nb\r\n\nc"), ["a\n", "b\r\n", "\n", "c"]);
    assert_eq!(lines("a\n"), ["a\n"]);
    assert_eq!(lines("\n"), ["\n"]);
    assert_eq!(lines(""), Vec::<String>::new());
    assert_eq!(split_lines(&chars("x\ny")), [chars("x\n"), chars("y")]);
    for text in ["", "a", "a\n", "\n\n", "a\n\nb", "a\r\nb\n"] {
        assert_eq!(concatenate(&lines(text)), text);
        assert_eq!(lines(text).len(), text.lines().count());
    }
}

#[test]
fn split_at_a_character() {
    assert_eq!(split(&chars("a,b,,c"), ','), [chars("a"), chars("b"), chars(""), chars("c")]);
    assert_eq!(split(&chars(""), ','), [chars("")]);
    assert_eq!(split(&chars(","), ','), [chars(""), chars("")]);
    assert_eq!(split(&chars("abc"), ','), [chars("abc")]);
    for text in ["", ",", "a,", ",a", "a,b", "a,,b,"] {
        let parts: Vec<Vec<char>> = text.split(',').map(chars).collect();
        assert_eq!(split(&chars(text), ','), parts);
    }
    assert_eq!(slice(&chars("abcdef"), 2, 4), chars("cd"));
    assert_eq!(slice(&chars("abcdef"), 3, 3), chars(""));
}

#[test]
fn comparing_texts() {
    assert!(equals(&chars("abc"), &chars("abc")));
    assert!(!equals(&chars("abc"), &chars("abd")));
    assert!(!equals(&chars("abc"), &chars("ab")));
    assert!(equals_ignoring_case(&chars("aBc-Z"), &chars("AbC-z")));
    assert!(!equals_ignoring_case(&chars("é"), &chars("É")));
    assert!(!equals_ignoring_case(&chars("k"), &chars("\u{212a}")));
    assert!(!equals_ignoring_case(&chars("@"), &chars("`")));
    assert!(!equals_ignoring_case(&chars("["), &chars("{")));
    for (a, b) in [("", ""), ("a", "A"), ("az", "AZ"), ("a", "b"), ("ab", "a"), ("É", "é")] {
        assert_eq!(equals_ignoring_case(&chars(a), &chars(b)), a.eq_ignore_ascii_case(b));
    }
}

#[test]
fn white_space() {
    for code in 0..0x11000u32 {
        if let Some(c) = char::from_u32(code) {
            assert_eq!(whitespace(c), c.is_whitespace(), "U+{:04X}", code);
        }
    }
    for text in ["", " ", "a", "a \t\r\n", " a", "a b  ", "\u{3000}\u{a0}", "a\u{200b}"] {
        assert_eq!(trimmed_length(&chars(text)), text.trim_end().chars().count());
    }
}

#[test]
fn padding() {
    let pad = |align: fn(&mut Vec<char>, &Vec<char>, usize), text: &str, width: usize| {
        let mut out = chars(">");
        align(&mut out, &chars(text), width);
        string_of(&out)
    };
    assert_eq!(pad(push_right_aligned, "ab", 5), ">   ab");
    assert_eq!(pad(push_left_aligned, "ab", 5), ">ab   ");
    assert_eq!(pad(push_centered, "ab", 5), "> ab  ");
    assert_eq!(pad(push_centered, "ab", 6), ">  ab  ");
    assert_eq!(pad(push_centered, "abcdef", 3), ">abcdef");
    assert_eq!(pad(push_right_aligned, "abcdef", 3), ">abcdef");
    assert_eq!(pad(push_left_aligned, "é", 2), format!(">{:<2}", "é"));
    for width in 0..9 {
        assert_eq!(pad(push_centered, "May", width), format!(">{:^width$}", "May"));
        assert_eq!(pad(push_right_aligned, "May", width), format!(">{:>width$}", "May"));
    }
}

#[test]
fn decimal_digits() {
    for n in [0u64, 7, 10, 99, 100, 12345, u64::MAX] {
        let mut out = Vec::new();
        push_decimal(&mut out, n);
        assert_eq!(string_of(&out), n.to_string());
        assert_eq!(u64::from_chars(&out), Some(n));
    }
    for n in [0i64, -1, 1, -10, i64::MIN, i64::MAX] {
        assert_eq!(string_of(&integer_chars(n)), n.to_string());
        assert_eq!(i64::from_chars(&integer_chars(n)), Some(n));
    }
    assert_eq!(digit_of('7'), Some(7));
    assert_eq!(digit_of('a'), None);
    assert_eq!(digit_of('٧'), None);
}

#[test]
fn scanning_integers() {
    assert_eq!(
        scan_integer(&chars("-12"), true),
        Some(Scanned { negative: true, plus: false, magnitude: Some(12) })
    );
    assert_eq!(
        scan_integer(&chars("+12"), false),
        Some(Scanned { negative: false, plus: true, magnitude: Some(12) })
    );
    assert_eq!(scan_integer(&chars("-12"), false), None);
    assert_eq!(
        scan_integer(&chars("18446744073709551616"), false),
        Some(Scanned { negative: false, plus: false, magnitude: None })
    );
    assert_eq!(
        scan_integer(&chars("000018446744073709551615"), false),
        Some(Scanned { negative: false, plus: false, magnitude: Some(u64::MAX) })
    );
    for bad in ["", "+", "-", "1-", "--1", "1.0"] {
        assert_eq!(scan_integer(&chars(bad), true), None);
    }
}
