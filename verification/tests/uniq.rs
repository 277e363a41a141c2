use textutils::uniq::{print_format, run, Config};

fn config(count: bool) -> Config {
    Config { in_file: "-".to_string(), out_file: None, count }
}

#[test]
fn uniq_of_runs() {
    assert_eq!(run(&config(false), "a\na\nb\na\n"), "a\nb\na\n");
    assert_eq!(run(&config(true), "a\na\nb\na\n"), "   2 a\n   1 b\n   1 a\n");
    assert_eq!(run(&config(true), ""), "");
    assert_eq!(run(&config(false), "\n"), "\n");
    assert_eq!(run(&config(true), "\n\n\n"), "   3 \n");
}

#[test]
fn uniq_ignores_trailing_white_space() {
    assert_eq!(run(&config(true), "a \na\na\t\r\nb"), "   3 a \n   1 b");
    assert_eq!(run(&config(true), "a\na"), "   2 a\n");
    assert_eq!(run(&config(true), " a\na\n"), "   1  a\n   1 a\n");
    assert_eq!(run(&config(false), "x\u{3000}\nx\n"), "x\u{3000}\n");
}

#[test]
fn uniq_counts_are_right_aligned() {
    let text = "z\n".repeat(12345);
    assert_eq!(run(&config(true), &text), "12345 z\n");
    assert_eq!(print_format(true, 7, "line\n"), "   7 line\n");
    assert_eq!(print_format(true, 1000, "line\n"), "1000 line\n");
    assert_eq!(print_format(false, 7, "line\n"), "line\n");
}
