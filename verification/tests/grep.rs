use textutils::pattern::{captures, group_chars};
use textutils::grep::{
    classify, find_lines, format_matches, only_stdin, run, select_matching, Args, Found,
    GrepError, Pattern,
};

fn pattern(text: &str, insensitive: bool) -> Pattern {
    Pattern { text: text.to_string(), insensitive }
}

fn strings(items: &[&str]) -> Vec<String> {
    items.iter().map(|s| s.to_string()).collect()
}

#[test]
fn test_find_lines() {
    let text = "Lorem\nIpsum\r\nDOLOR";

    // should match "Lorem"
    let re1 = pattern("or", false);
    let matches = find_lines(text, &re1, false);
    assert!(matches.is_ok());
    assert_eq!(matches.unwrap().len(), 1);

    // should match "Ipsum" and "DOLOR"
    let matches = find_lines(text, &re1, true);
    assert!(matches.is_ok());
    assert_eq!(matches.unwrap().len(), 2);

    // regex which does not distinguish sequence "or" from sequence "OR"
    let re2 = pattern("or", true);

    // should match "Lorem" and "DOLOR"
    let matches = find_lines(text, &re2, false);
    assert!(matches.is_ok());
    assert_eq!(matches.unwrap().len(), 2);

    // should match "Ipsum"
    let matches = find_lines(text, &re2, true);
    assert!(matches.is_ok());
    assert_eq!(matches.unwrap().len(), 1);
}

#[test]
fn find_lines_keeps_lines_whole() {
    let text = "Lorem\nIpsum\r\nDOLOR";
    assert_eq!(find_lines(text, &pattern("or", true), false), Ok(strings(&["Lorem\n", "DOLOR"])));
    assert_eq!(find_lines(text, &pattern("m$", false), false), Ok(strings(&[])));
    assert_eq!(find_lines(text, &pattern("m\r?\n$", false), false), Ok(strings(&["Lorem\n", "Ipsum\r\n"])));
    assert_eq!(find_lines(text, &pattern("^.p", false), false), Ok(strings(&["Ipsum\r\n"])));
    assert_eq!(find_lines("", &pattern("", false), false), Ok(strings(&[])));
    assert_eq!(find_lines("a", &pattern("", false), true), Ok(strings(&[])));
}

#[test]
fn find_lines_refuses_bad_patterns() {
    assert_eq!(
        find_lines("a\n", &pattern("(", false), false),
        Err(GrepError::InvalidPattern("(".to_string()))
    );
    assert_eq!(GrepError::InvalidPattern("*foo".to_string()).to_string(), "Invalid pattern \"*foo\"");
}

#[test]
fn select_by_marks() {
    let lines = strings(&["a", "b", "c"]);
    assert_eq!(select_matching(&lines, &vec![true, false, true], false), strings(&["a", "c"]));
    assert_eq!(select_matching(&lines, &vec![true, false, true], true), strings(&["b"]));
    assert_eq!(select_matching(&strings(&[]), &vec![], true), strings(&[]));
}

#[test]
fn classify_entries() {
    assert_eq!(
        classify("./tests/inputs", true, false, false),
        Found::Refused("./tests/inputs is a directory".to_string())
    );
    assert_eq!(classify("./tests/inputs", true, false, true), Found::Skipped);
    assert_eq!(classify("fox.txt", false, true, false), Found::File("fox.txt".to_string()));
    assert_eq!(classify("fox.txt", false, true, true), Found::File("fox.txt".to_string()));
    assert_eq!(classify("pipe", false, false, false), Found::Skipped);
    assert!(only_stdin(&strings(&["-"])));
    assert!(!only_stdin(&strings(&["-", "-"])));
    assert!(!only_stdin(&strings(&["a"])));
    assert!(!only_stdin(&strings(&[])));
}

#[test]
fn format_of_matches() {
    let found = strings(&["one\n", "two"]);
    assert_eq!(format_matches(false, false, "f", &found), "one\ntwo");
    assert_eq!(format_matches(false, true, "f", &found), "f:one\nf:two");
    assert_eq!(format_matches(true, false, "f", &found), "2\n");
    assert_eq!(format_matches(true, true, "f", &found), "f:2\n");
    assert_eq!(format_matches(true, true, "f", &strings(&[])), "f:0\n");
    assert_eq!(format_matches(false, true, "f", &strings(&[])), "");
}

#[test]
fn run_on_one_source() {
    let args = Args {
        pattern: "O".to_string(),
        files: strings(&["a", "b"]),
        recursive: false,
        count: false,
        invert_match: true,
        insensitive: true,
    };
    assert_eq!(run(&args, true, "a", "fox\ncat\ndog\n"), Ok("a:cat\n".to_string()));
    let bad = Args { pattern: "[".to_string(), ..args };
    assert_eq!(run(&bad, true, "a", "fox\n"), Err(GrepError::InvalidPattern("[".to_string())));
}

#[test]
fn groups_of_a_match() {
    let groups = captures("(a+)(b)?(c*)", "xaac");
    assert_eq!(
        groups,
        Some(vec![Some("aac".to_string()), Some("aa".to_string()), None, Some("c".to_string())])
    );
    let groups = groups.unwrap();
    assert_eq!(group_chars(&groups, 1), Some(vec!['a', 'a']));
    assert_eq!(group_chars(&groups, 2), None);
    assert_eq!(group_chars(&groups, 3), Some(vec!['c']));
    assert_eq!(group_chars(&groups, 4), None);
    assert_eq!(captures("(a+)", "xyz"), None);
    assert_eq!(captures("(a+", "aaa"), None);
    assert_eq!(captures("^$", ""), Some(vec![Some("".to_string())]));
}
