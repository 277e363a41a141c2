//! The lines of a text that match a regular expression.

use crate::decimal::{decimal_digits, push_decimal};
use crate::pattern::{match_each, regex_compiles, regex_matches};
use crate::text::{chars_of, lines, lines_of, push_all, string_of, views};
use vstd::prelude::*;
use vstd::string::StringExecFns;

verus! {

/// What to search for, and where.
#[derive(Debug)]
pub struct Args {
    /// The regular expression.
    pub pattern: String,
    /// The names of the sources; `-` is the standard input.
    pub files: Vec<String>,
    /// Search the directories among the sources, and all below them.
    pub recursive: bool,
    /// Write the number of matching lines, not the lines.
    pub count: bool,
    /// Select the lines that do not match.
    pub invert_match: bool,
    /// The case of letters does not count.
    pub insensitive: bool,
}

/// A regular expression as it was given.
#[derive(Debug)]
pub struct Pattern {
    /// The text of the expression.
    pub text: String,
    /// The case of letters does not count.
    pub insensitive: bool,
}

/// Why nothing was searched.
#[derive(Debug, PartialEq, Eq)]
pub enum GrepError {
    /// The text is no regular expression.
    InvalidPattern(String),
}

impl GrepError {
    /// The words that report an expression that is none.
    pub open spec fn message(pattern: Seq<char>) -> Seq<char> {
        "Invalid pattern \""@ + pattern + "\""@
    }

    /// The words that report the error.
    pub fn to_string(&self) -> (out: String)
        ensures
            match self {
                GrepError::InvalidPattern(pattern) => out@ == Self::message(pattern@),
            },
    {
        match self {
            GrepError::InvalidPattern(pattern) => {
                let mut out = String::from_str("Invalid pattern \"");
                out.append(pattern.as_str());
                out.append("\"");
                assert(out@ =~= Self::message(pattern@));
                out
            },
        }
    }
}

/// The items that are kept: those marked as matching, or, where the
/// selection is inverted, those not so marked. They keep their order.
pub open spec fn kept<T>(items: Seq<T>, matched: Seq<bool>, invert_match: bool) -> Seq<T>
    decreases items.len(),
{
    if items.len() == 0 {
        Seq::empty()
    } else if matched[items.len() - 1] != invert_match {
        kept(items.drop_last(), matched, invert_match).push(items.last())
    } else {
        kept(items.drop_last(), matched, invert_match)
    }
}

/// The lines that a pattern selects: those it matches, or, where the
/// selection is inverted, those it does not match.
pub open spec fn selects(pattern: Seq<char>, insensitive: bool, invert_match: bool) -> spec_fn(
    Seq<char>,
) -> bool {
    |line: Seq<char>| regex_matches(pattern, insensitive, line) != invert_match
}

/// Keeping the items marked as matching is filtering by the match, where
/// each mark says whether its item matches.
pub proof fn lemma_kept_is_filter<T>(
    items: Seq<T>,
    matched: Seq<bool>,
    invert_match: bool,
    pred: spec_fn(T) -> bool,
)
    requires
        matched.len() >= items.len(),
        forall|i: int| 0 <= i < items.len() ==> (matched[i] != invert_match) == pred(items[i]),
    ensures
        kept(items, matched, invert_match) == items.filter(pred),
    decreases items.len(),
{
    reveal(Seq::filter);
    if items.len() > 0 {
        let shorter = items.drop_last();
        assert forall|i: int| 0 <= i < shorter.len() implies (matched[i] != invert_match)
            == pred(shorter[i]) by {
            assert(shorter[i] == items[i]);
        }
        lemma_kept_is_filter(shorter, matched, invert_match, pred);
    }
}

/// Selects the lines marked as matching, or those not so marked.
pub fn select_matching(lines: &Vec<String>, matched: &Vec<bool>, invert_match: bool) -> (found:
    Vec<String>)
    requires
        matched.len() == lines.len(),
    ensures
        found@ == kept(lines@, matched@, invert_match),
{
    let mut found: Vec<String> = Vec::new();
    let mut i: usize = 0;
    assert(lines@.take(0) =~= Seq::<String>::empty());
    while i < lines.len()
        invariant
            i <= lines.len(),
            matched.len() == lines.len(),
            found@ == kept(lines@.take(i as int), matched@, invert_match),
        decreases lines.len() - i,
    {
        assert(lines@.take(i + 1).drop_last() =~= lines@.take(i as int));
        assert(lines@.take(i + 1).last() == lines@[i as int]);
        if matched[i] != invert_match {
            found.push(lines[i].clone());
        }
        i += 1;
    }
    assert(lines@.take(i as int) =~= lines@);
    found
}

/// The lines of a text that a pattern selects, each with the line feed that
/// ends it; or the error where the pattern is no regular expression.
pub fn find_lines(content: &str, pattern: &Pattern, invert_match: bool) -> (r: Result<
    Vec<String>,
    GrepError,
>)
    ensures
        r is Ok <==> regex_compiles(pattern.text@, pattern.insensitive),
        r is Ok ==> views(r->Ok_0@) == lines_of(content@).filter(
            selects(pattern.text@, pattern.insensitive, invert_match),
        ),
        r is Err ==> r->Err_0 == GrepError::InvalidPattern(pattern.text),
{
    let all = lines(content);
    match match_each(pattern.text.as_str(), pattern.insensitive, &all) {
        None => Err(GrepError::InvalidPattern(pattern.text.clone())),
        Some(matched) => {
            let found = select_matching(&all, &matched, invert_match);
            proof {
                let pred = selects(pattern.text@, pattern.insensitive, invert_match);
                let texts = views(all@);
                assert forall|i: int| 0 <= i < texts.len() implies (matched@[i] != invert_match)
                    == pred(texts[i]) by {
                    assert(matched@[i] == regex_matches(
                        pattern.text@,
                        pattern.insensitive,
                        all@[i]@,
                    ));
                }
                lemma_kept_is_filter(texts, matched@, invert_match, pred);
                lemma_kept_views(all@, matched@, invert_match);
            }
            Ok(found)
        },
    }
}

/// Keeping strings and then viewing them is keeping their views.
pub proof fn lemma_kept_views(items: Seq<String>, matched: Seq<bool>, invert_match: bool)
    ensures
        views(kept(items, matched, invert_match)) == kept(views(items), matched, invert_match),
    decreases items.len(),
{
    if items.len() > 0 {
        lemma_kept_views(items.drop_last(), matched, invert_match);
        assert(views(items).drop_last() =~= views(items.drop_last()));
        assert(views(items).last() == items.last()@);
        let shorter = kept(items.drop_last(), matched, invert_match);
        assert(views(shorter.push(items.last())) =~= views(shorter).push(items.last()@));
    }
    assert(views(kept(items, matched, invert_match)) =~= kept(
        views(items),
        matched,
        invert_match,
    ));
}

/// What becomes of an entry that a walk of the sources met.
#[derive(Debug, PartialEq, Eq)]
pub enum Found {
    /// A file to search, by its path.
    File(String),
    /// The words that say why the entry is not searched.
    Refused(String),
    /// Neither a file nor an error: passed over in silence.
    Skipped,
}

/// The words that refuse a directory.
pub open spec fn is_a_directory(path: Seq<char>) -> Seq<char> {
    path + " is a directory"@
}

/// Decides what becomes of an entry: a directory is refused unless the
/// search goes below the sources; a file is searched; all else is passed over.
pub fn classify(path: &str, is_dir: bool, is_file: bool, recursive: bool) -> (found: Found)
    ensures
        !recursive && is_dir ==> found is Refused && found->Refused_0@ == is_a_directory(path@),
        !(!recursive && is_dir) && is_file ==> found is File && found->File_0@ == path@,
        !(!recursive && is_dir) && !is_file ==> found is Skipped,
{
    if !recursive && is_dir {
        let mut message = String::from_str(path);
        message.append(" is a directory");
        Found::Refused(message)
    } else if is_file {
        Found::File(String::from_str(path))
    } else {
        Found::Skipped
    }
}

/// The sources are the standard input and nothing else.
pub fn only_stdin(paths: &Vec<String>) -> (b: bool)
    ensures
        b == (paths@.len() == 1 && paths@[0]@ == seq!['-']),
{
    if paths.len() != 1 {
        return false;
    }
    let chars = chars_of(paths[0].as_str());
    if chars.len() == 1 && chars[0] == '-' {
        assert(chars@ =~= seq!['-']);
        true
    } else {
        assert(chars@ != seq!['-']) by {
            if chars@.len() == 1 {
                assert(seq!['-'][0] == '-');
            } else {
                assert(seq!['-'].len() == 1);
            }
        }
        false
    }
}

/// What stands before each piece of output of a source: its name and a
/// colon, where several sources are searched.
pub open spec fn prefix(filename: Seq<char>, several: bool) -> Seq<char> {
    if several {
        filename + seq![':']
    } else {
        Seq::empty()
    }
}

/// The first `n` lines, each after the prefix.
pub open spec fn prefixed(lines: Seq<Seq<char>>, before: Seq<char>, n: int) -> Seq<char>
    decreases n,
{
    if n <= 0 {
        Seq::empty()
    } else {
        prefixed(lines, before, n - 1) + before + lines[n - 1]
    }
}

/// What is written for the selected lines of a source: their number on a
/// line, where the number is asked for, else the lines; each after the name
/// of the source and a colon where several sources are searched.
pub open spec fn report(count: bool, several: bool, filename: Seq<char>, found: Seq<Seq<char>>)
    -> Seq<char> {
    if count {
        prefix(filename, several) + decimal_digits(found.len()) + seq!['\n']
    } else {
        prefixed(found, prefix(filename, several), found.len() as int)
    }
}

/// Writes the selected lines of a source, or their number.
pub fn format_matches(count: bool, several: bool, filename: &str, found: &Vec<String>) -> (out:
    String)
    ensures
        out@ == report(count, several, filename@, views(found@)),
{
    let mut before: Vec<char> = Vec::new();
    if several {
        before = chars_of(filename);
        before.push(':');
    }
    assert(before@ =~= prefix(filename@, several));
    let mut out: Vec<char> = Vec::new();
    if count {
        push_all(&mut out, &before);
        push_decimal(&mut out, found.len() as u64);
        out.push('\n');
        assert(out@ =~= report(count, several, filename@, views(found@)));
    } else {
        let mut i: usize = 0;
        while i < found.len()
            invariant
                i <= found.len(),
                out@ == prefixed(views(found@), before@, i as int),
            decreases found.len() - i,
        {
            let ghost so_far = out@;
            push_all(&mut out, &before);
            let line = chars_of(found[i].as_str());
            push_all(&mut out, &line);
            assert(out@ =~= so_far + before@ + views(found@)[i as int]);
            i += 1;
        }
    }
    string_of(&out)
}

/// Searches one source and writes what was found.
pub fn run(args: &Args, several: bool, filename: &str, content: &str) -> (r: Result<
    String,
    GrepError,
>)
    ensures
        r is Ok <==> regex_compiles(args.pattern@, args.insensitive),
        r is Ok ==> r->Ok_0@ == report(
            args.count,
            several,
            filename@,
            lines_of(content@).filter(
                selects(args.pattern@, args.insensitive, args.invert_match),
            ),
        ),
        r is Err ==> r->Err_0 == GrepError::InvalidPattern(args.pattern),
{
    let pattern = Pattern { text: args.pattern.clone(), insensitive: args.insensitive };
    match find_lines(content, &pattern, args.invert_match) {
        Ok(found) => Ok(format_matches(args.count, several, filename, &found)),
        Err(error) => Err(error),
    }
}

} // verus!
