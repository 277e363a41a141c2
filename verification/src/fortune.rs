//! Sayings, read from files in which a line that starts with a percent sign
//! ends each saying.

use crate::pattern::{match_each, regex_compiles};
use crate::text::{
    chars_of, lemma_trimmed_len, lines_of, push_all, rows, slice, split_lines, string_of,
    trim_end_of, trimmed_length,
};
use rand::seq::SliceRandom;
use rand::SeedableRng;
use vstd::prelude::*;

verus! {

/// Where to look for sayings, and which to pick.
#[derive(Debug)]
pub struct Args {
    /// The files and directories that hold the sayings.
    pub sources: Vec<String>,
    /// A regular expression that the sayings to show match.
    pub pattern_str: Option<String>,
    /// The case of letters does not count in the match.
    pub insensitive: bool,
    /// The seed of the choice, for a choice that can be repeated.
    pub seed: Option<u64>,
}

/// A saying, and the file it was read from.
#[derive(Debug)]
pub struct Fortune {
    pub source: String,
    pub text: String,
}

/// Why no saying is shown.
#[derive(Debug, PartialEq, Eq)]
pub enum FortuneError {
    /// The text is no regular expression.
    InvalidPattern(String),
    /// The sources hold no saying.
    NoFortunes,
}

/// The line ends a saying: it starts with a percent sign.
pub open spec fn is_separator(line: Seq<char>) -> bool {
    line.len() > 0 && line[0] == '%'
}

/// The lines gathered since the last separator among the first `n` lines.
pub open spec fn pending(lines: Seq<Seq<char>>, n: int) -> Seq<char>
    decreases n,
{
    if n <= 0 || is_separator(lines[n - 1]) {
        Seq::empty()
    } else {
        pending(lines, n - 1) + lines[n - 1]
    }
}

/// The sayings that the first `n` lines hold: before each separator, the
/// lines gathered since the one before, without the white space at their
/// end, unless nothing is left of them. What follows the last separator is
/// no saying.
pub open spec fn sayings(lines: Seq<Seq<char>>, n: int) -> Seq<Seq<char>>
    decreases n,
{
    if n <= 0 {
        Seq::empty()
    } else if is_separator(lines[n - 1]) && trim_end_of(pending(lines, n - 1)).len() > 0 {
        sayings(lines, n - 1).push(trim_end_of(pending(lines, n - 1)))
    } else {
        sayings(lines, n - 1)
    }
}

/// The sayings of a text.
pub open spec fn sayings_of(content: Seq<char>) -> Seq<Seq<char>> {
    sayings(lines_of(content), lines_of(content).len() as int)
}

/// The texts of some sayings.
pub open spec fn texts(fortunes: Seq<Fortune>) -> Seq<Seq<char>> {
    Seq::new(fortunes.len(), |i: int| fortunes[i].text@)
}

/// The sayings that a text holds, each with the name of its source.
pub fn parse_fortunes(source: &str, content: &str) -> (fortunes: Vec<Fortune>)
    ensures
        texts(fortunes@) == sayings_of(content@),
        forall|i: int| 0 <= i < fortunes.len() ==> (#[trigger] fortunes@[i]).source@ == source@,
{
    let chars = chars_of(content);
    let lines = split_lines(&chars);
    let ghost all = lines_of(content@);
    let mut fortunes: Vec<Fortune> = Vec::new();
    let mut text: Vec<char> = Vec::new();
    let mut i: usize = 0;
    assert(rows(lines@).len() == lines@.len());
    assert(texts(fortunes@) =~= sayings(all, 0));
    while i < lines.len()
        invariant
            i <= lines.len(),
            all == rows(lines@),
            text@ == pending(all, i as int),
            texts(fortunes@) == sayings(all, i as int),
            forall|j: int|
                0 <= j < fortunes.len() ==> (#[trigger] fortunes@[j]).source@ == source@,
        decreases lines.len() - i,
    {
        assert(all[i as int] == lines@[i as int]@);
        let line = &lines[i];
        if line.len() > 0 && line[0] == '%' {
            let kept = trimmed_length(&text);
            proof {
                lemma_trimmed_len(text@);
            }
            if kept > 0 {
                let saying = slice(&text, 0, kept);
                assert(saying@ =~= trim_end_of(text@));
                let ghost before = texts(fortunes@);
                fortunes.push(
                    Fortune { source: source.to_owned(), text: string_of(&saying) },
                );
                assert(texts(fortunes@) =~= before.push(saying@));
            }
            text = Vec::new();
        } else {
            push_all(&mut text, line);
        }
        i += 1;
    }
    fortunes
}

/// The sayings of several files, in the order of the files. A file is given
/// by its name and its text.
pub fn read_fortunes(files: &Vec<(String, String)>) -> (fortunes: Vec<Fortune>)
    ensures
        texts(fortunes@) == all_sayings(files@, files@.len() as int),
{
    let mut fortunes: Vec<Fortune> = Vec::new();
    let mut i: usize = 0;
    assert(texts(fortunes@) =~= all_sayings(files@, 0));
    while i < files.len()
        invariant
            i <= files.len(),
            texts(fortunes@) == all_sayings(files@, i as int),
        decreases files.len() - i,
    {
        let ghost before = texts(fortunes@);
        let mut found = parse_fortunes(files[i].0.as_str(), files[i].1.as_str());
        let ghost added = texts(found@);
        fortunes.append(&mut found);
        assert(texts(fortunes@) =~= before + added);
        i += 1;
    }
    fortunes
}

/// The sayings of the first `n` files, in the order of the files.
pub open spec fn all_sayings(files: Seq<(String, String)>, n: int) -> Seq<Seq<char>>
    decreases n,
{
    if n <= 0 {
        Seq::empty()
    } else {
        all_sayings(files, n - 1) + sayings_of(files[n - 1].1@)
    }
}

/// The text is that of one of the sayings.
pub open spec fn is_text_of(text: Seq<char>, fortunes: Seq<Fortune>) -> bool {
    exists|i: int| 0 <= i < fortunes.len() && (#[trigger] fortunes[i]).text@ == text
}

/// Picks one of the sayings by the numbers that a seed gives.
///
/// Trusted: `choose` of `rand::seq::SliceRandom`, with a `rand::rngs::StdRng`
/// made by `seed_from_u64`. It picks an element of the slice, and nothing
/// only where the slice is empty. Which element it picks is not stated.
#[verifier::external_body]
fn choose_seeded(fortunes: &Vec<Fortune>, seed: u64) -> (text: Option<String>)
    ensures
        text is None <==> fortunes@.len() == 0,
        text is Some ==> is_text_of(text->Some_0@, fortunes@),
{
    let mut rng = rand::rngs::StdRng::seed_from_u64(seed);
    fortunes.choose(&mut rng).map(|fortune| fortune.text.to_owned())
}

/// Picks one of the sayings at random.
///
/// Trusted: `choose` of `rand::seq::SliceRandom`, with the generator of
/// `rand::thread_rng`. It picks an element of the slice, and nothing only
/// where the slice is empty.
#[verifier::external_body]
fn choose_random(fortunes: &Vec<Fortune>) -> (text: Option<String>)
    ensures
        text is None <==> fortunes@.len() == 0,
        text is Some ==> is_text_of(text->Some_0@, fortunes@),
{
    let mut rng = rand::thread_rng();
    fortunes.choose(&mut rng).map(|fortune| fortune.text.to_owned())
}

/// Picks one of the sayings and hands out its text: by the seed, where one
/// is given, so that the same seed picks the same saying; else at random.
/// Nothing is picked only where there is no saying.
pub fn pick_fortune(fortunes: &Vec<Fortune>, seed: Option<u64>) -> (text: Option<String>)
    ensures
        text is None <==> fortunes@.len() == 0,
        text is Some ==> is_text_of(text->Some_0@, fortunes@),
{
    match seed {
        Some(seed) => choose_seeded(fortunes, seed),
        None => choose_random(fortunes),
    }
}

/// The text of the last saying, if there is one.
pub fn last_fortune(fortunes: &Vec<Fortune>) -> (text: Option<String>)
    ensures
        fortunes@.len() == 0 ==> text is None,
        fortunes@.len() > 0 ==> text is Some && text->Some_0@ == fortunes@.last().text@,
{
    if fortunes.len() == 0 {
        None
    } else {
        Some(fortunes[fortunes.len() - 1].text.clone())
    }
}

/// What is shown for the sayings read: the text of the last of them.
///
/// A pattern that is no regular expression is an error, and so is to have
/// no sayings.
pub fn run(args: &Args, fortunes: &Vec<Fortune>) -> (r: Result<String, FortuneError>)
    ensures
        match args.pattern_str {
            Some(pattern) => !regex_compiles(pattern@, args.insensitive) ==> r == Err::<
                String,
                FortuneError,
            >(FortuneError::InvalidPattern(pattern)),
            None => true,
        },
        (args.pattern_str is Some ==> regex_compiles(
            args.pattern_str->Some_0@,
            args.insensitive,
        )) ==> (if fortunes@.len() == 0 {
            r == Err::<String, FortuneError>(FortuneError::NoFortunes)
        } else {
            r is Ok && r->Ok_0@ == fortunes@.last().text@
        }),
{
    match &args.pattern_str {
        Some(pattern) => {
            let none: Vec<String> = Vec::new();
            if match_each(pattern.as_str(), args.insensitive, &none).is_none() {
                return Err(FortuneError::InvalidPattern(pattern.clone()));
            }
        },
        None => {},
    }
    match last_fortune(fortunes) {
        Some(text) => Ok(text),
        None => Err(FortuneError::NoFortunes),
    }
}

} // verus!
