//! Runs of repeated lines: one line for each run, with the length of the run.

use crate::decimal::{decimal_digits, push_decimal};
use crate::text::{
    chars_of, lines_of, push_all, push_right_aligned, right_aligned, rows, split_lines,
    string_of, trim_end_of, trimmed_len, trimmed_length, lemma_trimmed_len,
};
use vstd::prelude::*;

verus! {

/// Where to read, where to write, and whether to count.
#[derive(Debug)]
pub struct Config {
    /// The name of the source; `-` is the standard input.
    pub in_file: String,
    /// The name of the file to write, if not the standard output.
    pub out_file: Option<String>,
    /// Put the length of its run before each line.
    pub count: bool,
}

/// A run of lines that are the same: its first line, and how many there are.
pub struct Run {
    /// The first line of the run, as it was read.
    pub line: Vec<char>,
    /// The number of lines in the run.
    pub count: usize,
}

/// A `Run` as a mathematical value: its first line and its length.
pub open spec fn run_view(run: Run) -> (Seq<char>, int) {
    (run.line@, run.count as int)
}

/// `Run`s as mathematical values.
pub open spec fn run_views(runs: Seq<Run>) -> Seq<(Seq<char>, int)> {
    Seq::new(runs.len(), |i: int| run_view(runs[i]))
}

/// Two lines are the same: they differ at most in the white space at their end.
pub open spec fn same_line(a: Seq<char>, b: Seq<char>) -> bool {
    trim_end_of(a) == trim_end_of(b)
}

/// The runs of lines that are the same, in order: for each its first line
/// and its length.
pub open spec fn runs_of(lines: Seq<Seq<char>>) -> Seq<(Seq<char>, int)>
    decreases lines.len(),
{
    if lines.len() == 0 {
        Seq::empty()
    } else {
        let before = runs_of(lines.drop_last());
        if before.len() > 0 && same_line(before.last().0, lines.last()) {
            before.drop_last().push((before.last().0, before.last().1 + 1))
        } else {
            before.push((lines.last(), 1))
        }
    }
}

/// The runs of some lines hold those lines and no others: their lengths add
/// up to no more than the number of lines.
pub proof fn lemma_runs_bounded(lines: Seq<Seq<char>>)
    ensures
        runs_of(lines).len() <= lines.len(),
        lines.len() > 0 ==> runs_of(lines).len() > 0,
        forall|i: int| 0 <= i < runs_of(lines).len() ==> 1 <= (#[trigger] runs_of(lines)[i]).1,
        runs_of(lines).len() > 0 ==> runs_of(lines).last().1 + runs_of(lines).len() - 1
            <= lines.len(),
    decreases lines.len(),
{
    if lines.len() > 0 {
        lemma_runs_bounded(lines.drop_last());
    }
}

/// True when two lines are the same.
pub fn is_same_line(a: &Vec<char>, b: &Vec<char>) -> (same: bool)
    ensures
        same == same_line(a@, b@),
{
    let n = trimmed_length(a);
    let m = trimmed_length(b);
    proof {
        lemma_trimmed_len(a@);
        lemma_trimmed_len(b@);
    }
    if n != m {
        assert(trim_end_of(a@).len() != trim_end_of(b@).len());
        return false;
    }
    let mut i: usize = 0;
    while i < n
        invariant
            i <= n,
            n == m,
            n == trimmed_len(a@),
            m == trimmed_len(b@),
            n <= a.len(),
            m <= b.len(),
            forall|j: int| 0 <= j < i ==> a@[j] == b@[j],
        decreases n - i,
    {
        if a[i] != b[i] {
            assert(trim_end_of(a@)[i as int] != trim_end_of(b@)[i as int]);
            return false;
        }
        i += 1;
    }
    assert(trim_end_of(a@) =~= trim_end_of(b@));
    true
}

/// Groups lines into runs of lines that are the same.
pub fn group(lines: &Vec<Vec<char>>) -> (runs: Vec<Run>)
    ensures
        run_views(runs@) == runs_of(rows(lines@)),
{
    let ghost all = rows(lines@);
    let mut runs: Vec<Run> = Vec::new();
    let mut i: usize = 0;
    assert(all.take(0) =~= Seq::<Seq<char>>::empty());
    assert(run_views(runs@) =~= runs_of(all.take(0)));
    while i < lines.len()
        invariant
            i <= lines.len(),
            all == rows(lines@),
            run_views(runs@) == runs_of(all.take(i as int)),
        decreases lines.len() - i,
    {
        proof {
            assert(all.take(i + 1).drop_last() =~= all.take(i as int));
            assert(all.take(i + 1).last() == lines@[i as int]@);
            lemma_runs_bounded(all.take(i as int));
        }
        let ghost before = runs@;
        let n = runs.len();
        if n > 0 && is_same_line(&runs[n - 1].line, &lines[i]) {
            assert(run_views(before).last() == run_view(before[n - 1]));
            let last = runs.pop().unwrap();
            assert(last.count < usize::MAX);
            let grown = Run { line: last.line, count: last.count + 1 };
            runs.push(grown);
            assert(run_views(runs@) =~= run_views(before).drop_last().push(
                (run_views(before).last().0, run_views(before).last().1 + 1),
            ));
        } else {
            if n > 0 {
                assert(run_views(before).last() == run_view(before[n - 1]));
            }
            runs.push(Run { line: lines[i].clone(), count: 1 });
            assert(run_views(runs@) =~= run_views(before).push((lines@[i as int]@, 1)));
        }
        i += 1;
    }
    assert(all.take(i as int) =~= all);
    runs
}

/// A run as it is written: its first line, after the length of the run,
/// moved to the right in four characters, and a space, where lengths are wanted.
pub open spec fn run_line(show_count: bool, counter: int, line: Seq<char>) -> Seq<char> {
    if show_count {
        right_aligned(decimal_digits(counter as nat), 4) + seq![' '] + line
    } else {
        line
    }
}

/// Appends a run as it is written.
fn push_run(out: &mut Vec<char>, show_count: bool, counter: usize, line: &Vec<char>)
    ensures
        final(out)@ == old(out)@ + run_line(show_count, counter as int, line@),
{
    if show_count {
        let mut digits: Vec<char> = Vec::new();
        push_decimal(&mut digits, counter as u64);
        push_right_aligned(out, &digits, 4);
        out.push(' ');
    }
    push_all(out, line);
    assert(final(out)@ =~= old(out)@ + run_line(show_count, counter as int, line@));
}

/// A run as it is written.
pub fn print_format(show_count: bool, counter: usize, line: &str) -> (out: String)
    ensures
        out@ == run_line(show_count, counter as int, line@),
{
    let chars = chars_of(line);
    let mut out: Vec<char> = Vec::new();
    push_run(&mut out, show_count, counter, &chars);
    assert(out@ =~= run_line(show_count, counter as int, line@));
    string_of(&out)
}

/// The first `n` runs as they are written, one after the other.
pub open spec fn written(runs: Seq<(Seq<char>, int)>, show_count: bool, n: int) -> Seq<char>
    decreases n,
{
    if n <= 0 {
        Seq::empty()
    } else {
        written(runs, show_count, n - 1) + run_line(show_count, runs[n - 1].1, runs[n - 1].0)
    }
}

/// What is written for a text: its lines without the repeats.
pub open spec fn uniq_of(content: Seq<char>, show_count: bool) -> Seq<char> {
    written(runs_of(lines_of(content)), show_count, runs_of(lines_of(content)).len() as int)
}

/// Writes one line for each run of lines of a text that are the same.
///
/// Two lines are the same where they differ at most in the white space at
/// their end. The line written is the first of the run, as it was read.
pub fn run(config: &Config, content: &str) -> (out: String)
    ensures
        out@ == uniq_of(content@, config.count),
{
    let chars = chars_of(content);
    let lines = split_lines(&chars);
    let runs = group(&lines);
    let ghost wanted = runs_of(lines_of(content@));
    let mut out: Vec<char> = Vec::new();
    let mut i: usize = 0;
    assert(run_views(runs@).len() == runs@.len());
    while i < runs.len()
        invariant
            i <= runs.len(),
            wanted == run_views(runs@),
            out@ == written(wanted, config.count, i as int),
        decreases runs.len() - i,
    {
        assert(wanted[i as int] == run_view(runs@[i as int]));
        push_run(&mut out, config.count, runs[i].count, &runs[i].line);
        i += 1;
    }
    string_of(&out)
}

} // verus!
