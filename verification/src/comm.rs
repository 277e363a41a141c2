//! Two lists of lines side by side: what only the first holds, what only the
//! second holds, and what both hold.

use crate::text::{
    chars_of, equal_ignoring_case, equals, equals_ignoring_case, lists_of, push_all, rows,
    string_of, views,
};
use vstd::prelude::*;

verus! {

/// The two sources and what to show of them.
pub struct Args {
    /// The name of the first source; `-` is the standard input.
    pub file1: String,
    /// The name of the second source; `-` is the standard input.
    pub file2: String,
    /// Show the lines that only the first source holds.
    pub show_col1: bool,
    /// Show the lines that only the second source holds.
    pub show_col2: bool,
    /// Show the lines that both hold.
    pub show_col3: bool,
    /// The case of ASCII letters does not count.
    pub insensitive: bool,
    /// What stands before a line for each column to its left.
    pub delimiter: String,
}

/// A line of the output: the column it stands in, and the index of the line
/// in its source. A line that both sources hold is named by its index in
/// the first.
#[derive(Clone, Copy, Debug, PartialEq, Eq, Structural)]
pub enum Shown {
    First(usize),
    Second(usize),
    Both(usize),
}

/// Why nothing is shown.
#[derive(Clone, Copy, Debug, PartialEq, Eq, Structural)]
pub enum CommError {
    /// Both sources are the standard input.
    BothStdin,
    /// A pair of equal lines lies behind what was already shown, so that the
    /// lines of a source run out before the pairs do.
    OutOfOrder,
}

/// Two lines are equal, with or without regard to the case of ASCII letters.
pub open spec fn matched(a: Seq<char>, b: Seq<char>, insensitive: bool) -> bool {
    if insensitive {
        equal_ignoring_case(a, b)
    } else {
        a == b
    }
}

/// The pairs of the line `i` of the first list with the equal lines among
/// the first `n` of the second, in rising order.
pub open spec fn row_pairs(
    first: Seq<Seq<char>>,
    second: Seq<Seq<char>>,
    insensitive: bool,
    i: int,
    n: int,
) -> Seq<(usize, usize)>
    decreases n,
{
    if n <= 0 {
        Seq::empty()
    } else {
        row_pairs(first, second, insensitive, i, n - 1) + if matched(
            first[i],
            second[n - 1],
            insensitive,
        ) {
            seq![(i as usize, (n - 1) as usize)]
        } else {
            Seq::empty()
        }
    }
}

/// The pairs of equal lines, one of the first `n` lines of the first list and
/// one of the second, ordered by the first index and then by the second.
pub open spec fn common_pairs(
    first: Seq<Seq<char>>,
    second: Seq<Seq<char>>,
    insensitive: bool,
    n: int,
) -> Seq<(usize, usize)>
    decreases n,
{
    if n <= 0 {
        Seq::empty()
    } else {
        common_pairs(first, second, insensitive, n - 1) + row_pairs(
            first,
            second,
            insensitive,
            n - 1,
            second.len() as int,
        )
    }
}

/// Every pair names a line of the first list and one of the second.
pub open spec fn in_range(pairs: Seq<(usize, usize)>, len1: int, len2: int) -> bool {
    forall|i: int| 0 <= i < pairs.len() ==> (#[trigger] pairs[i]).0 < len1 && pairs[i].1 < len2
}

/// True when two lines are equal.
fn is_matched(a: &Vec<char>, b: &Vec<char>, insensitive: bool) -> (same: bool)
    ensures
        same == matched(a@, b@, insensitive),
{
    if insensitive {
        equals_ignoring_case(a, b)
    } else {
        equals(a, b)
    }
}

/// The pairs of equal lines of two lists.
pub fn common_ids(first: &Vec<Vec<char>>, second: &Vec<Vec<char>>, insensitive: bool) -> (pairs:
    Vec<(usize, usize)>)
    ensures
        pairs@ == common_pairs(rows(first@), rows(second@), insensitive, first.len() as int),
        in_range(pairs@, first.len() as int, second.len() as int),
{
    let ghost a = rows(first@);
    let ghost b = rows(second@);
    let mut pairs: Vec<(usize, usize)> = Vec::new();
    let mut i: usize = 0;
    while i < first.len()
        invariant
            i <= first.len(),
            a == rows(first@),
            b == rows(second@),
            pairs@ == common_pairs(a, b, insensitive, i as int),
            in_range(pairs@, first.len() as int, second.len() as int),
        decreases first.len() - i,
    {
        let ghost before = pairs@;
        let mut j: usize = 0;
        assert(pairs@ =~= before + row_pairs(a, b, insensitive, i as int, 0));
        while j < second.len()
            invariant
                i < first.len(),
                j <= second.len(),
                a == rows(first@),
                b == rows(second@),
                pairs@ == before + row_pairs(a, b, insensitive, i as int, j as int),
                in_range(pairs@, first.len() as int, second.len() as int),
            decreases second.len() - j,
        {
            if is_matched(&first[i], &second[j], insensitive) {
                pairs.push((i, j));
            }
            j += 1;
            assert(pairs@ =~= before + row_pairs(a, b, insensitive, i as int, j as int));
        }
        i += 1;
    }
    pairs
}

/// How far the two lists are shown.
pub struct Progress {
    /// The number of lines of the first list that were shown.
    pub taken1: int,
    /// The number of lines of the second list that were shown or passed over.
    pub taken2: int,
    /// The index after the first line of the last pair.
    pub after1: int,
    /// The index after the second line of the last pair.
    pub after2: int,
    /// The lines shown.
    pub shown: Seq<Shown>,
    /// The lines of a list ran out before the pairs did.
    pub failed: bool,
}

/// The difference of two numbers, or zero where it would be negative.
pub open spec fn gap(from: int, to: int) -> int {
    if to > from {
        to - from
    } else {
        0
    }
}

/// The lines of the first list from `from` on, `count` of them.
pub open spec fn first_only(from: int, count: int) -> Seq<Shown> {
    Seq::new(count as nat, |k: int| Shown::First((from + k) as usize))
}

/// The lines of the second list from `from` on, `count` of them.
pub open spec fn second_only(from: int, count: int) -> Seq<Shown> {
    Seq::new(count as nat, |k: int| Shown::Second((from + k) as usize))
}

/// What one pair of equal lines adds. The lines of the second list that lie
/// between the last pair and this one are shown as its own, then those of
/// the first list; then the next line of the first list is shown as held by
/// both, and one line of the second list is passed over.
pub open spec fn advance(p: Progress, pair: (usize, usize), len1: int, len2: int) -> Progress {
    let n2 = gap(p.after2, pair.1 as int);
    let n1 = gap(p.after1, pair.0 as int);
    if p.failed || p.taken2 + n2 > len2 || p.taken1 + n1 >= len1 {
        Progress { failed: true, ..p }
    } else {
        Progress {
            taken1: p.taken1 + n1 + 1,
            taken2: if p.taken2 + n2 < len2 {
                p.taken2 + n2 + 1
            } else {
                len2
            },
            after1: pair.0 + 1,
            after2: pair.1 + 1,
            shown: p.shown + second_only(p.taken2, n2) + first_only(p.taken1, n1) + seq![
                Shown::Both((p.taken1 + n1) as usize),
            ],
            failed: false,
        }
    }
}

/// What the first `n` pairs add, one after the other.
pub open spec fn progress(pairs: Seq<(usize, usize)>, n: int, len1: int, len2: int) -> Progress
    decreases n,
{
    if n <= 0 {
        Progress { taken1: 0, taken2: 0, after1: 0, after2: 0, shown: Seq::empty(), failed: false }
    } else {
        advance(progress(pairs, n - 1, len1, len2), pairs[n - 1], len1, len2)
    }
}

/// The lines shown for two lists with the given pairs of equal lines: what
/// the pairs add, then the lines left of the first list, then those left of
/// the second. Nothing where the lines of a list run out before the pairs do.
pub open spec fn merged(pairs: Seq<(usize, usize)>, len1: int, len2: int) -> Option<Seq<Shown>> {
    let p = progress(pairs, pairs.len() as int, len1, len2);
    if p.failed {
        None
    } else {
        Some(
            p.shown + first_only(p.taken1, len1 - p.taken1) + second_only(
                p.taken2,
                len2 - p.taken2,
            ),
        )
    }
}

/// Every line shown is a line of its list.
pub open spec fn shown_in_range(shown: Seq<Shown>, len1: int, len2: int) -> bool {
    forall|i: int|
        0 <= i < shown.len() ==> match #[trigger] shown[i] {
            Shown::First(k) => k < len1,
            Shown::Second(k) => k < len2,
            Shown::Both(k) => k < len1,
        }
}

/// Appends `count` lines of the first list, from `from` on.
fn push_first(shown: &mut Vec<Shown>, from: usize, count: usize)
    requires
        from + count <= usize::MAX,
    ensures
        final(shown)@ == old(shown)@ + first_only(from as int, count as int),
{
    let mut k: usize = 0;
    assert(shown@ =~= old(shown)@ + first_only(from as int, 0));
    while k < count
        invariant
            k <= count,
            from + count <= usize::MAX,
            shown@ == old(shown)@ + first_only(from as int, k as int),
        decreases count - k,
    {
        shown.push(Shown::First(from + k));
        k += 1;
        assert(shown@ =~= old(shown)@ + first_only(from as int, k as int));
    }
}

/// Appends `count` lines of the second list, from `from` on.
fn push_second(shown: &mut Vec<Shown>, from: usize, count: usize)
    requires
        from + count <= usize::MAX,
    ensures
        final(shown)@ == old(shown)@ + second_only(from as int, count as int),
{
    let mut k: usize = 0;
    assert(shown@ =~= old(shown)@ + second_only(from as int, 0));
    while k < count
        invariant
            k <= count,
            from + count <= usize::MAX,
            shown@ == old(shown)@ + second_only(from as int, k as int),
        decreases count - k,
    {
        shown.push(Shown::Second(from + k));
        k += 1;
        assert(shown@ =~= old(shown)@ + second_only(from as int, k as int));
    }
}

/// Where the lines of a list have run out, they stay so.
pub proof fn lemma_failed_stays(pairs: Seq<(usize, usize)>, k: int, n: int, len1: int, len2: int)
    requires
        0 <= k <= n,
        progress(pairs, k, len1, len2).failed,
    ensures
        progress(pairs, n, len1, len2).failed,
    decreases n,
{
    if k < n {
        lemma_failed_stays(pairs, k, n - 1, len1, len2);
    }
}

/// Lays the lines of two lists side by side, given the pairs of equal lines.
pub fn merge(pairs: &Vec<(usize, usize)>, len1: usize, len2: usize) -> (shown: Option<Vec<Shown>>)
    requires
        in_range(pairs@, len1 as int, len2 as int),
    ensures
        match merged(pairs@, len1 as int, len2 as int) {
            Some(lines) => shown is Some && shown->Some_0@ == lines,
            None => shown is None,
        },
        shown is Some ==> shown_in_range(shown->Some_0@, len1 as int, len2 as int),
{
    let mut out: Vec<Shown> = Vec::new();
    let mut taken1: usize = 0;
    let mut taken2: usize = 0;
    let mut after1: usize = 0;
    let mut after2: usize = 0;
    let mut i: usize = 0;
    while i < pairs.len()
        invariant
            i <= pairs.len(),
            in_range(pairs@, len1 as int, len2 as int),
            taken1 <= len1,
            taken2 <= len2,
            shown_in_range(out@, len1 as int, len2 as int),
            progress(pairs@, i as int, len1 as int, len2 as int) == (Progress {
                taken1: taken1 as int,
                taken2: taken2 as int,
                after1: after1 as int,
                after2: after2 as int,
                shown: out@,
                failed: false,
            }),
        decreases pairs.len() - i,
    {
        let pair = pairs[i];
        let ghost before = progress(pairs@, i as int, len1 as int, len2 as int);
        let n2: usize = if pair.1 > after2 {
            pair.1 - after2
        } else {
            0
        };
        let n1: usize = if pair.0 > after1 {
            pair.0 - after1
        } else {
            0
        };
        assert(n2 == gap(before.after2, pair.1 as int));
        assert(n1 == gap(before.after1, pair.0 as int));
        if n2 > len2 - taken2 || n1 >= len1 - taken1 {
            proof {
                assert(progress(pairs@, i + 1, len1 as int, len2 as int).failed);
                lemma_failed_stays(pairs@, i + 1, pairs@.len() as int, len1 as int, len2 as int);
            }
            return None;
        }
        let ghost shown_before = out@;
        push_second(&mut out, taken2, n2);
        push_first(&mut out, taken1, n1);
        out.push(Shown::Both(taken1 + n1));
        assert(out@ =~= shown_before + second_only(taken2 as int, n2 as int) + first_only(
            taken1 as int,
            n1 as int,
        ) + seq![Shown::Both((taken1 + n1) as usize)]);
        taken1 = taken1 + n1 + 1;
        taken2 = if taken2 + n2 < len2 {
            taken2 + n2 + 1
        } else {
            len2
        };
        after1 = pair.0 + 1;
        after2 = pair.1 + 1;
        i += 1;
    }
    push_first(&mut out, taken1, len1 - taken1);
    push_second(&mut out, taken2, len2 - taken2);
    Some(out)
}

/// The text is a single hyphen, the name of the standard input.
pub open spec fn is_stdin(name: Seq<char>) -> bool {
    name == seq!['-']
}

/// True when the name is that of the standard input.
pub fn names_stdin(name: &str) -> (b: bool)
    ensures
        b == is_stdin(name@),
{
    let chars = chars_of(name);
    if chars.len() == 1 && chars[0] == '-' {
        assert(chars@ =~= seq!['-']);
        true
    } else {
        assert(chars@ != seq!['-']) by {
            if chars@.len() == 1 {
                assert(seq!['-'][0] == '-');
            } else {
                assert(seq!['-'].len() == 1);
            }
        }
        false
    }
}

/// A line of the output as it is written: the line, after the delimiter once
/// for each column to its left that is shown. Nothing where its own column
/// is not shown.
pub open spec fn column_text(
    args: &Args,
    shown: Shown,
    first: Seq<Seq<char>>,
    second: Seq<Seq<char>>,
) -> Option<Seq<char>> {
    let one = if args.show_col1 {
        args.delimiter@
    } else {
        Seq::<char>::empty()
    };
    let two = if args.show_col2 {
        args.delimiter@
    } else {
        Seq::<char>::empty()
    };
    match shown {
        Shown::First(i) => if args.show_col1 {
            Some(first[i as int])
        } else {
            None
        },
        Shown::Second(i) => if args.show_col2 {
            Some(one + second[i as int])
        } else {
            None
        },
        Shown::Both(i) => if args.show_col3 {
            Some(one + two + first[i as int])
        } else {
            None
        },
    }
}

/// The first `n` lines of the output as they are written, without those
/// whose column is not shown.
pub open spec fn written(
    args: &Args,
    shown: Seq<Shown>,
    first: Seq<Seq<char>>,
    second: Seq<Seq<char>>,
    n: int,
) -> Seq<Seq<char>>
    decreases n,
{
    if n <= 0 {
        Seq::empty()
    } else {
        written(args, shown, first, second, n - 1) + match column_text(
            args,
            shown[n - 1],
            first,
            second,
        ) {
            Some(text) => seq![text],
            None => Seq::empty(),
        }
    }
}

/// The lines written for two lists, or why none is.
pub open spec fn comm_of(args: &Args, first: Seq<Seq<char>>, second: Seq<Seq<char>>) -> Result<
    Seq<Seq<char>>,
    CommError,
> {
    if is_stdin(args.file1@) && is_stdin(args.file2@) {
        Err(CommError::BothStdin)
    } else {
        match merged(
            common_pairs(first, second, args.insensitive, first.len() as int),
            first.len() as int,
            second.len() as int,
        ) {
            None => Err(CommError::OutOfOrder),
            Some(shown) => Ok(written(args, shown, first, second, shown.len() as int)),
        }
    }
}

/// One line of the output as it is written.
fn format_shown(args: &Args, shown: Shown, first: &Vec<Vec<char>>, second: &Vec<Vec<char>>) -> (out:
    Option<Vec<char>>)
    requires
        shown_in_range(seq![shown], first.len() as int, second.len() as int),
    ensures
        match column_text(args, shown, rows(first@), rows(second@)) {
            Some(text) => out is Some && out->Some_0@ == text,
            None => out is None,
        },
{
    assert(seq![shown][0] == shown);
    let delimiter = chars_of(args.delimiter.as_str());
    let mut out: Vec<char> = Vec::new();
    match shown {
        Shown::First(i) => {
            if !args.show_col1 {
                return None;
            }
            push_all(&mut out, &first[i]);
            assert(out@ =~= rows(first@)[i as int]);
        },
        Shown::Second(i) => {
            if !args.show_col2 {
                return None;
            }
            if args.show_col1 {
                push_all(&mut out, &delimiter);
            }
            push_all(&mut out, &second[i]);
            assert(out@ =~= column_text(args, shown, rows(first@), rows(second@))->Some_0);
        },
        Shown::Both(i) => {
            if !args.show_col3 {
                return None;
            }
            if args.show_col1 {
                push_all(&mut out, &delimiter);
            }
            if args.show_col2 {
                push_all(&mut out, &delimiter);
            }
            push_all(&mut out, &first[i]);
            assert(out@ =~= column_text(args, shown, rows(first@), rows(second@))->Some_0);
        },
    }
    Some(out)
}

/// Compares two lists of lines and writes them in three columns.
///
/// Each pair of equal lines gives a line of the third column; the lines
/// between two pairs go to the second column where the second list holds
/// them and to the first where the first does, those of the second list
/// first. A column that is not shown gives no lines, and no delimiter to the
/// columns at its right.
pub fn run(args: &Args, first: &Vec<String>, second: &Vec<String>) -> (r: Result<
    Vec<String>,
    CommError,
>)
    ensures
        match comm_of(args, views(first@), views(second@)) {
            Ok(lines) => r is Ok && views(r->Ok_0@) == lines,
            Err(error) => r == Err::<Vec<String>, CommError>(error),
        },
{
    if names_stdin(args.file1.as_str()) && names_stdin(args.file2.as_str()) {
        return Err(CommError::BothStdin);
    }
    let a = lists_of(first);
    let b = lists_of(second);
    let pairs = common_ids(&a, &b, args.insensitive);
    match merge(&pairs, a.len(), b.len()) {
        None => Err(CommError::OutOfOrder),
        Some(shown) => {
            let mut out: Vec<String> = Vec::new();
            let mut i: usize = 0;
            assert(views(out@) =~= written(args, shown@, rows(a@), rows(b@), 0));
            while i < shown.len()
                invariant
                    i <= shown.len(),
                    shown_in_range(shown@, a.len() as int, b.len() as int),
                    views(out@) == written(args, shown@, rows(a@), rows(b@), i as int),
                decreases shown.len() - i,
            {
                let ghost before = views(out@);
                assert(shown_in_range(seq![shown@[i as int]], a.len() as int, b.len() as int));
                match format_shown(args, shown[i], &a, &b) {
                    Some(text) => {
                        out.push(string_of(&text));
                        assert(views(out@) =~= before + seq![text@]);
                    },
                    None => {
                        assert(views(out@) =~= before + Seq::<Seq<char>>::empty());
                    },
                }
                i += 1;
            }
            Ok(out)
        },
    }
}

} // verus!
