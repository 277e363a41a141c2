//! The end of an input: which lines or bytes to emit for a signed count.

use crate::decimal::{integer_text, is_integer_text, magnitude, scan_integer};
use crate::pattern::{captures, captures_of, group_chars, group_text, group_views};
use crate::text::{
    chars_of, concatenate, decode_lossy, header, heading, is_word, lemma_encoded_len,
    lemma_lines_count, lemma_lines_join, lines, lines_of, lossy_text, views,
};
use vstd::prelude::*;
use vstd::string::StringExecFns;
use vstd::string::StringSliceAdditionalSpecFns;
use vstd::utf8::encode_utf8;

verus! {

/// A count given on the command line: where in an input the output starts.
#[derive(Clone, Copy, Debug, PartialEq, Eq, Structural)]
pub enum TakeValue {
    /// The literal `+0`: everything, from the first unit on.
    PlusZero,
    /// A signed count: positive is a position counted from one,
    /// negative is a number of units counted back from the end.
    TakeNum(i64),
}

/// The index of the first unit to emit, as a mathematical function of the
/// count and of the total number of units.
pub open spec fn start_index(take_val: TakeValue, total: int) -> Option<int> {
    match take_val {
        TakeValue::PlusZero => if total > 0 {
            Some(0int)
        } else {
            None
        },
        TakeValue::TakeNum(n) => if n == 0 || total == 0 || n > total {
            None
        } else if n < 0 {
            if total + n > 0 {
                Some(total + n)
            } else {
                Some(0int)
            }
        } else {
            Some(n - 1)
        },
    }
}

/// Resolves a count against the total number of units.
///
/// `None` means that nothing is emitted; `Some(i)` that the units from index
/// `i`, counted from zero, to the end are.
pub fn get_start_index(take_val: &TakeValue, total: i64) -> (start: Option<i64>)
    requires
        total >= 0,
    ensures
        total == 0 ==> start is None,
        *take_val == TakeValue::PlusZero && total > 0 ==> start == Some(0i64),
        *take_val == TakeValue::TakeNum(0) ==> start is None,
        forall|n: i64|
            *take_val == TakeValue::TakeNum(n) && 0 < n <= total ==> start == Some(
                (n - 1) as i64,
            ),
        forall|n: i64| *take_val == TakeValue::TakeNum(n) && n > total ==> start is None,
        forall|n: i64|
            *take_val == TakeValue::TakeNum(n) && n < 0 && total > 0 && -n <= total ==> start
                == Some((total + n) as i64),
        forall|n: i64|
            *take_val == TakeValue::TakeNum(n) && n < 0 && total > 0 && -n > total ==> start
                == Some(0i64),
        start is Some ==> 0 <= start->Some_0 < total,
        start_index(*take_val, total as int) == match start {
            Some(i) => Some(i as int),
            None => None,
        },
{
    match take_val {
        TakeValue::TakeNum(num) => {
            let num: i64 = *num;
            if num == 0 || total == 0 || num > total {
                None
            } else if num < 0 {
                let sum: i64 = total + num;
                Some(
                    if sum > 0 {
                        sum
                    } else {
                        0
                    },
                )
            } else {
                Some(num - 1)
            }
        },
        TakeValue::PlusZero => {
            if total != 0 {
                Some(0)
            } else {
                None
            }
        },
    }
}

/// The regular expression of a count: an optional sign, which is its group,
/// then digits, and nothing else.
pub open spec fn count_pattern() -> Seq<char> {
    "^([+-]?)\\d+$"@
}

/// The text is a count in decimal digits: an optional sign, then one or more
/// of the digits `0` to `9`.
pub open spec fn is_count_text(s: Seq<char>) -> bool {
    is_integer_text(s, true)
}

/// The nearest number that 64 bits with a sign hold.
pub open spec fn clamped(v: int) -> i64 {
    if v > i64::MAX {
        i64::MAX
    } else if v < i64::MIN {
        i64::MIN
    } else {
        v as i64
    }
}

/// The count that a text writes, given the sign that was found in it. With a
/// plus sign the number is a position from the start, and zero is a value of
/// its own; with a minus sign the number is taken as it is written; without
/// a sign it is taken as negative, a number of units from the end. A number
/// beyond 64 bits gives the nearest value of the same sign.
pub open spec fn signed_count(sign: Seq<char>, value: Seq<char>) -> TakeValue {
    let number = integer_text(value, true)->Some_0;
    if sign == "+"@ {
        if number == 0 {
            TakeValue::PlusZero
        } else {
            TakeValue::TakeNum(clamped(number))
        }
    } else if sign == "-"@ {
        TakeValue::TakeNum(clamped(number))
    } else {
        TakeValue::TakeNum(clamped(-number))
    }
}

/// The count that a text writes, given the match of `count_pattern` in it:
/// the sign is the group of the match. The text itself is the error, where
/// the match has no such group or the digits are not `0` to `9`.
pub open spec fn count_of_match(value: Seq<char>, groups: Seq<Option<Seq<char>>>) -> Result<
    TakeValue,
    Seq<char>,
> {
    match group_text(groups, 1) {
        Some(sign) => if is_count_text(value) {
            Ok(signed_count(sign, value))
        } else {
            Err(value)
        },
        None => Err(value),
    }
}

/// The count that a text of decimal digits writes: a plus sign gives a
/// position from the start, and `+0` is a value of its own; a minus sign or
/// no sign gives a number of units from the end. A magnitude beyond 64 bits
/// gives the nearest value of the same sign.
pub open spec fn count_of(s: Seq<char>) -> TakeValue {
    let m = magnitude(s, true);
    if s[0] == '+' {
        if m == 0 {
            TakeValue::PlusZero
        } else {
            TakeValue::TakeNum(clamped(m as int))
        }
    } else {
        TakeValue::TakeNum(clamped(-(m as int)))
    }
}

/// The sign that a text starts with, as a text of its own.
pub open spec fn sign_of(s: Seq<char>) -> Seq<char> {
    if s.len() > 0 && (s[0] == '+' || s[0] == '-') {
        s.take(1)
    } else {
        Seq::empty()
    }
}

/// For a count in decimal digits, matched with its own sign, the count is
/// that of the sign and the magnitude.
pub proof fn lemma_count_of_own_sign(value: Seq<char>)
    requires
        is_count_text(value),
    ensures
        count_of_match(value, seq![Some(value), Some(sign_of(value))]) == Ok::<
            TakeValue,
            Seq<char>,
        >(count_of(value)),
{
    reveal_strlit("+");
    reveal_strlit("-");
    let sign = sign_of(value);
    let groups = seq![Some(value), Some(sign)];
    assert(group_text(groups, 1) == Some(sign));
    if value[0] == '+' {
        assert(sign =~= "+"@);
    } else if value[0] == '-' {
        assert(sign =~= "-"@);
        assert(sign[0] != "+"@[0]);
    } else {
        assert(sign.len() == 0);
        assert("+"@.len() == 1 && "-"@.len() == 1);
    }
}

/// The nearest number that 64 bits with a sign hold to the number with the
/// given sign and magnitude; a magnitude that is not given is beyond 64 bits.
fn clamp(negative: bool, magnitude: Option<u64>) -> (n: i64)
    ensures
        magnitude is Some ==> n == clamped(
            if negative {
                -(magnitude->Some_0 as int)
            } else {
                magnitude->Some_0 as int
            },
        ),
        magnitude is None ==> n == if negative {
            i64::MIN
        } else {
            i64::MAX
        },
{
    match magnitude {
        Some(m) => {
            if negative {
                if m >= 9223372036854775808u64 {
                    i64::MIN
                } else {
                    -(m as i64)
                }
            } else if m > 9223372036854775807u64 {
                i64::MAX
            } else {
                m as i64
            }
        },
        None => if negative {
            i64::MIN
        } else {
            i64::MAX
        },
    }
}

/// The count that a text writes, given the match of the pattern of counts in
/// it. The text is handed back as the error where it writes no count.
pub fn take_value_of_match(value: &str, groups: &Vec<Option<String>>) -> (r: Result<
    TakeValue,
    String,
>)
    ensures
        match count_of_match(value@, group_views(groups@)) {
            Ok(count) => r == Ok::<TakeValue, String>(count),
            Err(token) => r is Err && r->Err_0@ == token,
        },
{
    let sign = match group_chars(groups, 1) {
        Some(sign) => sign,
        None => {
            return Err(value.to_owned());
        },
    };
    let chars = chars_of(value);
    let found = match scan_integer(&chars, true) {
        Some(found) => found,
        None => {
            return Err(value.to_owned());
        },
    };
    let zero = match found.magnitude {
        Some(m) => m == 0,
        None => false,
    };
    if is_word(&sign, "+") {
        if zero {
            Ok(TakeValue::PlusZero)
        } else {
            Ok(TakeValue::TakeNum(clamp(found.negative, found.magnitude)))
        }
    } else if is_word(&sign, "-") {
        Ok(TakeValue::TakeNum(clamp(found.negative, found.magnitude)))
    } else {
        Ok(TakeValue::TakeNum(clamp(!found.negative, found.magnitude)))
    }
}

/// Reads a count: a text that the pattern of counts matches, with digits
/// from `0` to `9`. Any other text is handed back as the error.
pub fn parse_num(value: &str) -> (r: Result<TakeValue, String>)
    ensures
        match captures_of(count_pattern(), value@) {
            Some(groups) => match count_of_match(value@, groups) {
                Ok(count) => r == Ok::<TakeValue, String>(count),
                Err(token) => r is Err && r->Err_0@ == token,
            },
            None => r is Err,
        },
        r is Err ==> r->Err_0@ == value@,
        r is Ok ==> is_count_text(value@),
{
    match captures("^([+-]?)\\d+$", value) {
        Some(groups) => take_value_of_match(value, &groups),
        None => Err(value.to_owned()),
    }
}

/// The numbers of lines and of bytes of a text.
pub fn count_lines_bytes(content: &str) -> (totals: (i64, i64))
    requires
        content.spec_bytes().len() <= i64::MAX,
    ensures
        totals.0 == lines_of(content@).len(),
        totals.1 == content.spec_bytes().len(),
{
    let split = lines(content);
    proof {
        assert(views(split@).len() == split@.len());
        lemma_lines_count(content@);
        lemma_encoded_len(content@);
    }
    (split.len() as i64, content.as_bytes().len() as i64)
}

/// The part of a sequence of units that a count selects, where `total` units
/// are looked at: those from the resolved index on.
pub open spec fn selected<T>(items: Seq<T>, take_val: TakeValue, total: int) -> Seq<T> {
    match start_index(take_val, total) {
        None => Seq::empty(),
        Some(start) => {
            let end = if total < items.len() {
                total
            } else {
                items.len() as int
            };
            if start < end {
                items.subrange(start, end)
            } else {
                Seq::empty()
            }
        },
    }
}

/// Where the total is the number of units, a count selects the units from the
/// resolved index to the end, in their order: as many as the total less the
/// index.
pub proof fn lemma_selected_is_suffix<T>(items: Seq<T>, take_val: TakeValue)
    ensures
        match start_index(take_val, items.len() as int) {
            None => selected(items, take_val, items.len() as int).len() == 0,
            Some(start) => {
                &&& 0 <= start < items.len()
                &&& selected(items, take_val, items.len() as int) == items.skip(start)
                &&& selected(items, take_val, items.len() as int).len() == items.len() - start
                &&& items.take(start) + selected(items, take_val, items.len() as int) == items
            },
        },
{
    match start_index(take_val, items.len() as int) {
        None => {},
        Some(start) => {
            assert(items.subrange(start, items.len() as int) =~= items.skip(start));
            assert(items.take(start) + items.skip(start) =~= items);
        },
    }
}

/// Where the total is the number of lines of a text, the lines before the
/// resolved index and the lines selected, joined, are the text.
pub proof fn lemma_selected_lines_complete(content: Seq<char>, take_val: TakeValue)
    ensures
        match start_index(take_val, lines_of(content).len() as int) {
            None => selected(
                lines_of(content),
                take_val,
                lines_of(content).len() as int,
            ).flatten() == Seq::<char>::empty(),
            Some(start) => lines_of(content).take(start).flatten() + selected(
                lines_of(content),
                take_val,
                lines_of(content).len() as int,
            ).flatten() == content,
        },
{
    let all = lines_of(content);
    lemma_lines_join(content);
    lemma_selected_is_suffix(all, take_val);
    match start_index(take_val, all.len() as int) {
        None => {
            assert(selected(all, take_val, all.len() as int) =~= Seq::<Seq<char>>::empty());
        },
        Some(start) => {
            vstd::seq_lib::lemma_flatten_concat(all.take(start), all.skip(start));
            assert(all.take(start) + all.skip(start) =~= all);
        },
    }
}

/// The lines that a count selects among the first `total_lines` lines.
pub fn select_lines(lines: &Vec<String>, num_lines: &TakeValue, total_lines: i64) -> (out: Vec<
    String,
>)
    requires
        total_lines >= 0,
    ensures
        out@ == selected(lines@, *num_lines, total_lines as int),
{
    let mut out: Vec<String> = Vec::new();
    match get_start_index(num_lines, total_lines) {
        None => {},
        Some(start) => {
            let end: usize = if (total_lines as u64) < lines.len() as u64 {
                total_lines as usize
            } else {
                lines.len()
            };
            if (start as u64) < end as u64 {
                let first: usize = start as usize;
                let mut i: usize = first;
                while i < end
                    invariant
                        first <= i <= end <= lines.len(),
                        out@ == lines@.subrange(first as int, i as int),
                    decreases end - i,
                {
                    out.push(lines[i].clone());
                    i += 1;
                    assert(out@ =~= lines@.subrange(first as int, i as int));
                }
            }
        },
    }
    assert(out@ =~= selected(lines@, *num_lines, total_lines as int));
    out
}

/// The bytes that a count selects among the first `total_bytes` bytes, or
/// `None` where something is selected and the input is shorter than that.
pub fn select_bytes(bytes: &[u8], num_bytes: &TakeValue, total_bytes: i64) -> (out: Option<
    Vec<u8>,
>)
    requires
        total_bytes >= 0,
    ensures
        out is None <==> start_index(*num_bytes, total_bytes as int) is Some && bytes@.len()
            < total_bytes,
        out is Some ==> out->Some_0@ == selected(bytes@, *num_bytes, total_bytes as int),
{
    let mut out: Vec<u8> = Vec::new();
    match get_start_index(num_bytes, total_bytes) {
        None => {},
        Some(start) => {
            if (bytes.len() as u64) < total_bytes as u64 {
                return None;
            }
            let end: usize = total_bytes as usize;
            let first: usize = start as usize;
            let mut i: usize = first;
            while i < end
                invariant
                    first <= i <= end <= bytes.len(),
                    out@ == bytes@.subrange(first as int, i as int),
                decreases end - i,
            {
                out.push(bytes[i]);
                i += 1;
                assert(out@ =~= bytes@.subrange(first as int, i as int));
            }
        },
    }
    assert(out@ =~= selected(bytes@, *num_bytes, total_bytes as int));
    Some(out)
}

/// What to emit of each source.
pub struct Args {
    /// The names of the sources.
    pub files: Vec<String>,
    /// The count of lines.
    pub lines: TakeValue,
    /// The count of bytes; where it is given, bytes are emitted, not lines.
    pub bytes: Option<TakeValue>,
    /// No headings, however many sources there are.
    pub quiet: bool,
}

impl Args {
    /// Each source gets a heading: there are several and headings are wanted.
    pub open spec fn with_headings(&self) -> bool {
        self.files@.len() > 1 && !self.quiet
    }

    /// True when each source gets a heading.
    pub fn has_headings(&self) -> (b: bool)
        ensures
            b == self.with_headings(),
    {
        self.files.len() > 1 && !self.quiet
    }
}

/// The end of a text that the counts of `args` select: the decoded bytes
/// where a count of bytes is given, else the lines, joined.
pub open spec fn tail_of(args: &Args, content: Seq<char>) -> Seq<char> {
    match args.bytes {
        Some(count) => lossy_text(
            selected(encode_utf8(content), count, encode_utf8(content).len() as int),
        ),
        None => selected(lines_of(content), args.lines, lines_of(content).len() as int).flatten(),
    }
}

/// The output for one source: its heading, where headings are due, and the
/// end of its text.
pub fn tail(args: &Args, first: bool, filename: &str, content: &str) -> (out: String)
    requires
        content.spec_bytes().len() <= i64::MAX,
    ensures
        out@ == (if args.with_headings() {
            heading(first, filename@)
        } else {
            Seq::<char>::empty()
        }) + tail_of(args, content@),
{
    let (total_lines, total_bytes) = count_lines_bytes(content);
    let mut out = if args.has_headings() {
        header(first, filename)
    } else {
        String::new()
    };
    let ghost before = out@;
    match &args.bytes {
        Some(count) => {
            let picked = select_bytes(content.as_bytes(), count, total_bytes);
            match picked {
                Some(bytes) => {
                    let text = decode_lossy(&bytes);
                    out.append(text.as_str());
                },
                None => {},
            }
        },
        None => {
            let all = lines(content);
            let picked = select_lines(&all, &args.lines, total_lines);
            proof {
                lemma_selected_views(all@, args.lines, total_lines as int);
            }
            let text = concatenate(&picked);
            out.append(text.as_str());
        },
    }
    assert(out@ =~= before + tail_of(args, content@));
    out
}

/// Selecting among strings and then viewing them is selecting among their views.
pub proof fn lemma_selected_views(items: Seq<String>, take_val: TakeValue, total: int)
    ensures
        views(selected(items, take_val, total)) == selected(views(items), take_val, total),
{
    assert(views(selected(items, take_val, total)) =~= selected(views(items), take_val, total));
}

/// None of the first `n` sources could be read.
pub open spec fn none_readable(contents: Seq<Option<String>>, n: int) -> bool
    decreases n,
{
    n <= 0 || (contents[n - 1] is None && none_readable(contents, n - 1))
}

/// What is written for the source at `i`: the name of a source that could
/// not be read, as an error; else its heading, where headings are due, and
/// the end of its text. The heading of the first source that could be read
/// has no empty line before it.
pub open spec fn output_at(args: &Args, contents: Seq<Option<String>>, i: int) -> Result<
    Seq<char>,
    Seq<char>,
> {
    match contents[i] {
        None => Err(args.files@[i]@),
        Some(content) => Ok(
            (if args.with_headings() {
                heading(none_readable(contents, i), args.files@[i]@)
            } else {
                Seq::<char>::empty()
            }) + tail_of(args, content@),
        ),
    }
}

/// The view of what is written for a source.
pub open spec fn output_view(output: Result<String, String>) -> Result<Seq<char>, Seq<char>> {
    match output {
        Ok(text) => Ok(text@),
        Err(name) => Err(name@),
    }
}

/// Every text has no more bytes than a signed integer of 64 bits counts.
pub open spec fn countable(contents: Seq<Option<String>>) -> bool {
    forall|i: int|
        0 <= i < contents.len() && (#[trigger] contents[i]) is Some
            ==> encode_utf8(contents[i]->Some_0@).len() <= i64::MAX
}

/// The output for each source, in the order of the sources.
///
/// `contents` holds the text of each source, or `None` for a source that
/// could not be read: that source gives an error with its name, and the
/// sources after it are still served.
pub fn run(args: &Args, contents: &Vec<Option<String>>) -> (outputs: Vec<Result<String, String>>)
    requires
        contents@.len() == args.files@.len(),
        countable(contents@),
    ensures
        outputs@.len() == contents@.len(),
        forall|i: int|
            0 <= i < contents@.len() ==> output_view(#[trigger] outputs@[i]) == output_at(
                args,
                contents@,
                i,
            ),
{
    let mut outputs: Vec<Result<String, String>> = Vec::new();
    let mut first = true;
    let mut i: usize = 0;
    while i < contents.len()
        invariant
            i <= contents.len(),
            contents@.len() == args.files@.len(),
            countable(contents@),
            outputs@.len() == i,
            first == none_readable(contents@, i as int),
            forall|j: int|
                0 <= j < i ==> output_view(#[trigger] outputs@[j]) == output_at(
                    args,
                    contents@,
                    j,
                ),
        decreases contents.len() - i,
    {
        match &contents[i] {
            None => {
                outputs.push(Err(args.files[i].clone()));
            },
            Some(content) => {
                assert(contents@[i as int] is Some);
                let text = tail(args, first, args.files[i].as_str(), content.as_str());
                outputs.push(Ok(text));
                first = false;
            },
        }
        i += 1;
    }
    outputs
}

} // verus!
