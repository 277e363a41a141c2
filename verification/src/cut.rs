//! Selecting fields, bytes or characters of a line by lists of positions.

use crate::decimal::{
    all_digits, checked_value, decimal_digits, decimal_value, digits_only, push_decimal,
};
use crate::pattern::{captures, captures_of, group_chars, group_text, group_views};
use crate::text::{
    chars_of, decode_lossy, joined, lossy_text, push_all, rows, split, split_on, string_of,
};
use vstd::prelude::*;
use vstd::string::StringExecFns;
use vstd::string::StringSliceAdditionalSpecFns;

verus! {

/// A range of positions, counted from zero.
#[derive(Clone, Copy, Debug, PartialEq, Eq, Structural)]
pub enum AnyRange {
    /// The positions from the first field on.
    From(usize),
    /// The positions before the field.
    To(usize),
    /// The positions from the first field up to, not including, the second.
    Range(usize, usize),
}

/// What is wrong with a list of positions.
#[derive(Clone, Debug, PartialEq, Eq)]
pub enum PositionError {
    /// A part of the list that is no position and no range.
    IllegalValue(String),
    /// A range whose first number is not below its second.
    NotAscending(usize, usize),
}

/// A `PositionError` as a mathematical value.
pub enum PositionFault {
    IllegalValue(Seq<char>),
    NotAscending(usize, usize),
}

impl View for PositionError {
    type V = PositionFault;

    open spec fn view(&self) -> PositionFault {
        match self {
            PositionError::IllegalValue(value) => PositionFault::IllegalValue(value@),
            PositionError::NotAscending(first, second) => PositionFault::NotAscending(
                *first,
                *second,
            ),
        }
    }
}

impl PositionFault {
    /// The words that report the fault.
    pub open spec fn message(self) -> Seq<char> {
        match self {
            PositionFault::IllegalValue(value) => "illegal list value: \""@ + value + "\""@,
            PositionFault::NotAscending(first, second) => "First number in range ("@
                + decimal_digits(first as nat) + ") must be lower than second number ("@
                + decimal_digits(second as nat) + ")"@,
        }
    }
}

impl PositionError {
    /// The words that report the error.
    pub fn to_string(&self) -> (out: String)
        ensures
            out@ == self@.message(),
    {
        match self {
            PositionError::IllegalValue(value) => {
                let mut out = String::from_str("illegal list value: \"");
                out.append(value.as_str());
                out.append("\"");
                assert(out@ =~= self@.message());
                out
            },
            PositionError::NotAscending(first, second) => {
                let mut digits: Vec<char> = Vec::new();
                push_decimal(&mut digits, *first as u64);
                let first_text = string_of(&digits);
                let mut digits: Vec<char> = Vec::new();
                push_decimal(&mut digits, *second as u64);
                let second_text = string_of(&digits);
                let mut out = String::from_str("First number in range (");
                out.append(first_text.as_str());
                out.append(") must be lower than second number (");
                out.append(second_text.as_str());
                out.append(")");
                assert(out@ =~= self@.message());
                out
            },
        }
    }
}

/// The text is one or more decimal digits.
pub open spec fn is_number(s: Seq<char>) -> bool {
    s.len() > 0 && all_digits(s)
}

/// The position that a text writes: a number of one or more decimal digits,
/// without a sign, that is at least one and fits the machine's word.
pub open spec fn index_text(s: Seq<char>) -> Option<usize> {
    if is_number(s) && 1 <= decimal_value(s) <= usize::MAX {
        Some(decimal_value(s) as usize)
    } else {
        None
    }
}

/// The position that the characters write.
fn index_of_chars(chars: &Vec<char>) -> (r: Option<usize>)
    ensures
        r == index_text(chars@),
{
    assert(chars@.skip(0) =~= chars@);
    if chars.len() == 0 || !digits_only(chars, 0) {
        return None;
    }
    match checked_value(chars, 0) {
        Some(n) => {
            if 1 <= n && n <= usize::MAX as u64 {
                Some(n as usize)
            } else {
                None
            }
        },
        None => None,
    }
}

/// Reads a position, counted from one.
pub fn parse_index(value: &str) -> (r: Result<usize, PositionError>)
    ensures
        match index_text(value@) {
            Some(n) => r == Ok::<usize, PositionError>(n),
            None => r is Err && r->Err_0@ == PositionFault::IllegalValue(value@),
        },
{
    let chars = chars_of(value);
    match index_of_chars(&chars) {
        Some(n) => Ok(n),
        None => Err(PositionError::IllegalValue(value.to_owned())),
    }
}

/// The regular expression of a range without an end: digits, which are its
/// group, and a hyphen.
pub open spec fn from_pattern() -> Seq<char> {
    "^(\\d+)-$"@
}

/// The regular expression of a range without a start: a hyphen and digits,
/// which are its group.
pub open spec fn to_pattern() -> Seq<char> {
    "^-(\\d+)$"@
}

/// The regular expression of a range with both ends: digits, a hyphen and
/// digits; the digits are its two groups.
pub open spec fn range_pattern() -> Seq<char> {
    "^(\\d+)-(\\d+)$"@
}

/// The position that a group of a match writes. What the group matched is
/// the fault where it writes none; the whole part is, where the match has no
/// such group.
pub open spec fn group_index(part: Seq<char>, groups: Seq<Option<Seq<char>>>, i: int) -> Result<
    usize,
    PositionFault,
> {
    match group_text(groups, i) {
        Some(text) => match index_text(text) {
            Some(n) => Ok(n),
            None => Err(PositionFault::IllegalValue(text)),
        },
        None => Err(PositionFault::IllegalValue(part)),
    }
}

/// The range that a match of `from_pattern` writes: all from its position on.
pub open spec fn open_range(part: Seq<char>, groups: Seq<Option<Seq<char>>>) -> Result<
    AnyRange,
    PositionFault,
> {
    match group_index(part, groups, 1) {
        Ok(first) => Ok(AnyRange::From((first - 1) as usize)),
        Err(fault) => Err(fault),
    }
}

/// The range that a match of `to_pattern` writes: all up to its position.
pub open spec fn upto_range(part: Seq<char>, groups: Seq<Option<Seq<char>>>) -> Result<
    AnyRange,
    PositionFault,
> {
    match group_index(part, groups, 1) {
        Ok(second) => Ok(AnyRange::To(second)),
        Err(fault) => Err(fault),
    }
}

/// The range that a match of `range_pattern` writes: from its first position
/// to its second, which has to be the greater.
pub open spec fn closed_range(part: Seq<char>, groups: Seq<Option<Seq<char>>>) -> Result<
    AnyRange,
    PositionFault,
> {
    match group_index(part, groups, 1) {
        Err(fault) => Err(fault),
        Ok(first) => match group_index(part, groups, 2) {
            Err(fault) => Err(fault),
            Ok(second) => if first < second {
                Ok(AnyRange::Range((first - 1) as usize, second))
            } else {
                Err(PositionFault::NotAscending(first, second))
            },
        },
    }
}

/// The range that one part of a list writes, given the matches of the three
/// patterns of ranges in it.
///
/// A part that is a position is the range of that position alone. Else the
/// patterns are tried in turn, the one without an end first, then the one
/// without a start, then the one with both: the first that matches and
/// writes a range gives the range. Where none does, the fault is that of the
/// last pattern that matched, or the part itself where none matched.
pub open spec fn range_of_matches(
    part: Seq<char>,
    from: Option<Seq<Option<Seq<char>>>>,
    to: Option<Seq<Option<Seq<char>>>>,
    range: Option<Seq<Option<Seq<char>>>>,
) -> Result<AnyRange, PositionFault> {
    let single: Result<AnyRange, PositionFault> = match index_text(part) {
        Some(n) => Ok(AnyRange::Range((n - 1) as usize, n)),
        None => Err(PositionFault::IllegalValue(part)),
    };
    let first = match (single, from) {
        (Err(_), Some(groups)) => open_range(part, groups),
        _ => single,
    };
    let second = match (first, to) {
        (Err(_), Some(groups)) => upto_range(part, groups),
        _ => first,
    };
    match (second, range) {
        (Err(_), Some(groups)) => closed_range(part, groups),
        _ => second,
    }
}

/// The range that one part of a list writes.
///
/// `N` is the single position N; `N-` is all from N on; `-M` is all up to M;
/// `N-M` is N to M, where N is below M. Positions are counted from one.
pub open spec fn range_text(part: Seq<char>) -> Result<AnyRange, PositionFault> {
    range_of_matches(
        part,
        captures_of(from_pattern(), part),
        captures_of(to_pattern(), part),
        captures_of(range_pattern(), part),
    )
}

/// The ranges that the parts of a list write, or the fault of the first part
/// that writes none.
pub open spec fn ranges_of(parts: Seq<Seq<char>>) -> Result<Seq<AnyRange>, PositionFault>
    decreases parts.len(),
{
    if parts.len() == 0 {
        Ok(Seq::empty())
    } else {
        match ranges_of(parts.drop_last()) {
            Err(fault) => Err(fault),
            Ok(ranges) => match range_text(parts.last()) {
                Err(fault) => Err(fault),
                Ok(range) => Ok(ranges.push(range)),
            },
        }
    }
}

/// The position that a group of a match writes.
fn index_of_group(part: &str, groups: &Vec<Option<String>>, i: usize) -> (r: Result<
    usize,
    PositionError,
>)
    ensures
        match group_index(part@, group_views(groups@), i as int) {
            Ok(n) => r == Ok::<usize, PositionError>(n),
            Err(fault) => r is Err && r->Err_0@ == fault,
        },
{
    match group_chars(groups, i) {
        Some(text) => match index_of_chars(&text) {
            Some(n) => Ok(n),
            None => Err(PositionError::IllegalValue(string_of(&text))),
        },
        None => Err(PositionError::IllegalValue(part.to_owned())),
    }
}

/// The range that a match of the pattern without an end writes.
fn range_from(part: &str, groups: &Vec<Option<String>>) -> (r: Result<AnyRange, PositionError>)
    ensures
        match open_range(part@, group_views(groups@)) {
            Ok(range) => r == Ok::<AnyRange, PositionError>(range),
            Err(fault) => r is Err && r->Err_0@ == fault,
        },
{
    match index_of_group(part, groups, 1) {
        Ok(first) => Ok(AnyRange::From(first - 1)),
        Err(error) => Err(error),
    }
}

/// The range that a match of the pattern without a start writes.
fn range_to(part: &str, groups: &Vec<Option<String>>) -> (r: Result<AnyRange, PositionError>)
    ensures
        match upto_range(part@, group_views(groups@)) {
            Ok(range) => r == Ok::<AnyRange, PositionError>(range),
            Err(fault) => r is Err && r->Err_0@ == fault,
        },
{
    match index_of_group(part, groups, 1) {
        Ok(second) => Ok(AnyRange::To(second)),
        Err(error) => Err(error),
    }
}

/// The range that a match of the pattern with both ends writes.
fn range_between(part: &str, groups: &Vec<Option<String>>) -> (r: Result<AnyRange, PositionError>)
    ensures
        match closed_range(part@, group_views(groups@)) {
            Ok(range) => r == Ok::<AnyRange, PositionError>(range),
            Err(fault) => r is Err && r->Err_0@ == fault,
        },
{
    match index_of_group(part, groups, 1) {
        Err(error) => Err(error),
        Ok(first) => match index_of_group(part, groups, 2) {
            Err(error) => Err(error),
            Ok(second) => {
                if first < second {
                    Ok(AnyRange::Range(first - 1, second))
                } else {
                    Err(PositionError::NotAscending(first, second))
                }
            },
        },
    }
}

/// The views of the groups of a match, if there is a match.
pub open spec fn match_view(found: Option<Vec<Option<String>>>) -> Option<Seq<Option<Seq<char>>>> {
    match found {
        Some(groups) => Some(group_views(groups@)),
        None => None,
    }
}

/// The range that one part of a list writes, given the matches of the three
/// patterns of ranges in it.
pub fn range_of_groups(
    part: &str,
    from: &Option<Vec<Option<String>>>,
    to: &Option<Vec<Option<String>>>,
    range: &Option<Vec<Option<String>>>,
) -> (r: Result<AnyRange, PositionError>)
    ensures
        match range_of_matches(part@, match_view(*from), match_view(*to), match_view(*range)) {
            Ok(found) => r == Ok::<AnyRange, PositionError>(found),
            Err(fault) => r is Err && r->Err_0@ == fault,
        },
{
    let chars = chars_of(part);
    let single: Result<AnyRange, PositionError> = match index_of_chars(&chars) {
        Some(n) => Ok(AnyRange::Range(n - 1, n)),
        None => Err(PositionError::IllegalValue(part.to_owned())),
    };
    let first = match (single, from) {
        (Err(_), Some(groups)) => range_from(part, groups),
        (single, _) => single,
    };
    let second = match (first, to) {
        (Err(_), Some(groups)) => range_to(part, groups),
        (first, _) => first,
    };
    match (second, range) {
        (Err(_), Some(groups)) => range_between(part, groups),
        (second, _) => second,
    }
}

/// The range that one part of a list writes.
pub fn parse_range(part: &str) -> (r: Result<AnyRange, PositionError>)
    ensures
        match range_text(part@) {
            Ok(range) => r == Ok::<AnyRange, PositionError>(range),
            Err(fault) => r is Err && r->Err_0@ == fault,
        },
{
    let from = captures("^(\\d+)-$", part);
    let to = captures("^-(\\d+)$", part);
    let range = captures("^(\\d+)-(\\d+)$", part);
    range_of_groups(part, &from, &to, &range)
}

/// Reads a list of positions and ranges, separated by commas.
///
/// The result holds one range for each part, in the order of the list; the
/// error is that of the first part that is no position and no range.
pub fn parse_pos(value: &str) -> (r: Result<Vec<AnyRange>, PositionError>)
    ensures
        match ranges_of(split_on(value@, ',')) {
            Ok(ranges) => r is Ok && r->Ok_0@ == ranges,
            Err(fault) => r is Err && r->Err_0@ == fault,
        },
{
    let chars = chars_of(value);
    let parts = split(&chars, ',');
    let ghost all = split_on(value@, ',');
    let mut out: Vec<AnyRange> = Vec::new();
    let mut i: usize = 0;
    assert(all.take(0) =~= Seq::<Seq<char>>::empty());
    while i < parts.len()
        invariant
            i <= parts.len(),
            all == rows(parts@),
            all == split_on(value@, ','),
            ranges_of(all.take(i as int)) == Ok::<Seq<AnyRange>, PositionFault>(out@),
        decreases parts.len() - i,
    {
        proof {
            assert(all.take(i + 1).drop_last() =~= all.take(i as int));
            assert(all.take(i + 1).last() == parts@[i as int]@);
        }
        let part = string_of(&parts[i]);
        match parse_range(part.as_str()) {
            Ok(range) => {
                out.push(range);
            },
            Err(error) => {
                proof {
                    assert(ranges_of(all.take(i + 1)) == Err::<Seq<AnyRange>, PositionFault>(
                        error@,
                    ));
                    lemma_first_fault(all, i + 1);
                }
                return Err(error);
            },
        }
        i += 1;
    }
    assert(all.take(i as int) =~= all);
    Ok(out)
}

/// A fault among the first parts of a list is the fault of the list.
pub proof fn lemma_first_fault(parts: Seq<Seq<char>>, k: int)
    requires
        0 <= k <= parts.len(),
        ranges_of(parts.take(k)) is Err,
    ensures
        ranges_of(parts) == ranges_of(parts.take(k)),
    decreases parts.len(),
{
    if k == parts.len() {
        assert(parts.take(k) =~= parts);
    } else {
        assert(parts.drop_last().take(k) =~= parts.take(k));
        lemma_first_fault(parts.drop_last(), k);
    }
}

impl AnyRange {
    /// The first position of the range and the one after its last, among
    /// `len` positions.
    pub open spec fn bounds(self, len: int) -> (int, int) {
        match self {
            AnyRange::From(start) => (start as int, len),
            AnyRange::To(end) => (0, end as int),
            AnyRange::Range(start, end) => (start as int, end as int),
        }
    }

    /// The positions of the range that are below `len`, in rising order.
    pub open spec fn positions(self, len: int) -> Seq<int> {
        let start = self.bounds(len).0;
        let stop = if self.bounds(len).1 < len {
            self.bounds(len).1
        } else {
            len
        };
        if start < stop {
            Seq::new((stop - start) as nat, |i: int| start + i)
        } else {
            Seq::empty()
        }
    }
}

/// The positions below `len` that a list of ranges selects: those of each
/// range in turn, so a position may come twice, and in any order.
pub open spec fn all_positions(ranges: Seq<AnyRange>, len: int) -> Seq<int>
    decreases ranges.len(),
{
    if ranges.len() == 0 {
        Seq::empty()
    } else {
        all_positions(ranges.drop_last(), len) + ranges.last().positions(len)
    }
}

/// The items at the positions that a list of ranges selects.
pub open spec fn extracted<T>(items: Seq<T>, ranges: Seq<AnyRange>) -> Seq<T> {
    all_positions(ranges, items.len() as int).map_values(|i: int| items[i])
}

/// The positions below `len` that a list of ranges selects.
pub fn select_positions(ranges: &[AnyRange], len: usize) -> (out: Vec<usize>)
    ensures
        out@.map_values(|i: usize| i as int) == all_positions(ranges@, len as int),
        forall|k: int| 0 <= k < out.len() ==> out@[k] < len,
{
    let mut out: Vec<usize> = Vec::new();
    let mut r: usize = 0;
    assert(ranges@.take(0) =~= Seq::<AnyRange>::empty());
    assert(out@.map_values(|i: usize| i as int) =~= all_positions(ranges@.take(0), len as int));
    while r < ranges.len()
        invariant
            r <= ranges.len(),
            out@.map_values(|i: usize| i as int) == all_positions(
                ranges@.take(r as int),
                len as int,
            ),
            forall|k: int| 0 <= k < out.len() ==> out@[k] < len,
        decreases ranges.len() - r,
    {
        let (start, end) = match ranges[r] {
            AnyRange::From(start) => (start, len),
            AnyRange::To(end) => (0, end),
            AnyRange::Range(start, end) => (start, end),
        };
        let stop = if end < len {
            end
        } else {
            len
        };
        let ghost before = out@;
        let ghost range = ranges@[r as int];
        let mut i: usize = start;
        if start < stop {
            while i < stop
                invariant
                    start <= i <= stop <= len,
                    out@.len() == before.len() + (i - start),
                    forall|k: int| 0 <= k < before.len() ==> before[k] < len,
                    forall|k: int| 0 <= k < before.len() ==> out@[k] == before[k],
                    forall|k: int|
                        before.len() <= k < out@.len() ==> out@[k] == start + (k - before.len()),
                decreases stop - i,
            {
                out.push(i);
                i += 1;
            }
        }
        proof {
            assert forall|k: int| 0 <= k < out@.len() implies out@[k] < len by {
                if k < before.len() {
                    assert(out@[k] == before[k]);
                } else {
                    assert(out@[k] == start + (k - before.len()));
                }
            }
            assert(ranges@.take(r + 1).drop_last() =~= ranges@.take(r as int));
            assert(ranges@.take(r + 1).last() == range);
            assert(out@.map_values(|i: usize| i as int) =~= before.map_values(|i: usize| i as int)
                + range.positions(len as int));
        }
        r += 1;
    }
    assert(ranges@.take(r as int) =~= ranges@);
    out
}

/// The characters of a line at the selected positions.
pub fn extract_chars(line: &str, char_pos: &[AnyRange]) -> (out: String)
    ensures
        out@ == extracted(line@, char_pos@),
{
    let chars = chars_of(line);
    let picked = select_positions(char_pos, chars.len());
    let mut out: Vec<char> = Vec::new();
    let mut k: usize = 0;
    while k < picked.len()
        invariant
            k <= picked.len(),
            forall|j: int| 0 <= j < picked.len() ==> picked@[j] < chars.len(),
            out@.len() == k,
            forall|j: int| 0 <= j < k ==> out@[j] == chars@[picked@[j] as int],
        decreases picked.len() - k,
    {
        out.push(chars[picked[k]]);
        k += 1;
    }
    proof {
        let positions = all_positions(char_pos@, line@.len() as int);
        assert(positions.len() == picked@.len());
        assert forall|j: int| 0 <= j < positions.len() implies positions[j] == picked@[j] by {
            assert(picked@.map_values(|i: usize| i as int)[j] == picked@[j]);
        }
        assert(out@ =~= extracted(line@, char_pos@));
    }
    string_of(&out)
}

/// The bytes of a line at the selected positions.
pub fn select_bytes(bytes: &[u8], byte_pos: &[AnyRange]) -> (out: Vec<u8>)
    ensures
        out@ == extracted(bytes@, byte_pos@),
{
    let picked = select_positions(byte_pos, bytes.len());
    let mut out: Vec<u8> = Vec::new();
    let mut k: usize = 0;
    while k < picked.len()
        invariant
            k <= picked.len(),
            forall|j: int| 0 <= j < picked.len() ==> picked@[j] < bytes.len(),
            out@.len() == k,
            forall|j: int| 0 <= j < k ==> out@[j] == bytes@[picked@[j] as int],
        decreases picked.len() - k,
    {
        out.push(bytes[picked[k]]);
        k += 1;
    }
    proof {
        let positions = all_positions(byte_pos@, bytes@.len() as int);
        assert(positions.len() == picked@.len());
        assert forall|j: int| 0 <= j < positions.len() implies positions[j] == picked@[j] by {
            assert(picked@.map_values(|i: usize| i as int)[j] == picked@[j]);
        }
        assert(out@ =~= extracted(bytes@, byte_pos@));
    }
    out
}

/// The bytes of a line at the selected positions, decoded as UTF-8 with what
/// is ill-formed replaced.
pub fn extract_bytes(line: &str, byte_pos: &[AnyRange]) -> (out: String)
    ensures
        out@ == lossy_text(extracted(line.spec_bytes(), byte_pos@)),
{
    let picked = select_bytes(line.as_bytes(), byte_pos);
    decode_lossy(&picked)
}

/// The fields of a line at the selected positions, joined by the delimiter.
/// The fields of a line are its parts between the delimiters.
pub fn extract_fields(line: &str, delim: u8, field_pos: &[AnyRange]) -> (out: String)
    ensures
        out@ == joined(extracted(split_on(line@, delim as char), field_pos@), seq![delim as char]),
{
    let chars = chars_of(line);
    let fields = split(&chars, delim as char);
    let picked = select_positions(field_pos, fields.len());
    let ghost all = split_on(line@, delim as char);
    let ghost wanted = extracted(all, field_pos@);
    proof {
        let positions = all_positions(field_pos@, all.len() as int);
        assert(positions.len() == picked@.len());
        assert forall|j: int| 0 <= j < positions.len() implies positions[j] == picked@[j] by {
            assert(picked@.map_values(|i: usize| i as int)[j] == picked@[j]);
        }
        assert(wanted.len() == picked@.len());
        assert forall|j: int| 0 <= j < wanted.len() implies wanted[j] == fields@[picked@[j] as int]@
        by {
            assert(all[picked@[j] as int] == fields@[picked@[j] as int]@);
        }
    }
    let mut out: Vec<char> = Vec::new();
    let mut k: usize = 0;
    assert(wanted.take(0) =~= Seq::<Seq<char>>::empty());
    while k < picked.len()
        invariant
            k <= picked.len(),
            wanted.len() == picked@.len(),
            forall|j: int| 0 <= j < picked.len() ==> picked@[j] < fields.len(),
            forall|j: int| 0 <= j < wanted.len() ==> wanted[j] == fields@[picked@[j] as int]@,
            out@ == joined(wanted.take(k as int), seq![delim as char]),
        decreases picked.len() - k,
    {
        let ghost before = out@;
        if k > 0 {
            out.push(delim as char);
        }
        push_all(&mut out, &fields[picked[k]]);
        proof {
            let next = wanted.take(k + 1);
            assert(next.drop_last() =~= wanted.take(k as int));
            assert(next.last() == fields@[picked@[k as int] as int]@);
            if k > 0 {
                assert(out@ =~= before + seq![delim as char] + next.last());
            } else {
                assert(out@ =~= next[0]);
            }
        }
        k += 1;
    }
    assert(wanted.take(k as int) =~= wanted);
    string_of(&out)
}

/// What to select of each line, and by which positions.
#[derive(Clone, Debug)]
pub enum Extract {
    Fields(Vec<AnyRange>),
    Bytes(Vec<AnyRange>),
    Chars(Vec<AnyRange>),
}

/// The sources, the delimiter of fields, and the lists of positions given.
pub struct Args {
    /// The names of the sources.
    pub files: Vec<String>,
    /// The byte that separates the fields of a line.
    pub delimiter: u8,
    /// The positions of the fields to select.
    pub fields: Option<Vec<AnyRange>>,
    /// The positions of the bytes to select.
    pub bytes: Option<Vec<AnyRange>>,
    /// The positions of the characters to select.
    pub chars: Option<Vec<AnyRange>>,
}

impl Args {
    /// What to select: by fields where their positions are given, else by
    /// bytes, else by characters; nothing where none is given.
    pub fn get_extract(&self) -> (extract: Option<Extract>)
        ensures
            match (self.fields, self.bytes, self.chars) {
                (Some(list), _, _) => extract is Some && extract->Some_0 is Fields
                    && extract->Some_0->Fields_0@ == list@,
                (None, Some(list), _) => extract is Some && extract->Some_0 is Bytes
                    && extract->Some_0->Bytes_0@ == list@,
                (None, None, Some(list)) => extract is Some && extract->Some_0 is Chars
                    && extract->Some_0->Chars_0@ == list@,
                (None, None, None) => extract is None,
            },
    {
        match &self.fields {
            Some(list) => Some(Extract::Fields(list.clone())),
            None => match &self.bytes {
                Some(list) => Some(Extract::Bytes(list.clone())),
                None => match &self.chars {
                    Some(list) => Some(Extract::Chars(list.clone())),
                    None => None,
                },
            },
        }
    }
}

/// What is selected of a line.
pub open spec fn cut_of(extract: Extract, delimiter: u8, line: &str) -> Seq<char> {
    match extract {
        Extract::Bytes(list) => lossy_text(extracted(line.spec_bytes(), list@)),
        Extract::Chars(list) => extracted(line@, list@),
        Extract::Fields(list) => joined(
            extracted(split_on(line@, delimiter as char), list@),
            seq![delimiter as char],
        ),
    }
}

/// Selects the fields, bytes or characters of a line.
pub fn cut_line(extract: &Extract, delimiter: u8, line: &str) -> (out: String)
    ensures
        out@ == cut_of(*extract, delimiter, line),
{
    match extract {
        Extract::Bytes(list) => extract_bytes(line, list.as_slice()),
        Extract::Chars(list) => extract_chars(line, list.as_slice()),
        Extract::Fields(list) => extract_fields(line, delimiter, list.as_slice()),
    }
}

/// The delimiter that an argument gives: its one byte. An argument of no
/// byte or of several gives none.
pub fn parse_delimiter(value: &[u8]) -> (delimiter: Option<u8>)
    ensures
        delimiter == if value@.len() == 1 {
            Some(value@[0])
        } else {
            None
        },
{
    if value.len() == 1 {
        Some(value[0])
    } else {
        None
    }
}

} // verus!
