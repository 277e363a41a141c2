//! Text as sequences of characters: conversions, lines, blanks and padding.

use vstd::prelude::*;
use vstd::std_specs::iter::IteratorSpec;
use vstd::string::StringExecFns;
use vstd::utf8::{decode_utf8, encode_scalar, encode_utf8, valid_utf8};

verus! {

broadcast use vstd::string::group_string_axioms;

/// Appends one character to a string.
///
/// Trusted: `String::push` of the standard library, which puts the character
/// at the end and leaves what was there before unchanged.
#[verifier::external_body]
pub(crate) fn push_char(s: &mut String, c: char)
    ensures
        final(s)@ == old(s)@.push(c),
{
    s.push(c);
}

/// The characters of a string, in order.
pub fn chars_of(s: &str) -> (v: Vec<char>)
    ensures
        v@ == s@,
{
    let mut v: Vec<char> = Vec::new();
    for c in it: s.chars()
        invariant
            it.seq() == s@,
            v@ == s@.take(it.index() as int),
    {
        v.push(c);
    }
    v
}

/// The string made of the given characters, in order.
pub fn string_of(v: &Vec<char>) -> (s: String)
    ensures
        s@ == v@,
{
    let mut s = String::new();
    let mut i: usize = 0;
    while i < v.len()
        invariant
            i <= v.len(),
            s@ == v@.take(i as int),
        decreases v.len() - i,
    {
        push_char(&mut s, v[i]);
        i += 1;
    }
    s
}

/// The views of the strings of a list, in order.
pub open spec fn views(v: Seq<String>) -> Seq<Seq<char>> {
    Seq::new(v.len(), |i: int| v[i]@)
}

/// The contents of the rows of a list, in order.
pub open spec fn rows(v: Seq<Vec<char>>) -> Seq<Seq<char>> {
    Seq::new(v.len(), |i: int| v[i]@)
}

/// The strings made of the given rows of characters.
pub fn strings_of(lines: &Vec<Vec<char>>) -> (out: Vec<String>)
    ensures
        views(out@) == rows(lines@),
{
    let mut out: Vec<String> = Vec::new();
    let mut i: usize = 0;
    while i < lines.len()
        invariant
            i <= lines.len(),
            out.len() == i,
            forall|j: int| 0 <= j < i ==> (#[trigger] out@[j])@ == lines@[j]@,
        decreases lines.len() - i,
    {
        out.push(string_of(&lines[i]));
        i += 1;
    }
    assert(views(out@) =~= rows(lines@));
    out
}

/// The rows of characters of the given strings.
pub fn lists_of(lines: &Vec<String>) -> (out: Vec<Vec<char>>)
    ensures
        rows(out@) == views(lines@),
{
    let mut out: Vec<Vec<char>> = Vec::new();
    let mut i: usize = 0;
    while i < lines.len()
        invariant
            i <= lines.len(),
            out.len() == i,
            forall|j: int| 0 <= j < i ==> (#[trigger] out@[j])@ == lines@[j]@,
        decreases lines.len() - i,
    {
        out.push(chars_of(lines[i].as_str()));
        i += 1;
    }
    assert(rows(out@) =~= views(lines@));
    out
}

/// The length of the first line of a text, its line feed included.
pub open spec fn first_line_len(s: Seq<char>) -> int
    decreases s.len(),
{
    if s.len() == 0 {
        0
    } else if s[0] == '\n' {
        1
    } else {
        1 + first_line_len(s.drop_first())
    }
}

/// The lines of a text. Each line keeps the line feed that ends it; the last
/// line has none where the text does not end in one. An empty text has no line.
pub open spec fn lines_of(s: Seq<char>) -> Seq<Seq<char>>
    decreases s.len(),
    via lines_of_decreases
{
    if s.len() == 0 {
        Seq::empty()
    } else {
        seq![s.take(first_line_len(s))] + lines_of(s.skip(first_line_len(s)))
    }
}

#[via_fn]
proof fn lines_of_decreases(s: Seq<char>) {
    if s.len() > 0 {
        lemma_first_line_bounds(s);
    }
}

/// The first line of a text that is not empty holds at least one character
/// and no more than the text.
pub proof fn lemma_first_line_bounds(s: Seq<char>)
    requires
        s.len() > 0,
    ensures
        0 < first_line_len(s) <= s.len(),
    decreases s.len(),
{
    if s[0] != '\n' {
        if s.len() > 1 {
            lemma_first_line_bounds(s.drop_first());
        } else {
            assert(first_line_len(s.drop_first()) == 0);
        }
    }
}

/// The first line ends at the first line feed, or with the text.
pub proof fn lemma_first_line(s: Seq<char>, k: int)
    requires
        0 < k <= s.len(),
        forall|j: int| 0 <= j < k - 1 ==> s[j] != '\n',
        s[k - 1] == '\n' || k == s.len(),
    ensures
        first_line_len(s) == k,
    decreases k,
{
    if s[0] == '\n' {
        if k > 1 {
            assert(s[0] != '\n');
        }
    } else if k == 1 {
        assert(s.drop_first().len() == 0);
        assert(first_line_len(s.drop_first()) == 0);
    } else {
        let t = s.drop_first();
        assert(t[k - 2] == s[k - 1]);
        assert forall|j: int| 0 <= j < k - 2 implies t[j] != '\n' by {
            assert(t[j] == s[j + 1]);
        }
        lemma_first_line(t, k - 1);
    }
}

/// A text has no more lines than characters.
pub proof fn lemma_lines_count(s: Seq<char>)
    ensures
        lines_of(s).len() <= s.len(),
    decreases s.len(),
{
    if s.len() > 0 {
        lemma_first_line_bounds(s);
        lemma_lines_count(s.skip(first_line_len(s)));
    }
}

/// The lines of a text, joined, are the text.
pub proof fn lemma_lines_join(s: Seq<char>)
    ensures
        lines_of(s).flatten() == s,
    decreases s.len(),
{
    if s.len() > 0 {
        let k = first_line_len(s);
        lemma_first_line_bounds(s);
        lemma_lines_join(s.skip(k));
        let all = lines_of(s);
        assert(all.first() == s.take(k));
        assert(all.drop_first() =~= lines_of(s.skip(k)));
        assert(s.take(k) + s.skip(k) =~= s);
    }
}

/// The number of line feeds in a text.
pub open spec fn newline_count(s: Seq<char>) -> nat
    decreases s.len(),
{
    if s.len() == 0 {
        0
    } else {
        newline_count(s.drop_last()) + if s.last() == '\n' {
            1nat
        } else {
            0nat
        }
    }
}

/// A text has one line for each line feed, and one more where it does not
/// end in a line feed.
pub proof fn lemma_lines_of_len(s: Seq<char>)
    ensures
        lines_of(s).len() == newline_count(s) + if s.len() > 0 && s.last() != '\n' {
            1nat
        } else {
            0nat
        },
    decreases s.len(),
{
    if s.len() > 0 {
        let k = first_line_len(s);
        lemma_first_line_bounds(s);
        lemma_first_line_end(s);
        let rest = s.skip(k);
        lemma_lines_of_len(rest);
        lemma_newline_count_split(s, k);
        lemma_newline_count_line(s.take(k));
        if rest.len() > 0 {
            assert(rest.last() == s.last());
        }
    }
}

/// The first line of a text holds no line feed before its last character, and
/// ends in one unless it is the whole text.
pub proof fn lemma_first_line_end(s: Seq<char>)
    requires
        s.len() > 0,
    ensures
        forall|j: int| 0 <= j < first_line_len(s) - 1 ==> s[j] != '\n',
        first_line_len(s) < s.len() ==> s[first_line_len(s) - 1]
            == '\n',
    decreases s.len(),
{
    if s[0] != '\n' {
        let t = s.drop_first();
        if t.len() > 0 {
            lemma_first_line_end(t);
            lemma_first_line_bounds(t);
            assert forall|j: int| 0 <= j < first_line_len(s) - 1 implies s[j]
                != '\n' by {
                if j > 0 {
                    assert(t[j - 1] == s[j]);
                }
            }
            if first_line_len(s) < s.len() {
                assert(t[first_line_len(t) - 1] == s[first_line_len(s)
                    - 1]);
            }
        } else {
            assert(first_line_len(t) == 0);
        }
    }
}

/// The line feeds of a text are those of a prefix and those of the rest.
pub proof fn lemma_newline_count_split(s: Seq<char>, k: int)
    requires
        0 <= k <= s.len(),
    ensures
        newline_count(s) == newline_count(s.take(k)) + newline_count(s.skip(k)),
    decreases s.len() - k,
{
    if k == s.len() {
        assert(s.take(k) =~= s);
        assert(s.skip(k) =~= Seq::<char>::empty());
    } else {
        let t = s.drop_last();
        lemma_newline_count_split(t, k);
        assert(t.take(k) =~= s.take(k));
        assert(s.skip(k).drop_last() =~= t.skip(k));
        assert(s.skip(k).last() == s.last());
    }
}

/// A text with no line feed before its last character holds one line feed if
/// it ends in one, and none otherwise.
pub proof fn lemma_newline_count_line(s: Seq<char>)
    requires
        forall|j: int| 0 <= j < s.len() - 1 ==> s[j] != '\n',
    ensures
        newline_count(s) == if s.len() > 0 && s.last() == '\n' {
            1nat
        } else {
            0nat
        },
    decreases s.len(),
{
    if s.len() > 0 {
        lemma_no_newline(s.drop_last());
    }
}

/// A text without line feeds counts none.
pub proof fn lemma_no_newline(s: Seq<char>)
    requires
        forall|j: int| 0 <= j < s.len() ==> s[j] != '\n',
    ensures
        newline_count(s) == 0,
    decreases s.len(),
{
    if s.len() > 0 {
        lemma_no_newline(s.drop_last());
    }
}

/// A text has no more characters than its UTF-8 encoding has bytes.
pub proof fn lemma_encoded_len(s: Seq<char>)
    ensures
        s.len() <= encode_utf8(s).len(),
    decreases s.len(),
{
    if s.len() > 0 {
        lemma_encoded_len(s.drop_first());
        assert(encode_scalar(s[0] as u32).len() >= 1);
    }
}

/// Splits a text into its lines.
pub fn split_lines(chars: &Vec<char>) -> (out: Vec<Vec<char>>)
    ensures
        rows(out@) == lines_of(chars@),
{
    let ghost s = chars@;
    let mut out: Vec<Vec<char>> = Vec::new();
    let mut cur: Vec<char> = Vec::new();
    let mut i: usize = 0;
    let ghost mut start: int = 0;
    assert(s.skip(0) =~= s);
    assert(rows(out@) + lines_of(s.skip(0)) =~= lines_of(s));
    while i < chars.len()
        invariant
            s == chars@,
            0 <= start <= i <= chars.len(),
            cur@ == s.subrange(start, i as int),
            forall|j: int| start <= j < i ==> s[j] != '\n',
            rows(out@) + lines_of(s.skip(start)) == lines_of(s),
        decreases chars.len() - i,
    {
        let c = chars[i];
        cur.push(c);
        i += 1;
        assert(cur@ =~= s.subrange(start, i as int));
        if c == '\n' {
            proof {
                let rest = s.skip(start);
                let k = i - start;
                assert forall|j: int| 0 <= j < k - 1 implies rest[j] != '\n' by {
                    assert(rest[j] == s[j + start]);
                }
                lemma_first_line(rest, k);
                assert(rest.take(k) =~= cur@);
                assert(rest.skip(k) =~= s.skip(i as int));
                assert(rows(out@.push(cur)) =~= rows(out@) + seq![cur@]);
                assert(rows(out@.push(cur)) + lines_of(s.skip(i as int)) =~= rows(out@)
                    + lines_of(rest));
                start = i as int;
            }
            out.push(cur);
            cur = Vec::new();
            assert(cur@ =~= s.subrange(start, i as int));
        }
    }
    if cur.len() > 0 {
        proof {
            let rest = s.skip(start);
            let k = i - start;
            assert forall|j: int| 0 <= j < k - 1 implies rest[j] != '\n' by {
                assert(rest[j] == s[j + start]);
            }
            lemma_first_line(rest, k);
            assert(rest.take(k) =~= cur@);
            assert(rest.skip(k).len() == 0);
            assert(lines_of(rest.skip(k)) =~= Seq::<Seq<char>>::empty());
            assert(lines_of(rest) =~= seq![cur@]);
            assert(rows(out@.push(cur)) =~= rows(out@) + seq![cur@]);
            assert(rows(out@.push(cur)) =~= rows(out@) + lines_of(rest));
        }
        out.push(cur);
    } else {
        assert(s.skip(start).len() == 0);
        assert(lines_of(s.skip(start)) =~= Seq::<Seq<char>>::empty());
        assert(rows(out@) + lines_of(s.skip(start)) =~= rows(out@));
    }
    out
}

/// The lines of a text, each with the line feed that ends it.
pub fn lines(content: &str) -> (out: Vec<String>)
    ensures
        views(out@) == lines_of(content@),
{
    let chars = chars_of(content);
    let split = split_lines(&chars);
    strings_of(&split)
}

/// The index of the first `c` in a text, or the length of the text where it
/// holds none.
pub open spec fn index_of(s: Seq<char>, c: char) -> int
    decreases s.len(),
{
    if s.len() == 0 || s[0] == c {
        0
    } else {
        1 + index_of(s.drop_first(), c)
    }
}

/// The parts of a text between the occurrences of `c`. A text without `c` is
/// one part, and so is the empty text.
pub open spec fn split_on(s: Seq<char>, c: char) -> Seq<Seq<char>>
    decreases s.len(),
    via split_on_decreases
{
    if index_of(s, c) >= s.len() {
        seq![s]
    } else {
        seq![s.take(index_of(s, c))] + split_on(s.skip(index_of(s, c) + 1), c)
    }
}

#[via_fn]
proof fn split_on_decreases(s: Seq<char>, c: char) {
    lemma_index_of_bounds(s, c);
}

/// The first `c` of a text lies within it, or the index is the text's length.
pub proof fn lemma_index_of_bounds(s: Seq<char>, c: char)
    ensures
        0 <= index_of(s, c) <= s.len(),
        index_of(s, c) < s.len() ==> s[index_of(s, c)] == c,
        forall|j: int| 0 <= j < index_of(s, c) ==> s[j] != c,
    decreases s.len(),
{
    if s.len() > 0 && s[0] != c {
        let t = s.drop_first();
        lemma_index_of_bounds(t, c);
        assert forall|j: int| 0 <= j < index_of(s, c) implies s[j] != c by {
            if j > 0 {
                assert(t[j - 1] == s[j]);
            }
        }
        if index_of(s, c) < s.len() {
            assert(t[index_of(t, c)] == s[index_of(s, c)]);
        }
    }
}

/// The first `c` is at `k` where no `c` stands before `k` and one stands at
/// `k`, or `k` is the length of the text.
pub proof fn lemma_index_of(s: Seq<char>, c: char, k: int)
    requires
        0 <= k <= s.len(),
        forall|j: int| 0 <= j < k ==> s[j] != c,
        k == s.len() || s[k] == c,
    ensures
        index_of(s, c) == k,
    decreases k,
{
    if k > 0 {
        let t = s.drop_first();
        assert(s[0] != c);
        assert forall|j: int| 0 <= j < k - 1 implies t[j] != c by {
            assert(t[j] == s[j + 1]);
        }
        if k < s.len() {
            assert(t[k - 1] == s[k]);
        }
        lemma_index_of(t, c, k - 1);
    }
}

/// The characters from `from` up to `to`.
pub fn slice(chars: &Vec<char>, from: usize, to: usize) -> (out: Vec<char>)
    requires
        from <= to <= chars.len(),
    ensures
        out@ == chars@.subrange(from as int, to as int),
{
    let mut out: Vec<char> = Vec::new();
    let mut i: usize = from;
    while i < to
        invariant
            from <= i <= to <= chars.len(),
            out@ == chars@.subrange(from as int, i as int),
        decreases to - i,
    {
        out.push(chars[i]);
        i += 1;
        assert(out@ =~= chars@.subrange(from as int, i as int));
    }
    out
}

/// Splits a text at each occurrence of `c`.
pub fn split(chars: &Vec<char>, c: char) -> (out: Vec<Vec<char>>)
    ensures
        rows(out@) == split_on(chars@, c),
        out.len() >= 1,
{
    let ghost s = chars@;
    let mut out: Vec<Vec<char>> = Vec::new();
    let mut cur: Vec<char> = Vec::new();
    let mut i: usize = 0;
    let ghost mut start: int = 0;
    assert(s.skip(0) =~= s);
    assert(rows(out@) + split_on(s.skip(0), c) =~= split_on(s, c));
    while i < chars.len()
        invariant
            s == chars@,
            0 <= start <= i <= chars.len(),
            cur@ == s.subrange(start, i as int),
            forall|j: int| start <= j < i ==> s[j] != c,
            rows(out@) + split_on(s.skip(start), c) == split_on(s, c),
        decreases chars.len() - i,
    {
        let x = chars[i];
        if x == c {
            proof {
                let rest = s.skip(start);
                let k = i - start;
                assert forall|j: int| 0 <= j < k implies rest[j] != c by {
                    assert(rest[j] == s[j + start]);
                }
                assert(rest[k] == s[i as int]);
                lemma_index_of(rest, c, k);
                assert(rest.take(k) =~= cur@);
                assert(rest.skip(k + 1) =~= s.skip(i + 1));
                assert(rows(out@.push(cur)) =~= rows(out@) + seq![cur@]);
                assert(rows(out@.push(cur)) + split_on(s.skip(i + 1), c) =~= rows(out@)
                    + split_on(rest, c));
                start = i + 1;
            }
            out.push(cur);
            cur = Vec::new();
            i += 1;
            assert(cur@ =~= s.subrange(start, i as int));
        } else {
            cur.push(x);
            i += 1;
            assert(cur@ =~= s.subrange(start, i as int));
        }
    }
    proof {
        let rest = s.skip(start);
        let k = i - start;
        assert forall|j: int| 0 <= j < k implies rest[j] != c by {
            assert(rest[j] == s[j + start]);
        }
        lemma_index_of(rest, c, k);
        assert(rest =~= cur@);
        assert(rows(out@.push(cur)) =~= rows(out@) + seq![cur@]);
        assert(split_on(rest, c) =~= seq![rest]);
    }
    out.push(cur);
    out
}

/// The parts of a list, joined with `sep` between each two.
pub open spec fn joined(parts: Seq<Seq<char>>, sep: Seq<char>) -> Seq<char>
    decreases parts.len(),
{
    if parts.len() == 0 {
        Seq::empty()
    } else if parts.len() == 1 {
        parts[0]
    } else {
        joined(parts.drop_last(), sep) + sep + parts.last()
    }
}

/// The code of a character, with the capital letters of the ASCII alphabet
/// taken as their small ones.
pub open spec fn lower(c: char) -> int {
    if 65 <= c as int <= 90 {
        c as int + 32
    } else {
        c as int
    }
}

/// The code of a character, without regard to the case of ASCII letters.
pub fn lower_code(c: char) -> (code: u32)
    ensures
        code == lower(c),
{
    let code: u32 = c as u32;
    if 65 <= code && code <= 90 {
        code + 32
    } else {
        code
    }
}

/// `prefix` starts `text`, where the case of ASCII letters does not count.
pub open spec fn starts_ignoring_case(text: Seq<char>, prefix: Seq<char>) -> bool {
    &&& prefix.len() <= text.len()
    &&& forall|i: int| 0 <= i < prefix.len() ==> lower(#[trigger] prefix[i]) == lower(text[i])
}

/// True when `prefix` starts `text`, where the case of ASCII letters does not count.
pub fn starts_with_ignoring_case(text: &Vec<char>, prefix: &Vec<char>) -> (b: bool)
    ensures
        b == starts_ignoring_case(text@, prefix@),
{
    if prefix.len() > text.len() {
        return false;
    }
    let mut i: usize = 0;
    while i < prefix.len()
        invariant
            i <= prefix.len() <= text.len(),
            forall|j: int| 0 <= j < i ==> lower(#[trigger] prefix@[j]) == lower(text@[j]),
        decreases prefix.len() - i,
    {
        if lower_code(prefix[i]) != lower_code(text[i]) {
            return false;
        }
        i += 1;
    }
    true
}

/// Two texts are equal, where the case of ASCII letters does not count.
pub open spec fn equal_ignoring_case(a: Seq<char>, b: Seq<char>) -> bool {
    &&& a.len() == b.len()
    &&& forall|i: int| 0 <= i < a.len() ==> lower(#[trigger] a[i]) == lower(b[i])
}

/// True when two texts are equal, where the case of ASCII letters does not count.
pub fn equals_ignoring_case(a: &Vec<char>, b: &Vec<char>) -> (same: bool)
    ensures
        same == equal_ignoring_case(a@, b@),
{
    a.len() == b.len() && starts_with_ignoring_case(b, a)
}

/// True when two texts are equal.
pub fn equals(a: &Vec<char>, b: &Vec<char>) -> (same: bool)
    ensures
        same == (a@ == b@),
{
    if a.len() != b.len() {
        return false;
    }
    let mut i: usize = 0;
    while i < a.len()
        invariant
            i <= a.len(),
            a.len() == b.len(),
            forall|j: int| 0 <= j < i ==> a@[j] == b@[j],
        decreases a.len() - i,
    {
        if a[i] != b[i] {
            return false;
        }
        i += 1;
    }
    assert(a@ =~= b@);
    true
}

/// True when the characters are those of the word.
pub fn is_word(chars: &Vec<char>, word: &str) -> (b: bool)
    ensures
        b == (chars@ == word@),
{
    let other = chars_of(word);
    equals(chars, &other)
}

/// The character has the Unicode property White_Space.
pub open spec fn is_whitespace(c: char) -> bool {
    let code = c as int;
    ||| 0x09 <= code <= 0x0d
    ||| code == 0x20
    ||| code == 0x85
    ||| code == 0xa0
    ||| code == 0x1680
    ||| 0x2000 <= code <= 0x200a
    ||| code == 0x2028
    ||| code == 0x2029
    ||| code == 0x202f
    ||| code == 0x205f
    ||| code == 0x3000
}

/// True when the character is white space.
pub fn whitespace(c: char) -> (b: bool)
    ensures
        b == is_whitespace(c),
{
    let code: u32 = c as u32;
    (0x09 <= code && code <= 0x0d) || code == 0x20 || code == 0x85 || code == 0xa0 || code
        == 0x1680 || (0x2000 <= code && code <= 0x200a) || code == 0x2028 || code == 0x2029
        || code == 0x202f || code == 0x205f || code == 0x3000
}

/// The length of a text without the white space at its end.
pub open spec fn trimmed_len(s: Seq<char>) -> int
    decreases s.len(),
{
    if s.len() > 0 && is_whitespace(s.last()) {
        trimmed_len(s.drop_last())
    } else {
        s.len() as int
    }
}

/// A text without the white space at its end.
pub open spec fn trim_end_of(s: Seq<char>) -> Seq<char> {
    s.take(trimmed_len(s))
}

/// What is left of a text without the white space at its end is a prefix of it.
pub proof fn lemma_trimmed_len(s: Seq<char>)
    ensures
        0 <= trimmed_len(s) <= s.len(),
        trimmed_len(s) > 0 ==> !is_whitespace(s[trimmed_len(s) - 1]),
        forall|i: int| trimmed_len(s) <= i < s.len() ==> is_whitespace(s[i]),
    decreases s.len(),
{
    if s.len() > 0 && is_whitespace(s.last()) {
        let t = s.drop_last();
        lemma_trimmed_len(t);
        assert forall|i: int| trimmed_len(s) <= i < s.len() implies is_whitespace(s[i]) by {
            if i < t.len() {
                assert(t[i] == s[i]);
            }
        }
    }
}

/// The length of a text without the white space at its end.
pub fn trimmed_length(chars: &Vec<char>) -> (n: usize)
    ensures
        n == trimmed_len(chars@),
{
    let mut n: usize = chars.len();
    assert(chars@.take(n as int) =~= chars@);
    while n > 0 && whitespace(chars[n - 1])
        invariant
            n <= chars.len(),
            trimmed_len(chars@) == trimmed_len(chars@.take(n as int)),
        decreases n,
    {
        assert(chars@.take(n as int).drop_last() =~= chars@.take(n - 1));
        n -= 1;
    }
    n
}

/// A run of `n` spaces.
pub open spec fn spaces(n: int) -> Seq<char> {
    Seq::new(
        if n > 0 {
            n as nat
        } else {
            0
        },
        |i: int| ' ',
    )
}

/// A text moved to the right in a field of `width` characters: spaces come
/// before it where it is shorter than the field.
pub open spec fn right_aligned(s: Seq<char>, width: int) -> Seq<char> {
    spaces(width - s.len()) + s
}

/// A text at the left of a field of `width` characters: spaces come after it
/// where it is shorter than the field.
pub open spec fn left_aligned(s: Seq<char>, width: int) -> Seq<char> {
    s + spaces(width - s.len())
}

/// A text in the middle of a field of `width` characters: the spaces that
/// the field has left are shared out before and after it, the odd one after.
pub open spec fn centered(s: Seq<char>, width: int) -> Seq<char> {
    spaces((width - s.len()) / 2) + s + spaces((width - s.len()) - (width - s.len()) / 2)
}

/// Appends `n` spaces.
pub fn push_spaces(out: &mut Vec<char>, n: usize)
    ensures
        final(out)@ == old(out)@ + spaces(n as int),
{
    let mut i: usize = 0;
    assert(out@ =~= old(out)@ + spaces(0));
    while i < n
        invariant
            i <= n,
            out@ == old(out)@ + spaces(i as int),
        decreases n - i,
    {
        out.push(' ');
        i += 1;
        assert(out@ =~= old(out)@ + spaces(i as int));
    }
}

/// Appends the characters of `part`.
pub fn push_all(out: &mut Vec<char>, part: &Vec<char>)
    ensures
        final(out)@ == old(out)@ + part@,
{
    let mut i: usize = 0;
    assert(out@ =~= old(out)@ + part@.take(0));
    while i < part.len()
        invariant
            i <= part.len(),
            out@ == old(out)@ + part@.take(i as int),
        decreases part.len() - i,
    {
        out.push(part[i]);
        i += 1;
        assert(out@ =~= old(out)@ + part@.take(i as int));
    }
    assert(part@.take(i as int) =~= part@);
}

/// Appends `part`, moved to the right in a field of `width` characters.
pub fn push_right_aligned(out: &mut Vec<char>, part: &Vec<char>, width: usize)
    ensures
        final(out)@ == old(out)@ + right_aligned(part@, width as int),
{
    if part.len() < width {
        push_spaces(out, width - part.len());
    } else {
        assert(spaces(width - part@.len()) =~= Seq::<char>::empty());
    }
    push_all(out, part);
    assert(final(out)@ =~= old(out)@ + right_aligned(part@, width as int));
}

/// Appends `part`, at the left of a field of `width` characters.
pub fn push_left_aligned(out: &mut Vec<char>, part: &Vec<char>, width: usize)
    ensures
        final(out)@ == old(out)@ + left_aligned(part@, width as int),
{
    push_all(out, part);
    if part.len() < width {
        push_spaces(out, width - part.len());
    } else {
        assert(spaces(width - part@.len()) =~= Seq::<char>::empty());
    }
    assert(final(out)@ =~= old(out)@ + left_aligned(part@, width as int));
}

/// Appends `part`, in the middle of a field of `width` characters.
pub fn push_centered(out: &mut Vec<char>, part: &Vec<char>, width: usize)
    ensures
        final(out)@ == old(out)@ + centered(part@, width as int),
{
    if part.len() < width {
        let room: usize = width - part.len();
        let before: usize = room / 2;
        push_spaces(out, before);
        push_all(out, part);
        push_spaces(out, room - before);
    } else {
        push_all(out, part);
        assert(spaces((width - part@.len()) / 2) =~= Seq::<char>::empty());
        assert(spaces((width - part@.len()) - (width - part@.len()) / 2) =~= Seq::<
            char,
        >::empty());
    }
    assert(final(out)@ =~= old(out)@ + centered(part@, width as int));
}

/// The strings of a list, joined in order.
pub fn concatenate(parts: &Vec<String>) -> (out: String)
    ensures
        out@ == views(parts@).flatten(),
{
    let mut out = String::new();
    let mut i: usize = 0;
    assert(views(parts@).take(0) =~= Seq::<Seq<char>>::empty());
    while i < parts.len()
        invariant
            i <= parts.len(),
            out@ == views(parts@).take(i as int).flatten(),
        decreases parts.len() - i,
    {
        out.append(parts[i].as_str());
        proof {
            let all = views(parts@);
            assert(all.take(i + 1) =~= all.take(i as int).push(all[i as int]));
            all.take(i as int).lemma_flatten_push(all[i as int]);
        }
        i += 1;
    }
    assert(views(parts@).take(i as int) =~= views(parts@));
    out
}

/// The line that names a source: `==> name <==`, after an empty line unless
/// it is the first heading.
pub open spec fn heading(first: bool, filename: Seq<char>) -> Seq<char> {
    (if first {
        Seq::<char>::empty()
    } else {
        seq!['\n']
    }) + "==> "@ + filename + " <==\n"@
}

/// The heading of a source.
pub fn header(first: bool, filename: &str) -> (out: String)
    ensures
        out@ == heading(first, filename@),
{
    let mut out = String::new();
    if !first {
        out.append("\n");
        proof {
            reveal_strlit("\n");
            assert(out@ =~= seq!['\n']);
        }
    }
    out.append("==> ");
    out.append(filename);
    out.append(" <==\n");
    assert(out@ =~= heading(first, filename@));
    out
}

/// Reads bytes as UTF-8 text.
///
/// Trusted: `std::str::from_utf8`, which gives the text that the bytes
/// encode, and nothing where they are not well-formed UTF-8.
#[verifier::external_body]
pub(crate) fn utf8_text(bytes: &[u8]) -> (text: Option<&str>)
    ensures
        text is Some <==> valid_utf8(bytes@),
        text is Some ==> encode_utf8(text->Some_0@) == bytes@,
{
    std::str::from_utf8(bytes).ok()
}

/// What a permissive decoding of bytes as UTF-8 gives: the text, with each
/// ill-formed part replaced by the replacement character.
pub uninterp spec fn lossy_text(bytes: Seq<u8>) -> Seq<char>;

/// Decodes bytes as UTF-8, replacing what is ill-formed.
///
/// Trusted: `String::from_utf8_lossy` of the standard library. Its result is a
/// function of the bytes alone, and well-formed UTF-8 decodes to the text that
/// it encodes.
#[verifier::external_body]
pub(crate) fn decode_lossy(bytes: &Vec<u8>) -> (s: String)
    ensures
        s@ == lossy_text(bytes@),
        valid_utf8(bytes@) ==> s@ == decode_utf8(bytes@),
{
    String::from_utf8_lossy(bytes).into_owned()
}

} // verus!
