//! Counting the lines, words, bytes and characters of a text.

use crate::decimal::{decimal_digits, push_decimal};
use crate::text::{
    chars_of, is_whitespace, lemma_encoded_len, lemma_lines_count, lemma_lines_of_len, lines_of,
    newline_count, push_all, push_right_aligned, right_aligned, string_of, views, whitespace,
};
use vstd::prelude::*;
use vstd::string::StringSliceAdditionalSpecFns;
use vstd::utf8::encode_utf8;

verus! {

/// The counts of one text, or the sums of the counts of several.
#[derive(Clone, Copy, Debug, PartialEq, Eq, Structural)]
pub struct FileInfo {
    pub num_lines: usize,
    pub num_words: usize,
    pub num_bytes: usize,
    pub num_chars: usize,
}

/// A word starts at `i`: the character there is no white space, and it is
/// the first of the text or follows white space.
pub open spec fn word_starts_at(s: Seq<char>, i: int) -> bool {
    &&& 0 <= i < s.len()
    &&& !is_whitespace(s[i])
    &&& (i == 0 || is_whitespace(s[i - 1]))
}

/// The number of words in a text: the runs of characters between white space.
pub open spec fn word_count(s: Seq<char>) -> nat
    decreases s.len(),
{
    if s.len() == 0 {
        0
    } else {
        word_count(s.drop_last()) + if word_starts_at(s, s.len() - 1) {
            1nat
        } else {
            0nat
        }
    }
}

/// A text has no more words than characters.
pub proof fn lemma_word_count(s: Seq<char>)
    ensures
        word_count(s) <= s.len(),
    decreases s.len(),
{
    if s.len() > 0 {
        lemma_word_count(s.drop_last());
    }
}

impl FileInfo {
    /// The counts of an empty text.
    pub fn new() -> (info: FileInfo)
        ensures
            info == (FileInfo { num_lines: 0, num_words: 0, num_bytes: 0, num_chars: 0 }),
    {
        FileInfo { num_lines: 0, num_words: 0, num_bytes: 0, num_chars: 0 }
    }

    /// The sums fit in the machine's integers.
    pub open spec fn can_add(&self, orig: &FileInfo) -> bool {
        &&& self.num_lines + orig.num_lines <= usize::MAX
        &&& self.num_words + orig.num_words <= usize::MAX
        &&& self.num_bytes + orig.num_bytes <= usize::MAX
        &&& self.num_chars + orig.num_chars <= usize::MAX
    }

    /// True when the counts of `orig` can be added.
    pub fn fits(&self, orig: &FileInfo) -> (b: bool)
        ensures
            b == self.can_add(orig),
    {
        self.num_lines <= usize::MAX - orig.num_lines && self.num_words <= usize::MAX
            - orig.num_words && self.num_bytes <= usize::MAX - orig.num_bytes && self.num_chars
            <= usize::MAX - orig.num_chars
    }

    /// Adds the counts of `orig`, each to its own.
    pub fn add(&mut self, orig: &FileInfo)
        requires
            old(self).can_add(orig),
        ensures
            final(self).num_lines == old(self).num_lines + orig.num_lines,
            final(self).num_words == old(self).num_words + orig.num_words,
            final(self).num_bytes == old(self).num_bytes + orig.num_bytes,
            final(self).num_chars == old(self).num_chars + orig.num_chars,
    {
        self.num_lines += orig.num_lines;
        self.num_words += orig.num_words;
        self.num_bytes += orig.num_bytes;
        self.num_chars += orig.num_chars;
    }
}

/// Counts the lines, words, bytes and characters of a text.
///
/// A line ends with a line feed, or with the text. A word is a run of
/// characters that are no white space.
pub fn count(content: &str) -> (info: FileInfo)
    ensures
        info.num_lines == lines_of(content@).len(),
        info.num_words == word_count(content@),
        info.num_bytes == content.spec_bytes().len(),
        info.num_chars == content@.len(),
{
    let chars = chars_of(content);
    let ghost s = chars@;
    let mut num_lines: usize = 0;
    let mut num_words: usize = 0;
    let mut in_word = false;
    let mut i: usize = 0;
    assert(s.take(0) =~= Seq::<char>::empty());
    while i < chars.len()
        invariant
            s == chars@,
            i <= chars.len(),
            num_lines == newline_count(s.take(i as int)),
            num_lines <= i,
            i > 0 && s[i - 1] != '\n' ==> num_lines < i,
            num_words == word_count(s.take(i as int)),
            num_words <= i,
            in_word == (i > 0 && !is_whitespace(s[i - 1])),
        decreases chars.len() - i,
    {
        let c = chars[i];
        proof {
            assert(s.take(i + 1).drop_last() =~= s.take(i as int));
            assert(s.take(i + 1).last() == c);
        }
        if c == '\n' {
            num_lines += 1;
        }
        let blank = whitespace(c);
        if !blank && !in_word {
            num_words += 1;
        }
        in_word = !blank;
        i += 1;
    }
    assert(s.take(i as int) =~= s);
    proof {
        lemma_lines_of_len(s);
    }
    if chars.len() > 0 && chars[chars.len() - 1] != '\n' {
        num_lines += 1;
    }
    FileInfo {
        num_lines,
        num_words,
        num_bytes: content.as_bytes().len(),
        num_chars: chars.len(),
    }
}

/// Which counts to show, and of which sources.
pub struct Config {
    /// The names of the sources; `-` is the standard input.
    pub files: Vec<String>,
    /// Show the number of lines.
    pub lines: bool,
    /// Show the number of words.
    pub words: bool,
    /// Show the number of bytes.
    pub bytes: bool,
    /// Show the number of characters.
    pub chars: bool,
}

impl Config {
    /// No count was asked for.
    pub open spec fn no_flags(&self) -> bool {
        !self.lines && !self.words && !self.bytes && !self.chars
    }

    /// Where no count was asked for, lines, words and bytes are shown.
    pub fn with_defaults(self) -> (config: Config)
        ensures
            config.files == self.files,
            config.chars == self.chars,
            config.lines == (self.lines || self.no_flags()),
            config.words == (self.words || self.no_flags()),
            config.bytes == (self.bytes || self.no_flags()),
    {
        if !self.lines && !self.words && !self.bytes && !self.chars {
            Config { files: self.files, lines: true, words: true, bytes: true, chars: false }
        } else {
            self
        }
    }
}

/// One count as it is shown: its decimal digits, moved to the right in a
/// field of eight characters; nothing where the count is not shown.
pub open spec fn count_field(show: bool, n: usize) -> Seq<char> {
    if show {
        right_aligned(decimal_digits(n as nat), 8)
    } else {
        Seq::empty()
    }
}

/// The line that reports the counts of a source: the counts asked for, in the
/// order lines, words, bytes, characters, then a space and the name of the
/// source unless that is `-`.
pub open spec fn file_info_line(config: &Config, filename: Seq<char>, info: &FileInfo) -> Seq<
    char,
> {
    count_field(config.lines, info.num_lines) + count_field(config.words, info.num_words)
        + count_field(config.bytes, info.num_bytes) + count_field(config.chars, info.num_chars)
        + if filename == seq!['-'] {
        Seq::<char>::empty()
    } else {
        seq![' '] + filename
    }
}

/// Appends a count as it is shown.
fn push_count(out: &mut Vec<char>, show: bool, n: usize)
    ensures
        final(out)@ == old(out)@ + count_field(show, n),
{
    if show {
        let mut digits: Vec<char> = Vec::new();
        push_decimal(&mut digits, n as u64);
        assert(digits@ =~= decimal_digits(n as nat));
        push_right_aligned(out, &digits, 8);
    } else {
        assert(out@ =~= old(out)@ + count_field(show, n));
    }
}

/// The line that reports the counts of a source.
pub fn format_file_info(config: &Config, filename: &str, info: &FileInfo) -> (line: String)
    ensures
        line@ == file_info_line(config, filename@, info),
{
    let mut out: Vec<char> = Vec::new();
    push_count(&mut out, config.lines, info.num_lines);
    push_count(&mut out, config.words, info.num_words);
    push_count(&mut out, config.bytes, info.num_bytes);
    push_count(&mut out, config.chars, info.num_chars);
    let name = chars_of(filename);
    if !(name.len() == 1 && name[0] == '-') {
        out.push(' ');
        push_all(&mut out, &name);
        assert(name@ != seq!['-']) by {
            if name@.len() == 1 {
                assert(seq!['-'][0] == '-');
            } else {
                assert(seq!['-'].len() == 1);
            }
        }
    } else {
        assert(name@ =~= seq!['-']);
    }
    assert(out@ =~= file_info_line(config, filename@, info));
    string_of(&out)
}

/// The counts of a text.
pub open spec fn counts_of(content: Seq<char>) -> FileInfo {
    FileInfo {
        num_lines: lines_of(content).len() as usize,
        num_words: word_count(content) as usize,
        num_bytes: encode_utf8(content).len() as usize,
        num_chars: content.len() as usize,
    }
}

/// The number of bytes of the texts among the first `n` sources.
pub open spec fn total_bytes(contents: Seq<Option<String>>, n: int) -> int
    decreases n,
{
    if n <= 0 {
        0
    } else {
        total_bytes(contents, n - 1) + match contents[n - 1] {
            Some(content) => encode_utf8(content@).len() as int,
            None => 0,
        }
    }
}

/// The sums of the counts of the texts among the first `n` sources.
pub open spec fn totals(contents: Seq<Option<String>>, n: int) -> FileInfo
    decreases n,
{
    if n <= 0 {
        FileInfo { num_lines: 0, num_words: 0, num_bytes: 0, num_chars: 0 }
    } else {
        match contents[n - 1] {
            Some(content) => FileInfo {
                num_lines: (totals(contents, n - 1).num_lines + counts_of(
                    content@,
                ).num_lines) as usize,
                num_words: (totals(contents, n - 1).num_words + counts_of(
                    content@,
                ).num_words) as usize,
                num_bytes: (totals(contents, n - 1).num_bytes + counts_of(
                    content@,
                ).num_bytes) as usize,
                num_chars: (totals(contents, n - 1).num_chars + counts_of(
                    content@,
                ).num_chars) as usize,
            },
            None => totals(contents, n - 1),
        }
    }
}

/// The lines that report the texts among the first `n` sources, one for
/// each, in the order of the sources.
pub open spec fn source_lines(config: &Config, contents: Seq<Option<String>>, n: int) -> Seq<
    Seq<char>,
>
    decreases n,
{
    if n <= 0 {
        Seq::empty()
    } else {
        match contents[n - 1] {
            Some(content) => source_lines(config, contents, n - 1).push(
                file_info_line(config, config.files@[n - 1]@, &counts_of(content@)),
            ),
            None => source_lines(config, contents, n - 1),
        }
    }
}

/// The lines of the report: one for each text, and, where there are several
/// sources, one with the sums under the name `total`.
pub open spec fn report(config: &Config, contents: Seq<Option<String>>) -> Seq<Seq<char>> {
    source_lines(config, contents, contents.len() as int) + if config.files@.len() > 1 {
        seq![file_info_line(config, "total"@, &totals(contents, contents.len() as int))]
    } else {
        Seq::<Seq<char>>::empty()
    }
}

/// The bytes of the first sources are no more than those of more sources.
pub proof fn lemma_total_bytes_grows(contents: Seq<Option<String>>, k: int, n: int)
    requires
        0 <= k <= n,
    ensures
        0 <= total_bytes(contents, k) <= total_bytes(contents, n),
    decreases n,
{
    if k < n {
        lemma_total_bytes_grows(contents, k, n - 1);
    } else if n > 0 {
        lemma_total_bytes_grows(contents, k - 1, n - 1);
    }
}

/// Reports the counts of the texts of the sources, and their sums.
///
/// `contents` holds the text of each source, or `None` for a source that
/// could not be read: it has no line and adds nothing to the sums.
pub fn run(config: &Config, contents: &Vec<Option<String>>) -> (out: Vec<String>)
    requires
        contents@.len() == config.files@.len(),
        total_bytes(contents@, contents@.len() as int) <= usize::MAX,
    ensures
        views(out@) == report(config, contents@),
{
    let mut out: Vec<String> = Vec::new();
    let mut total = FileInfo::new();
    let mut i: usize = 0;
    assert(views(out@) =~= source_lines(config, contents@, 0));
    while i < contents.len()
        invariant
            i <= contents.len(),
            contents@.len() == config.files@.len(),
            total_bytes(contents@, contents@.len() as int) <= usize::MAX,
            total == totals(contents@, i as int),
            total.num_lines <= total_bytes(contents@, i as int),
            total.num_words <= total_bytes(contents@, i as int),
            total.num_bytes <= total_bytes(contents@, i as int),
            total.num_chars <= total_bytes(contents@, i as int),
            views(out@) == source_lines(config, contents@, i as int),
        decreases contents.len() - i,
    {
        match &contents[i] {
            None => {},
            Some(content) => {
                let info = count(content.as_str());
                proof {
                    lemma_lines_count(content@);
                    lemma_encoded_len(content@);
                    lemma_word_count(content@);
                    lemma_total_bytes_grows(contents@, i + 1, contents@.len() as int);
                    assert(info == counts_of(content@));
                }
                let ghost before = views(out@);
                let line = format_file_info(config, config.files[i].as_str(), &info);
                out.push(line);
                assert(views(out@) =~= before.push(
                    file_info_line(config, config.files@[i as int]@, &info),
                ));
                total.add(&info);
            },
        }
        i += 1;
    }
    if config.files.len() > 1 {
        let ghost before = views(out@);
        let line = format_file_info(config, "total", &total);
        out.push(line);
        assert(views(out@) =~= before.push(
            file_info_line(config, "total"@, &total),
        ));
    }
    assert(views(out@) =~= report(config, contents@));
    out
}

} // verus!
