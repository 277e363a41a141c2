//! The start of an input: its first lines or its first bytes.

use crate::decimal::{integer_text, Integer};
use crate::text::{
    chars_of, concatenate, decode_lossy, header, heading, lines, lines_of, lossy_text, utf8_text,
    views,
};
use vstd::prelude::*;
use vstd::string::StringExecFns;
use vstd::utf8::{decode_utf8, valid_utf8};

verus! {

/// How much to emit of each source.
#[derive(Debug)]
pub struct Config {
    /// The names of the sources.
    pub files: Vec<String>,
    /// The number of lines to emit.
    pub lines: usize,
    /// The number of bytes to emit; where it is given, bytes are emitted, not lines.
    pub bytes: Option<usize>,
}

/// The positive number that a text writes: an optional plus sign and decimal
/// digits, of a value above zero that fits the machine's word.
pub open spec fn positive_int(s: Seq<char>) -> Option<usize> {
    match integer_text(s, false) {
        Some(v) => if 0 < v <= usize::MAX {
            Some(v as usize)
        } else {
            None
        },
        None => None,
    }
}

/// Reads a positive number. A text that writes none is handed back as the error.
pub fn parse_positive_int(val: &str) -> (r: Result<usize, String>)
    ensures
        match positive_int(val@) {
            Some(n) => r == Ok::<usize, String>(n),
            None => r is Err && r->Err_0@ == val@,
        },
{
    let chars = chars_of(val);
    match usize::from_chars(&chars) {
        Some(n) => {
            if n > 0 {
                Ok(n)
            } else {
                Err(val.to_owned())
            }
        },
        None => Err(val.to_owned()),
    }
}

/// The words that refuse a value given for a count: the value, and the
/// option it was given for, with the name of what the option takes.
pub open spec fn invalid_value(value: Seq<char>, option: Seq<char>, takes: Seq<char>) -> Seq<
    char,
> {
    "error: invalid value '"@ + value + "' for '--"@ + option + " <"@ + takes
        + ">': invalid digit found in string"@
}

/// The words that refuse a value given for a count.
pub fn invalid_value_message(value: &str, option: &str, takes: &str) -> (message: String)
    ensures
        message@ == invalid_value(value@, option@, takes@),
{
    let mut message = String::from_str("error: invalid value '");
    message.append(value);
    message.append("' for '--");
    message.append(option);
    message.append(" <");
    message.append(takes);
    message.append(">': invalid digit found in string");
    assert(message@ =~= invalid_value(value@, option@, takes@));
    message
}

/// The first `n` items of a sequence, or all where it holds fewer.
pub open spec fn first_items<T>(items: Seq<T>, n: int) -> Seq<T> {
    if n < items.len() {
        items.take(n)
    } else {
        items
    }
}

/// The first `n` lines of a text, each with the line feed that ends it.
pub fn head_lines(content: &str, n: usize) -> (out: String)
    ensures
        out@ == first_items(lines_of(content@), n as int).flatten(),
{
    let all = lines(content);
    let mut picked: Vec<String> = Vec::new();
    let mut i: usize = 0;
    while i < all.len() && i < n
        invariant
            i <= all.len(),
            i <= n,
            picked@ == all@.take(i as int),
        decreases all.len() - i,
    {
        picked.push(all[i].clone());
        i += 1;
        assert(picked@ =~= all@.take(i as int));
    }
    assert(views(picked@) =~= first_items(lines_of(content@), n as int));
    concatenate(&picked)
}

/// The first `n` bytes of an input.
pub fn first_bytes(content: &[u8], n: usize) -> (out: Vec<u8>)
    ensures
        out@ == first_items(content@, n as int),
{
    let mut out: Vec<u8> = Vec::new();
    let mut i: usize = 0;
    while i < content.len() && i < n
        invariant
            i <= content.len(),
            i <= n,
            out@ == content@.take(i as int),
        decreases content.len() - i,
    {
        out.push(content[i]);
        i += 1;
        assert(out@ =~= content@.take(i as int));
    }
    assert(out@ =~= first_items(content@, n as int));
    out
}

/// The first `n` bytes of an input, decoded as UTF-8 with what is ill-formed
/// replaced.
pub fn head_bytes(content: &[u8], n: usize) -> (out: String)
    ensures
        out@ == lossy_text(first_items(content@, n as int)),
{
    let picked = first_bytes(content, n);
    decode_lossy(&picked)
}

/// Why nothing is written for a source.
#[derive(Clone, Copy, Debug, PartialEq, Eq, Structural)]
pub enum HeadError {
    /// Lines are asked for, and the source is not well-formed UTF-8.
    InvalidUtf8,
}

/// The start of an input that `config` selects: its first bytes, decoded,
/// where a number of bytes is given; else its first lines, if it is text.
pub open spec fn head_of(config: &Config, content: Seq<u8>) -> Option<Seq<char>> {
    match config.bytes {
        Some(n) => Some(lossy_text(first_items(content, n as int))),
        None => if valid_utf8(content) {
            Some(first_items(lines_of(decode_utf8(content)), config.lines as int).flatten())
        } else {
            None
        },
    }
}

/// The heading of the source at `index`, where there are several sources.
pub open spec fn heading_of(config: &Config, index: usize, filename: Seq<char>) -> Seq<char> {
    if config.files@.len() > 1 {
        heading(index == 0, filename)
    } else {
        Seq::<char>::empty()
    }
}

/// The output for the source at `index`: its heading, where there are
/// several sources, and the start of its content.
pub fn head(config: &Config, index: usize, filename: &str, content: &[u8]) -> (r: Result<
    String,
    HeadError,
>)
    ensures
        match head_of(config, content@) {
            Some(start) => r is Ok && r->Ok_0@ == heading_of(config, index, filename@) + start,
            None => r == Err::<String, HeadError>(HeadError::InvalidUtf8),
        },
{
    let body = match config.bytes {
        Some(n) => head_bytes(content, n),
        None => match utf8_text(content) {
            Some(text) => {
                proof {
                    vstd::utf8::encode_utf8_decode_utf8(text@);
                }
                head_lines(text, config.lines)
            },
            None => {
                return Err(HeadError::InvalidUtf8);
            },
        },
    };
    let mut out = if config.files.len() > 1 {
        header(index == 0, filename)
    } else {
        String::new()
    };
    let ghost before = out@;
    out.append(body.as_str());
    assert(out@ =~= before + head_of(config, content@)->Some_0);
    Ok(out)
}

/// Among the first `n` sources, one that could be read holds no start:
/// lines are asked for and it is not well-formed UTF-8.
pub open spec fn fails_before(config: &Config, contents: Seq<Option<Vec<u8>>>, n: int) -> bool {
    exists|i: int|
        0 <= i < n && (#[trigger] contents[i]) is Some && head_of(config, contents[i]->Some_0@)
            is None
}

/// What is written for the source at `i`: nothing for a source that could
/// not be read, else its heading and its start.
pub open spec fn output_at(config: &Config, contents: Seq<Option<Vec<u8>>>, i: int) -> Option<
    Seq<char>,
> {
    match contents[i] {
        None => None,
        Some(content) => Some(
            heading_of(config, i as usize, config.files@[i]@) + head_of(config, content@)->Some_0,
        ),
    }
}

/// The view of what is written for a source.
pub open spec fn output_view(output: Option<String>) -> Option<Seq<char>> {
    match output {
        Some(text) => Some(text@),
        None => None,
    }
}

/// The output for each source, in the order of the sources, up to the first
/// that holds no start; then the error, if there is such a source.
///
/// `contents` holds the bytes of each source, or `None` for a source that
/// could not be read: nothing is written for it, and the sources after it
/// are still served.
pub fn run(config: &Config, contents: &Vec<Option<Vec<u8>>>) -> (done: (
    Vec<Option<String>>,
    Result<(), HeadError>,
))
    requires
        contents@.len() == config.files@.len(),
    ensures
        done.0@.len() <= contents@.len(),
        !fails_before(config, contents@, done.0@.len() as int),
        forall|i: int|
            0 <= i < done.0@.len() ==> output_view(#[trigger] done.0@[i]) == output_at(
                config,
                contents@,
                i,
            ),
        done.1 is Ok <==> done.0@.len() == contents@.len(),
        done.1 is Err ==> done.1 == Err::<(), HeadError>(HeadError::InvalidUtf8) && fails_before(
            config,
            contents@,
            done.0@.len() as int + 1,
        ),
{
    let mut outputs: Vec<Option<String>> = Vec::new();
    let mut i: usize = 0;
    while i < contents.len()
        invariant
            i <= contents.len(),
            contents@.len() == config.files@.len(),
            outputs@.len() == i,
            !fails_before(config, contents@, i as int),
            forall|j: int|
                0 <= j < i ==> output_view(#[trigger] outputs@[j]) == output_at(
                    config,
                    contents@,
                    j,
                ),
        decreases contents.len() - i,
    {
        match &contents[i] {
            None => {
                outputs.push(None);
            },
            Some(content) => {
                match head(config, i, config.files[i].as_str(), content.as_slice()) {
                    Ok(text) => {
                        outputs.push(Some(text));
                    },
                    Err(error) => {
                        assert(contents@[i as int] is Some && head_of(
                            config,
                            contents@[i as int]->Some_0@,
                        ) is None);
                        return (outputs, Err(error));
                    },
                }
            },
        }
        i += 1;
    }
    (outputs, Ok(()))
}

} // verus!
