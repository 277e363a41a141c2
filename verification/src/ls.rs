//! Listing the entries of directories.

use crate::text::chars_of;
use vstd::prelude::*;

verus! {

/// What to list, and how.
pub struct Args {
    /// The files and directories to list.
    pub paths: Vec<String>,
    /// List each entry with what is known of it.
    pub long: bool,
    /// List the hidden entries too.
    pub show_hidden: bool,
}

/// The entry is hidden: its name starts with a dot.
pub open spec fn is_hidden(name: Seq<char>) -> bool {
    name.len() > 0 && name[0] == '.'
}

/// The entry of a directory is listed: it is not hidden, or the hidden are wanted.
pub open spec fn is_listed(name: Seq<char>, show_hidden: bool) -> bool {
    show_hidden || !is_hidden(name)
}

/// True when the entry of a directory with this name is listed.
pub fn listed(name: &str, show_hidden: bool) -> (b: bool)
    ensures
        b == is_listed(name@, show_hidden),
{
    if show_hidden {
        return true;
    }
    let chars = chars_of(name);
    !(chars.len() > 0 && chars[0] == '.')
}

/// The names, among those of the entries of a directory, that are listed.
pub fn select_listed(names: &Vec<String>, show_hidden: bool) -> (out: Vec<String>)
    ensures
        out@ == names@.filter(|name: String| is_listed(name@, show_hidden)),
{
    let ghost pred = |name: String| is_listed(name@, show_hidden);
    let mut out: Vec<String> = Vec::new();
    let mut i: usize = 0;
    assert(names@.take(0) =~= Seq::<String>::empty());
    proof {
        reveal(Seq::filter);
    }
    assert(out@ =~= names@.take(0).filter(pred));
    while i < names.len()
        invariant
            i <= names.len(),
            pred == (|name: String| is_listed(name@, show_hidden)),
            out@ == names@.take(i as int).filter(pred),
        decreases names.len() - i,
    {
        proof {
            reveal(Seq::filter);
            assert(names@.take(i + 1).drop_last() =~= names@.take(i as int));
            assert(names@.take(i + 1).last() == names@[i as int]);
        }
        if listed(names[i].as_str(), show_hidden) {
            out.push(names[i].clone());
        }
        i += 1;
    }
    assert(names@.take(i as int) =~= names@);
    out
}

/// Lists nothing yet.
pub fn run(args: &Args) -> (done: Result<(), String>)
    ensures
        done is Ok,
{
    Ok(())
}

} // verus!
