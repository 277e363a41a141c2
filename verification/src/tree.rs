//! A directory drawn as a tree: the lines of its entries, and their count.

use crate::decimal::{decimal_digits, push_decimal};
use crate::text::{string_of, views};
use vstd::prelude::*;
use vstd::string::StringExecFns;

verus! {

/// Where the tree starts.
pub struct Config {
    pub path: String,
}

/// The numbers of directories and of other entries met.
#[derive(Clone, Copy, Debug, PartialEq, Eq, Structural)]
pub struct EntryCounter {
    pub dir: u32,
    pub file: u32,
}

impl EntryCounter {
    /// A count of nothing.
    pub fn new() -> (counter: EntryCounter)
        ensures
            counter == (EntryCounter { dir: 0, file: 0 }),
    {
        EntryCounter { dir: 0, file: 0 }
    }

    /// Counts one entry: a directory, or anything else.
    pub fn inc(&mut self, is_dir: bool)
        requires
            is_dir ==> old(self).dir < u32::MAX,
            !is_dir ==> old(self).file < u32::MAX,
        ensures
            final(self).dir == old(self).dir + if is_dir {
                1int
            } else {
                0int
            },
            final(self).file == old(self).file + if is_dir {
                0int
            } else {
                1int
            },
    {
        if is_dir {
            self.dir += 1;
        } else {
            self.file += 1;
        }
    }

    /// Adds the entries counted below a directory.
    pub fn sum(&mut self, counter: &EntryCounter)
        requires
            old(self).dir + counter.dir <= u32::MAX,
            old(self).file + counter.file <= u32::MAX,
        ensures
            final(self).dir == old(self).dir + counter.dir,
            final(self).file == old(self).file + counter.file,
    {
        self.dir += counter.dir;
        self.file += counter.file;
    }

    /// The line that closes the tree.
    pub open spec fn summary_text(self) -> Seq<char> {
        seq!['\n'] + decimal_digits(self.dir as nat) + " directories, "@ + decimal_digits(
            self.file as nat,
        ) + " files"@
    }

    /// The line that closes the tree: the numbers counted, after an empty line.
    pub fn summary(&self) -> (out: String)
        ensures
            out@ == self.summary_text(),
    {
        let mut line: Vec<char> = Vec::new();
        line.push('\n');
        push_decimal(&mut line, self.dir as u64);
        let mut out = string_of(&line);
        out.append(" directories, ");
        let mut digits: Vec<char> = Vec::new();
        push_decimal(&mut digits, self.file as u64);
        let files = string_of(&digits);
        out.append(files.as_str());
        out.append(" files");
        assert(out@ =~= self.summary_text());
        out
    }
}

/// The line of an entry: the prefix of its directory, a branch, which is a
/// corner for the last entry of a directory, and the name; then an arrow and
/// the target, where the entry is a link.
pub open spec fn entry_text(
    name: Seq<char>,
    target: Option<Seq<char>>,
    prefix: Seq<char>,
    is_last: bool,
) -> Seq<char> {
    prefix + (if is_last {
        "└── "@
    } else {
        "├── "@
    }) + name + match target {
        Some(target) => " -> "@ + target,
        None => Seq::<char>::empty(),
    }
}

/// The line of an entry.
pub fn display_entry(name: &str, target: Option<&str>, prefix: &str, is_last: bool) -> (out:
    String)
    ensures
        out@ == entry_text(
            name@,
            match target {
                Some(target) => Some(target@),
                None => None,
            },
            prefix@,
            is_last,
        ),
{
    let mut out = String::from_str(prefix);
    if is_last {
        out.append("└── ");
    } else {
        out.append("├── ");
    }
    out.append(name);
    match target {
        Some(target) => {
            out.append(" -> ");
            out.append(target);
            assert(out@ =~= entry_text(name@, Some(target@), prefix@, is_last));
        },
        None => {
            assert(out@ =~= entry_text(name@, None, prefix@, is_last));
        },
    }
    out
}

/// The prefix of the entries of a directory: that of the directory itself,
/// then a gap below a last entry and a trunk below any other.
pub open spec fn prefix_below(prefix: Seq<char>, is_last: bool) -> Seq<char> {
    prefix + if is_last {
        "    "@
    } else {
        "│   "@
    }
}

/// The prefix of the entries of a directory.
pub fn child_prefix(prefix: &str, is_last: bool) -> (out: String)
    ensures
        out@ == prefix_below(prefix@, is_last),
{
    let mut out = String::from_str(prefix);
    if is_last {
        out.append("    ");
    } else {
        out.append("│   ");
    }
    out
}

/// An entry of a directory, with the entries below it.
pub struct Node {
    /// The name of the entry.
    pub name: String,
    /// Where the entry points to, if it is a link.
    pub target: Option<String>,
    /// The entry is a directory, or a link to one.
    pub is_dir: bool,
    /// The entries of the directory, in the order in which they are drawn.
    pub children: Vec<Node>,
}

/// The target of a link as a mathematical value.
pub open spec fn target_view(target: Option<String>) -> Option<Seq<char>> {
    match target {
        Some(target) => Some(target@),
        None => None,
    }
}

/// The lines of the first `n` entries of a directory and of all below them:
/// each entry on a line of its own, followed by the lines of its own
/// entries where it is a directory.
pub open spec fn walk_lines(nodes: Seq<Node>, prefix: Seq<char>, n: nat) -> Seq<Seq<char>>
    decreases nodes, n,
{
    if n == 0 || n > nodes.len() {
        Seq::empty()
    } else {
        let node = nodes[n - 1];
        let is_last = n == nodes.len();
        walk_lines(nodes, prefix, (n - 1) as nat) + seq![
            entry_text(node.name@, target_view(node.target), prefix, is_last),
        ] + if node.is_dir {
            walk_lines(node.children@, prefix_below(prefix, is_last), node.children@.len())
        } else {
            Seq::<Seq<char>>::empty()
        }
    }
}

/// The number of directories among the first `n` entries of a directory and
/// all below them.
pub open spec fn walk_dirs(nodes: Seq<Node>, n: nat) -> nat
    decreases nodes, n,
{
    if n == 0 || n > nodes.len() {
        0
    } else if nodes[n - 1].is_dir {
        walk_dirs(nodes, (n - 1) as nat) + 1 + walk_dirs(
            nodes[n - 1].children@,
            nodes[n - 1].children@.len(),
        )
    } else {
        walk_dirs(nodes, (n - 1) as nat)
    }
}

/// The number of entries that are no directories among the first `n`
/// entries of a directory and all below them.
pub open spec fn walk_files(nodes: Seq<Node>, n: nat) -> nat
    decreases nodes, n,
{
    if n == 0 || n > nodes.len() {
        0
    } else if nodes[n - 1].is_dir {
        walk_files(nodes, (n - 1) as nat) + walk_files(
            nodes[n - 1].children@,
            nodes[n - 1].children@.len(),
        )
    } else {
        walk_files(nodes, (n - 1) as nat) + 1
    }
}

/// Draws the entries of a directory and all below them, and counts them.
pub fn walk_dir(nodes: &Vec<Node>, prefix: &str) -> (drawn: (Vec<String>, EntryCounter))
    requires
        walk_dirs(nodes@, nodes@.len()) <= u32::MAX,
        walk_files(nodes@, nodes@.len()) <= u32::MAX,
    ensures
        views(drawn.0@) == walk_lines(nodes@, prefix@, nodes@.len()),
        drawn.1.dir == walk_dirs(nodes@, nodes@.len()),
        drawn.1.file == walk_files(nodes@, nodes@.len()),
    decreases nodes,
{
    let mut lines: Vec<String> = Vec::new();
    let mut counter = EntryCounter::new();
    let mut i: usize = 0;
    assert(views(lines@) =~= walk_lines(nodes@, prefix@, 0));
    while i < nodes.len()
        invariant
            i <= nodes.len(),
            walk_dirs(nodes@, nodes@.len()) <= u32::MAX,
            walk_files(nodes@, nodes@.len()) <= u32::MAX,
            views(lines@) == walk_lines(nodes@, prefix@, i as nat),
            counter.dir == walk_dirs(nodes@, i as nat),
            counter.file == walk_files(nodes@, i as nat),
        decreases nodes.len() - i,
    {
        let node = &nodes[i];
        let is_last = i == nodes.len() - 1;
        proof {
            lemma_walk_grows(nodes@, (i + 1) as nat, nodes@.len());
        }
        let ghost before = views(lines@);
        let line = match &node.target {
            Some(target) => display_entry(
                node.name.as_str(),
                Some(target.as_str()),
                prefix,
                is_last,
            ),
            None => display_entry(node.name.as_str(), None, prefix, is_last),
        };
        lines.push(line);
        counter.inc(node.is_dir);
        if node.is_dir {
            let below = child_prefix(prefix, is_last);
            let (mut more, sub_counter) = walk_dir(&node.children, below.as_str());
            let ghost added = views(more@);
            let ghost so_far = views(lines@);
            lines.append(&mut more);
            assert(views(lines@) =~= so_far + added);
            counter.sum(&sub_counter);
        }
        assert(views(lines@) =~= walk_lines(nodes@, prefix@, (i + 1) as nat));
        i += 1;
    }
    (lines, counter)
}

/// More entries of a directory hold no fewer directories and no fewer other
/// entries than the first of them.
pub proof fn lemma_walk_grows(nodes: Seq<Node>, k: nat, n: nat)
    requires
        k <= n <= nodes.len(),
    ensures
        walk_dirs(nodes, k) <= walk_dirs(nodes, n),
        walk_files(nodes, k) <= walk_files(nodes, n),
    decreases n,
{
    if k < n {
        lemma_walk_grows(nodes, k, (n - 1) as nat);
    }
}

/// The drawing of a tree: the path it starts from, the entries below it,
/// and at the end the numbers counted, the start itself among them.
pub open spec fn drawing(config: &Config, root_is_dir: bool, nodes: Seq<Node>) -> Seq<Seq<char>> {
    seq![config.path@] + walk_lines(nodes, Seq::<char>::empty(), nodes.len()) + seq![
        (EntryCounter {
            dir: (walk_dirs(nodes, nodes.len()) + if root_is_dir {
                1int
            } else {
                0int
            }) as u32,
            file: (walk_files(nodes, nodes.len()) + if root_is_dir {
                0int
            } else {
                1int
            }) as u32,
        }).summary_text(),
    ]
}

/// Draws the tree below a path.
pub fn run(config: &Config, root_is_dir: bool, nodes: &Vec<Node>) -> (lines: Vec<String>)
    requires
        walk_dirs(nodes@, nodes@.len()) < u32::MAX,
        walk_files(nodes@, nodes@.len()) < u32::MAX,
    ensures
        views(lines@) == drawing(config, root_is_dir, nodes@),
{
    let mut lines: Vec<String> = Vec::new();
    lines.push(config.path.clone());
    let (mut below, mut counter) = walk_dir(nodes, "");
    proof {
        reveal_strlit("");
        assert(""@ =~= Seq::<char>::empty());
    }
    let ghost drawn = views(below@);
    lines.append(&mut below);
    counter.inc(root_is_dir);
    lines.push(counter.summary());
    assert(views(lines@) =~= drawing(config, root_is_dir, nodes@));
    lines
}

} // verus!
