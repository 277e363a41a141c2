//! Choosing among the entries of a file tree by name, kind and size.

use crate::decimal::Integer;
use crate::pattern::{
    captures, captures_of, group_views, match_each, regex_compiles, regex_matches,
};
use crate::text::{chars_of, is_word, views};
use vstd::prelude::*;
use vstd::string::StringExecFns;

verus! {

/// A kind of entry to look for.
#[derive(Clone, Copy, Debug, PartialEq, Eq, Structural)]
pub enum EntryType {
    Dir,
    File,
    Link,
}

impl EntryType {
    /// The letter that names the kind on the command line.
    pub open spec fn letter(self) -> Seq<char> {
        match self {
            EntryType::Dir => "d"@,
            EntryType::File => "f"@,
            EntryType::Link => "l"@,
        }
    }

    /// The letter that names the kind on the command line.
    pub fn to_possible_value(&self) -> (name: &'static str)
        ensures
            name@ == self.letter(),
    {
        match self {
            EntryType::Dir => "d",
            EntryType::File => "f",
            EntryType::Link => "l",
        }
    }

    /// The kinds there are, in the order in which they are offered.
    pub fn value_variants() -> (kinds: Vec<EntryType>)
        ensures
            kinds@ == seq![EntryType::Dir, EntryType::File, EntryType::Link],
    {
        let mut kinds: Vec<EntryType> = Vec::new();
        kinds.push(EntryType::Dir);
        kinds.push(EntryType::File);
        kinds.push(EntryType::Link);
        assert(kinds@ =~= seq![EntryType::Dir, EntryType::File, EntryType::Link]);
        kinds
    }
}

/// How the size of an entry is held against the size asked for.
#[derive(Clone, Copy, Debug, PartialEq, Eq, Structural)]
pub enum CmpFlag {
    /// Larger than asked for.
    Plus,
    /// Smaller than asked for.
    Minus,
    /// As large as asked for.
    Equal,
}

/// A size to look for, in blocks.
#[derive(Clone, Copy, Debug, PartialEq, Eq, Structural)]
pub struct SizeType {
    /// The number of blocks.
    pub size: u64,
    /// The number of bytes of a block.
    pub blksize: u64,
    /// How the size of an entry is held against `size`.
    pub cmp_flag: CmpFlag,
}

/// A text that states no size: the text, and a hint at what is wrong with it.
#[derive(Clone, Debug, PartialEq, Eq)]
pub struct SizeError {
    pub value: String,
    pub suggestion: Option<String>,
}

/// A `SizeError` as a mathematical value.
pub struct SizeFault {
    pub value: Seq<char>,
    pub suggestion: Option<Seq<char>>,
}

impl View for SizeError {
    type V = SizeFault;

    open spec fn view(&self) -> SizeFault {
        SizeFault {
            value: self.value@,
            suggestion: match self.suggestion {
                Some(text) => Some(text@),
                None => None,
            },
        }
    }
}

/// The regular expression that takes a size apart: what stands before the
/// first digits, the digits, and what follows them.
pub open spec fn size_pattern() -> Seq<char> {
    "(?<flag>.*?)(?<size>[0-9]+)(?<unit>.*)"@
}

/// The hint for a flag that is none.
pub open spec fn flag_hint(flag: Seq<char>) -> Seq<char> {
    "Flag '"@ + flag + "' is invalid. Possible values are any of '+', '-' or ''."@
}

/// The hint for a unit that is none.
pub open spec fn unit_hint(unit: Seq<char>) -> Seq<char> {
    "Unit '"@ + unit
        + "' is invalid. Possible values are any of 'b', 'c', 'k', 'M', 'G', 'T' or ''."@
}

/// How sizes are compared for a flag, if the text is a flag.
pub open spec fn flag_of(flag: Seq<char>) -> Option<CmpFlag> {
    if flag == "+"@ {
        Some(CmpFlag::Plus)
    } else if flag == "-"@ {
        Some(CmpFlag::Minus)
    } else if flag == ""@ {
        Some(CmpFlag::Equal)
    } else {
        None
    }
}

/// The number of bytes of the block that a unit names, if the text is a unit.
pub open spec fn unit_of(unit: Seq<char>) -> Option<u64> {
    if unit == "b"@ {
        Some(512u64)
    } else if unit == "c"@ {
        Some(1u64)
    } else if unit == "k"@ {
        Some(1024u64)
    } else if unit == "M"@ {
        Some(1048576u64)
    } else if unit == "G"@ {
        Some(1073741824u64)
    } else if unit == "T"@ {
        Some(1099511627776u64)
    } else if unit == ""@ {
        Some(512u64)
    } else {
        None
    }
}

/// The size that a match states, or what is wrong. The match holds the
/// whole of what matched and then three parts: the flag, the digits and the
/// unit. The flag is looked at first, then the number, then the unit. A
/// number that does not fit in 64 bits, and a match that does not hold these
/// parts, give no hint.
pub open spec fn size_of(value: Seq<char>, groups: Seq<Option<Seq<char>>>) -> Result<
    SizeType,
    SizeFault,
> {
    if groups.len() != 4 || groups[1] is None || groups[2] is None || groups[3] is None {
        Err(SizeFault { value, suggestion: None })
    } else if flag_of(groups[1]->Some_0) is None {
        Err(SizeFault { value, suggestion: Some(flag_hint(groups[1]->Some_0)) })
    } else if u64::of_text(groups[2]->Some_0) is None {
        Err(SizeFault { value, suggestion: None })
    } else if unit_of(groups[3]->Some_0) is None {
        Err(SizeFault { value, suggestion: Some(unit_hint(groups[3]->Some_0)) })
    } else {
        Ok(
            SizeType {
                size: u64::of_text(groups[2]->Some_0)->Some_0,
                blksize: unit_of(groups[3]->Some_0)->Some_0,
                cmp_flag: flag_of(groups[1]->Some_0)->Some_0,
            },
        )
    }
}

/// How sizes are compared for a flag.
fn parse_flag(flag: &Vec<char>) -> (r: Option<CmpFlag>)
    ensures
        r == flag_of(flag@),
{
    if is_word(flag, "+") {
        Some(CmpFlag::Plus)
    } else if is_word(flag, "-") {
        Some(CmpFlag::Minus)
    } else if is_word(flag, "") {
        Some(CmpFlag::Equal)
    } else {
        None
    }
}

/// The number of bytes of the block that a unit names.
fn parse_unit(unit: &Vec<char>) -> (r: Option<u64>)
    ensures
        r == unit_of(unit@),
{
    if is_word(unit, "b") {
        Some(512)
    } else if is_word(unit, "c") {
        Some(1)
    } else if is_word(unit, "k") {
        Some(1024)
    } else if is_word(unit, "M") {
        Some(1048576)
    } else if is_word(unit, "G") {
        Some(1073741824)
    } else if is_word(unit, "T") {
        Some(1099511627776)
    } else if is_word(unit, "") {
        Some(512)
    } else {
        None
    }
}

/// The error for a text that states no size.
fn size_error(value: &str, suggestion: Option<String>) -> (error: SizeError)
    ensures
        error@ == (SizeFault {
            value: value@,
            suggestion: match suggestion {
                Some(text) => Some(text@),
                None => None,
            },
        }),
{
    SizeError { value: value.to_owned(), suggestion }
}

/// The size that a match states: after the whole of what matched, the flag,
/// the digits and the unit.
pub fn size_of_groups(value: &str, groups: &Vec<Option<String>>) -> (r: Result<SizeType, SizeError>)
    ensures
        match size_of(value@, group_views(groups@)) {
            Ok(size) => r == Ok::<SizeType, SizeError>(size),
            Err(fault) => r is Err && r->Err_0@ == fault,
        },
{
    let ghost parts = group_views(groups@);
    if groups.len() != 4 {
        return Err(size_error(value, None));
    }
    assert(parts[3] == match groups@[3] {
        Some(text) => Some(text@),
        None => None,
    });
    assert(parts[1] == match groups@[1] {
        Some(text) => Some(text@),
        None => None,
    });
    assert(parts[2] == match groups@[2] {
        Some(text) => Some(text@),
        None => None,
    });
    match (&groups[1], &groups[2], &groups[3]) {
        (Some(flag), Some(size), Some(unit)) => {
            let flag_chars = chars_of(flag.as_str());
            let cmp_flag = match parse_flag(&flag_chars) {
                Some(cmp_flag) => cmp_flag,
                None => {
                    let mut hint = String::from_str("Flag '");
                    hint.append(flag.as_str());
                    hint.append("' is invalid. Possible values are any of '+', '-' or ''.");
                    assert(hint@ =~= flag_hint(flag@));
                    return Err(size_error(value, Some(hint)));
                },
            };
            let size_chars = chars_of(size.as_str());
            let size = match u64::from_chars(&size_chars) {
                Some(size) => size,
                None => {
                    return Err(size_error(value, None));
                },
            };
            let unit_chars = chars_of(unit.as_str());
            let blksize = match parse_unit(&unit_chars) {
                Some(blksize) => blksize,
                None => {
                    let mut hint = String::from_str("Unit '");
                    hint.append(unit.as_str());
                    hint.append(
                        "' is invalid. Possible values are any of 'b', 'c', 'k', 'M', 'G', 'T' or ''.",
                    );
                    assert(hint@ =~= unit_hint(unit@));
                    return Err(size_error(value, Some(hint)));
                },
            };
            Ok(SizeType { size, blksize, cmp_flag })
        },
        _ => Err(size_error(value, None)),
    }
}

/// Reads a size: an optional `+` or `-`, digits, and an optional unit, one
/// of `b`, `c`, `k`, `M`, `G` and `T`.
///
/// The text is taken apart by the regular expression `size_pattern`; a text
/// that it does not match states no size.
pub fn parse_size(value: &str) -> (r: Result<SizeType, SizeError>)
    ensures
        match captures_of(size_pattern(), value@) {
            Some(groups) => match size_of(value@, groups) {
                Ok(size) => r == Ok::<SizeType, SizeError>(size),
                Err(fault) => r is Err && r->Err_0@ == fault,
            },
            None => r is Err && r->Err_0@ == (SizeFault { value: value@, suggestion: None }),
        },
{
    match captures("(?<flag>.*?)(?<size>[0-9]+)(?<unit>.*)", value) {
        Some(groups) => size_of_groups(value, &groups),
        None => Err(size_error(value, None)),
    }
}

/// What an entry of a file tree is.
#[derive(Clone, Copy, Debug, PartialEq, Eq, Structural)]
pub enum EntryKind {
    Dir,
    File,
    Link,
    Other,
}

/// An entry of a file tree, as a walk found it.
#[derive(Debug)]
pub struct Entry {
    /// The path of the entry, as it is written out.
    pub path: String,
    /// The last part of the path.
    pub file_name: String,
    /// What the entry is.
    pub kind: EntryKind,
    /// The number of bytes of the entry.
    pub size: u64,
}

/// Where to look, and for what.
#[derive(Debug)]
pub struct Config {
    /// The paths to start from.
    pub paths: Vec<String>,
    /// Regular expressions, one of which the name of an entry has to match.
    pub names: Vec<String>,
    /// The kinds, one of which an entry has to be.
    pub entry_types: Vec<EntryType>,
    /// The least depth of an entry below its starting path.
    pub min_depth: Option<usize>,
    /// The greatest depth of an entry below its starting path.
    pub max_depth: Option<usize>,
    /// The size that an entry has to have.
    pub size_type: Option<SizeType>,
}

/// Why nothing was chosen.
#[derive(Debug, PartialEq, Eq)]
pub enum FindError {
    /// A name that is no regular expression.
    InvalidName(String),
}

/// The entry is of the kind.
pub open spec fn is_kind(kind: EntryKind, wanted: EntryType) -> bool {
    match wanted {
        EntryType::Dir => kind == EntryKind::Dir,
        EntryType::File => kind == EntryKind::File,
        EntryType::Link => kind == EntryKind::Link,
    }
}

/// The entry is of one of the kinds, or no kind is asked for.
pub open spec fn kind_fits(kinds: Seq<EntryType>, kind: EntryKind) -> bool {
    kinds.len() == 0 || exists|k: int| 0 <= k < kinds.len() && is_kind(kind, #[trigger] kinds[k])
}

/// The number of blocks that hold `size` bytes: a block that is begun counts.
pub open spec fn blocks(size: int, blksize: int) -> int {
    size / blksize + if size % blksize != 0 {
        1int
    } else {
        0int
    }
}

/// The number of blocks of `blksize` bytes that hold `size` bytes.
pub open spec fn blocks_of(size: u64, blksize: u64) -> int {
    blocks(size as int, blksize as int)
}

/// The entry has the size asked for, or no size is asked for.
pub open spec fn size_fits(wanted: Option<SizeType>, size: u64) -> bool {
    match wanted {
        None => true,
        Some(wanted) => match wanted.cmp_flag {
            CmpFlag::Plus => blocks_of(size, wanted.blksize) > wanted.size,
            CmpFlag::Minus => blocks_of(size, wanted.blksize) < wanted.size,
            CmpFlag::Equal => blocks_of(size, wanted.blksize) == wanted.size,
        },
    }
}

/// The number of blocks of `blksize` bytes that hold `size` bytes.
pub fn block_count(size: u64, blksize: u64) -> (count: u64)
    requires
        blksize > 0,
    ensures
        count == blocks_of(size, blksize),
{
    let whole: u64 = size / blksize;
    if size % blksize != 0 {
        assert(whole < u64::MAX) by (nonlinear_arith)
            requires
                whole == size / blksize,
                size % blksize != 0,
                blksize > 0,
                size <= u64::MAX,
        {
            if blksize == 1 {
                assert(size % blksize == 0);
            } else {
                assert(whole * blksize <= size);
                assert(whole * 2 <= whole * blksize);
            }
        }
        whole + 1
    } else {
        whole
    }
}

/// One of the names matches the file name, or no name is asked for.
pub open spec fn name_fits(names: Seq<String>, file_name: Seq<char>) -> bool {
    names.len() == 0 || exists|k: int|
        0 <= k < names.len() && regex_matches((#[trigger] names[k])@, false, file_name)
}

/// The entry is chosen: its name, its kind and its size fit.
pub open spec fn chosen(config: &Config, entry: &Entry) -> bool {
    &&& name_fits(config.names@, entry.file_name@)
    &&& kind_fits(config.entry_types@, entry.kind)
    &&& size_fits(config.size_type, entry.size)
}

/// True when the entry is of one of the kinds, or no kind is asked for.
pub fn entry_type_filter(kinds: &Vec<EntryType>, kind: EntryKind) -> (b: bool)
    ensures
        b == kind_fits(kinds@, kind),
{
    if kinds.len() == 0 {
        return true;
    }
    let mut k: usize = 0;
    while k < kinds.len()
        invariant
            k <= kinds.len(),
            forall|j: int| 0 <= j < k ==> !is_kind(kind, #[trigger] kinds@[j]),
        decreases kinds.len() - k,
    {
        let fits = match kinds[k] {
            EntryType::Dir => matches!(kind, EntryKind::Dir),
            EntryType::File => matches!(kind, EntryKind::File),
            EntryType::Link => matches!(kind, EntryKind::Link),
        };
        if fits {
            return true;
        }
        k += 1;
    }
    false
}

/// True when the entry has the size asked for, or no size is asked for.
pub fn file_size_filter(wanted: &Option<SizeType>, size: u64) -> (b: bool)
    requires
        wanted is Some ==> wanted->Some_0.blksize > 0,
    ensures
        b == size_fits(*wanted, size),
{
    match wanted {
        None => true,
        Some(wanted) => {
            let count: u64 = block_count(size, wanted.blksize);
            match wanted.cmp_flag {
                CmpFlag::Plus => count > wanted.size,
                CmpFlag::Minus => count < wanted.size,
                CmpFlag::Equal => count == wanted.size,
            }
        },
    }
}

/// Each mark says whether the name matches the file name of its entry.
pub open spec fn marked(marks: Seq<bool>, name: Seq<char>, entries: Seq<Entry>) -> bool {
    &&& marks.len() == entries.len()
    &&& forall|j: int|
        0 <= j < entries.len() ==> #[trigger] marks[j] == regex_matches(
            name,
            false,
            entries[j].file_name@,
        )
}

/// The names are regular expressions, all of them.
pub open spec fn names_compile(names: Seq<String>) -> bool {
    forall|k: int| 0 <= k < names.len() ==> regex_compiles((#[trigger] names[k])@, false)
}

/// The paths of the chosen among the first `n` entries, in their order.
pub open spec fn chosen_paths(config: &Config, entries: Seq<Entry>, n: int) -> Seq<Seq<char>>
    decreases n,
{
    if n <= 0 {
        Seq::empty()
    } else if chosen(config, &entries[n - 1]) {
        chosen_paths(config, entries, n - 1).push(entries[n - 1].path@)
    } else {
        chosen_paths(config, entries, n - 1)
    }
}

/// The size asked for, if any, has blocks of at least one byte.
pub open spec fn well_formed(config: &Config) -> bool {
    config.size_type is Some ==> config.size_type->Some_0.blksize > 0
}

/// Chooses among the entries that a walk found, and hands out the paths of
/// the chosen in the order of the walk.
///
/// Where a name is no regular expression, the first such name is the error.
pub fn run(config: &Config, entries: &Vec<Entry>) -> (r: Result<Vec<String>, FindError>)
    requires
        well_formed(config),
    ensures
        r is Ok <==> names_compile(config.names@),
        r is Ok ==> views(r->Ok_0@) == chosen_paths(
            config,
            entries@,
            entries@.len() as int,
        ),
        r is Err ==> exists|k: int|
            0 <= k < config.names@.len() && r->Err_0 == FindError::InvalidName(
                #[trigger] config.names@[k],
            ) && !regex_compiles(config.names@[k]@, false) && names_compile(
                config.names@.take(k),
            ),
{
    let mut file_names: Vec<String> = Vec::new();
    let mut i: usize = 0;
    while i < entries.len()
        invariant
            i <= entries.len(),
            file_names.len() == i,
            forall|j: int| 0 <= j < i ==> (#[trigger] file_names@[j])@ == entries@[j].file_name@,
        decreases entries.len() - i,
    {
        file_names.push(entries[i].file_name.clone());
        i += 1;
    }
    let mut matched: Vec<Vec<bool>> = Vec::new();
    let mut k: usize = 0;
    while k < config.names.len()
        invariant
            k <= config.names.len(),
            matched.len() == k,
            file_names.len() == entries.len(),
            forall|j: int|
                0 <= j < entries.len() ==> (#[trigger] file_names@[j])@ == entries@[j].file_name@,
            names_compile(config.names@.take(k as int)),
            forall|p: int|
                0 <= p < k ==> marked(#[trigger] matched@[p]@, config.names@[p]@, entries@),
        decreases config.names.len() - k,
    {
        match match_each(config.names[k].as_str(), false, &file_names) {
            None => {
                return Err(FindError::InvalidName(config.names[k].clone()));
            },
            Some(marks) => {
                assert forall|j: int| 0 <= j < entries.len() implies #[trigger] marks@[j]
                    == regex_matches(config.names@[k as int]@, false, entries@[j].file_name@) by {
                    assert(file_names@[j]@ == entries@[j].file_name@);
                }
                assert(marked(marks@, config.names@[k as int]@, entries@));
                matched.push(marks);
                assert(config.names@.take(k + 1) =~= config.names@.take(k as int).push(
                    config.names@[k as int],
                ));
            },
        }
        k += 1;
    }
    assert(config.names@.take(k as int) =~= config.names@);
    let mut out: Vec<String> = Vec::new();
    let mut i: usize = 0;
    while i < entries.len()
        invariant
            i <= entries.len(),
            well_formed(config),
            matched.len() == config.names.len(),
            forall|p: int|
                0 <= p < config.names.len() ==> marked(
                    #[trigger] matched@[p]@,
                    config.names@[p]@,
                    entries@,
                ),
            views(out@) == chosen_paths(config, entries@, i as int),
        decreases entries.len() - i,
    {
        let mut named = config.names.len() == 0;
        let mut p: usize = 0;
        while p < config.names.len() && !named
            invariant
                p <= config.names.len(),
                i < entries.len(),
                matched.len() == config.names.len(),
                forall|p: int|
                    0 <= p < config.names.len() ==> marked(
                        #[trigger] matched@[p]@,
                        config.names@[p]@,
                        entries@,
                    ),
                named ==> name_fits(config.names@, entries@[i as int].file_name@),
                !named ==> config.names.len() > 0 && forall|q: int|
                    0 <= q < p ==> !regex_matches(
                        (#[trigger] config.names@[q])@,
                        false,
                        entries@[i as int].file_name@,
                    ),
            decreases
                    (config.names.len() - p) + (if named {
                        0int
                    } else {
                        1int
                    }),
        {
            assert(marked(matched@[p as int]@, config.names@[p as int]@, entries@));
            if matched[p][i] {
                named = true;
            } else {
                p += 1;
            }
        }
        let ghost before = views(out@);
        if named && entry_type_filter(&config.entry_types, entries[i].kind) && file_size_filter(
            &config.size_type,
            entries[i].size,
        ) {
            out.push(entries[i].path.clone());
            assert(views(out@) =~= before.push(entries@[i as int].path@));
        }
        i += 1;
    }
    Ok(out)
}

} // verus!
