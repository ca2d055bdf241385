//! Directories and lookups as a configuration names them, held in the hash
//! collections of `ahash`, and the files that lookup lists are read from.

use crate::text::{chars_of, find_char, position, same_text, string_of, trim, trim_bounds};
use ahash::{AHashMap, AHashSet};
use vstd::prelude::*;

verus! {

/// The hasher state of `ahash`, which its collections carry.
#[verifier::external_type_specification]
#[verifier::external_body]
pub struct ExRandomState(ahash::RandomState);

/// The hash set of `ahash`.
#[verifier::external_type_specification]
#[verifier::external_body]
#[verifier::reject_recursive_types(T)]
#[verifier::reject_recursive_types(S)]
pub struct ExAHashSet<T, S>(AHashSet<T, S>);

/// The hash map of `ahash`.
#[verifier::external_type_specification]
#[verifier::external_body]
#[verifier::reject_recursive_types(K)]
#[verifier::reject_recursive_types(V)]
#[verifier::reject_recursive_types(S)]
pub struct ExAHashMap<K, V, S>(AHashMap<K, V, S>);

/// The protocol that a directory speaks.
#[derive(Debug, Clone, Copy, Hash, PartialEq, Eq, Structural)]
pub enum DirectoryKind {
    Ldap,
    Sql,
    Imap,
    Smtp,
    Lmtp,
    Memory,
}

/// A lookup: a query that a directory answers, or a list held in memory.
#[derive(Debug, PartialEq, Eq)]
pub enum Lookup {
    Directory { directory: String, query: String },
    List { list: AHashSet<String> },
}

/// What a `Lookup` holds: the directory's identifier and the query, or the
/// members of the list.
pub enum LookupView {
    Directory { directory: Seq<char>, query: Seq<char> },
    List { list: Set<Seq<char>> },
}

/// A table of lookups, by name.
pub type LookupTable = AHashMap<String, Lookup>;

/// A table of directories, by identifier.
pub type DirectoryTable = AHashMap<String, DirectoryKind>;

/// The members of a list of strings.
pub uninterp spec fn list_items(s: AHashSet<String>) -> Set<Seq<char>>;

/// The lookups of a table, by name.
pub uninterp spec fn lookup_entries(m: AHashMap<String, Lookup>) -> Map<Seq<char>, LookupView>;

/// The directories of a table, by identifier.
pub uninterp spec fn directory_entries(m: AHashMap<String, DirectoryKind>) -> Map<
    Seq<char>,
    DirectoryKind,
>;

impl View for Lookup {
    type V = LookupView;

    open spec fn view(&self) -> LookupView {
        match self {
            Lookup::Directory { directory, query } => LookupView::Directory {
                directory: directory@,
                query: query@,
            },
            Lookup::List { list } => LookupView::List { list: list_items(*list) },
        }
    }
}

/// `AHashSet::new`: a set without members.
#[verifier::external_body]
pub(crate) fn list_new() -> (s: AHashSet<String>)
    ensures
        list_items(s) == Set::<Seq<char>>::empty(),
{
    AHashSet::new()
}

/// `insert` of the standard hash set that an `AHashSet` dereferences to: the
/// set gains the item, and keeps the members it had.
#[verifier::external_body]
pub(crate) fn list_insert(s: &mut AHashSet<String>, item: String)
    ensures
        list_items(*final(s)) == list_items(*old(s)).insert(item@),
{
    s.insert(item);
}

/// `AHashMap::new`: a table of lookups without entries.
#[verifier::external_body]
pub(crate) fn lookups_new() -> (m: LookupTable)
    ensures
        (lookup_entries(m) == Map::<Seq<char>, LookupView>::empty()),
{
    AHashMap::new()
}

/// `AHashMap::insert`: the table holds the lookup under the name, in place
/// of what the name held before, and every other entry as it was.
#[verifier::external_body]
pub(crate) fn lookups_insert(m: &mut LookupTable, name: String, lookup: Lookup)
    ensures
        lookup_entries(*final(m)) == lookup_entries(*old(m)).insert(name@, lookup@),
{
    m.insert(name, lookup);
}

/// `AHashMap::new`: a table of directories without entries.
#[verifier::external_body]
pub(crate) fn directories_new() -> (m: DirectoryTable)
    ensures
        (directory_entries(m) == Map::<Seq<char>, DirectoryKind>::empty()),
{
    AHashMap::new()
}

/// `AHashMap::insert`: the table holds the kind under the identifier, in
/// place of what the identifier held before, and every other entry as it was.
#[verifier::external_body]
pub(crate) fn directories_insert(m: &mut DirectoryTable, id: String, kind: DirectoryKind)
    ensures
        directory_entries(*final(m)) == directory_entries(*old(m)).insert(id@, kind),
{
    m.insert(id, kind);
}

/// The directories and lookups that a configuration names.
#[derive(Debug)]
pub struct DirectoryConfig {
    pub directories: DirectoryTable,
    pub lookups: LookupTable,
}

/// What a `DirectoryConfig` holds.
pub struct DirectoryPlan {
    pub directories: Map<Seq<char>, DirectoryKind>,
    pub lookups: Map<Seq<char>, LookupView>,
}

impl View for DirectoryConfig {
    type V = DirectoryPlan;

    open spec fn view(&self) -> DirectoryPlan {
        DirectoryPlan {
            directories: directory_entries(self.directories),
            lookups: lookup_entries(self.lookups),
        }
    }
}

/// What reading one file gave: its text, or the reason why it could not be
/// read.
#[derive(Debug, PartialEq, Eq)]
pub struct FileRead {
    pub path: String,
    pub outcome: Result<String, String>,
}

/// The text or the reason of an outcome, as sequences of characters.
pub open spec fn outcome_view(r: Result<String, String>) -> Result<Seq<char>, Seq<char>> {
    match r {
        Ok(text) => Ok(text@),
        Err(reason) => Err(reason@),
    }
}

impl View for FileRead {
    type V = (Seq<char>, Result<Seq<char>, Seq<char>>);

    open spec fn view(&self) -> (Seq<char>, Result<Seq<char>, Seq<char>>) {
        (self.path@, outcome_view(self.outcome))
    }
}

/// The files that were read on behalf of a configuration, by path.
#[derive(Debug, PartialEq, Eq)]
pub struct FileSet {
    reads: Vec<FileRead>,
}

impl View for FileSet {
    type V = Seq<(Seq<char>, Result<Seq<char>, Seq<char>>)>;

    closed spec fn view(&self) -> Seq<(Seq<char>, Result<Seq<char>, Seq<char>>)> {
        Seq::new(self.reads@.len(), |i: int| self.reads@[i]@)
    }
}

/// The outcome recorded for `path`: that of the last read of it, or that the
/// file was not read.
pub open spec fn read_of(
    reads: Seq<(Seq<char>, Result<Seq<char>, Seq<char>>)>,
    path: Seq<char>,
) -> Result<Seq<char>, Seq<char>>
    decreases reads.len(),
{
    if reads.len() == 0 {
        Err("file was not read"@)
    } else if reads.last().0 == path {
        reads.last().1
    } else {
        read_of(reads.drop_last(), path)
    }
}

impl FileSet {
    /// No file read yet.
    pub fn new() -> (f: FileSet)
        ensures
            f@ == Seq::<(Seq<char>, Result<Seq<char>, Seq<char>>)>::empty(),
    {
        let f = FileSet { reads: Vec::new() };
        assert(f@ =~= Seq::empty());
        f
    }

    /// Records what reading `path` gave.
    pub fn add(&mut self, path: String, outcome: Result<String, String>)
        ensures
            final(self)@ == old(self)@.push((path@, outcome_view(outcome))),
    {
        self.reads.push(FileRead { path, outcome });
        assert(self@ =~= old(self)@.push((path@, outcome_view(outcome))));
    }

    /// The outcome recorded for `path`.
    pub fn outcome(&self, path: &str) -> (r: Result<&str, String>)
        ensures
            match r {
                Ok(text) => read_of(self@, path@) == Ok::<Seq<char>, Seq<char>>(text@),
                Err(reason) => read_of(self@, path@) == Err::<Seq<char>, Seq<char>>(reason@),
            },
    {
        let ghost e = self@;
        let mut found: Option<usize> = None;
        let mut i: usize = 0;
        while i < self.reads.len()
            invariant
                i <= self.reads.len(),
                e == self@,
                match found {
                    Some(j) => j < i && read_of(e.take(i as int), path@) == self.reads@[j as int]@.1,
                    None => read_of(e.take(i as int), path@) == Err::<Seq<char>, Seq<char>>(
                        "file was not read"@,
                    ),
                },
            decreases self.reads.len() - i,
        {
            assert(e.take(i + 1).drop_last() =~= e.take(i as int));
            assert(e.take(i + 1).last() == self.reads@[i as int]@);
            if same_text(self.reads[i].path.as_str(), path) {
                found = Some(i);
            }
            i += 1;
        }
        assert(e.take(i as int) =~= e);
        match found {
            Some(j) => match &self.reads[j].outcome {
                Ok(text) => Ok(text.as_str()),
                Err(reason) => Err(reason.clone()),
            },
            None => Err("file was not read".to_owned()),
        }
    }
}

/// The items that the text of a file lists: its lines, each without the
/// white space at its ends, but for those that are then empty.
pub open spec fn file_items(s: Seq<char>) -> Set<Seq<char>>
    decreases s.len(),
{
    if s.len() == 0 {
        Set::empty()
    } else {
        let n = position(s, '\n');
        let line = trim(s.take(n));
        let rest = if 0 <= n < s.len() {
            file_items(s.skip(n + 1))
        } else {
            Set::empty()
        };
        if line.len() > 0 {
            rest.insert(line)
        } else {
            rest
        }
    }
}

/// Adds to `list` the items that `content` lists.
pub fn add_file_items(list: &mut AHashSet<String>, content: &str)
    ensures
        list_items(*final(list)) == list_items(*old(list)).union(file_items(content@)),
{
    let v = chars_of(content);
    let mut pos: usize = 0;
    assert(v@.skip(0) =~= v@);
    assert(list_items(*list).union(file_items(v@)) =~= list_items(*old(list)).union(
        file_items(content@),
    ));
    while pos < v.len()
        invariant
            pos <= v.len(),
            v@ == content@,
            list_items(*list).union(file_items(v@.skip(pos as int))) == list_items(
                *old(list),
            ).union(file_items(content@)),
        decreases v.len() - pos,
    {
        let ghost s = v@.skip(pos as int);
        let ghost before = list_items(*list);
        let n = find_char(&v, pos, '\n');
        let (a, b) = trim_bounds(&v, pos, pos + n);
        assert(s.take(n as int) =~= v@.subrange(pos as int, pos + n));
        let ghost line = trim(s.take(n as int));
        let ghost rest = if n < s.len() {
            file_items(s.skip(n + 1))
        } else {
            Set::empty()
        };
        if a < b {
            list_insert(list, string_of(&v, a, b));
        }
        assert(list_items(*list).union(rest) =~= before.union(file_items(s)));
        if pos + n < v.len() {
            assert(s.skip(n + 1) =~= v@.skip(pos + n + 1));
            pos = pos + n + 1;
        } else {
            pos = v.len();
            assert(file_items(v@.skip(pos as int)) =~= Set::empty());
        }
        assert(file_items(v@.skip(pos as int)) == rest);
    }
    assert(file_items(v@.skip(pos as int)) =~= Set::empty());
    assert(list_items(*list) =~= list_items(*list).union(file_items(v@.skip(pos as int))));
}

} // verus!
