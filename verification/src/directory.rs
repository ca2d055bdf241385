//! Reading the directories and lookups of a configuration.
//!
//! Every identifier below `directory` names one directory. Its `type` says
//! which protocol it speaks. A directory that speaks SQL or LDAP has one
//! lookup for each of its queries or filters; every directory has one for
//! each entry below its `lookup` key, which for a directory held in memory is
//! a list and for every other one a query.

use crate::config::{dotted, join_key, lookup, property_or, sub_keys, texts, values_of, Config};
use crate::error::{ConfigError, ConfigFault};
use crate::lookup::{
    add_file_items, directories_insert, directories_new, file_items, list_insert, list_items,
    list_new, lookup_entries, lookups_insert, lookups_new, read_of, DirectoryConfig,
    DirectoryKind, DirectoryPlan, FileSet, Lookup, LookupTable, LookupView,
};
use crate::text::{chars_of, same_text, starts_with, string_of};
use ahash::AHashSet;
use vstd::prelude::*;
use vstd::string::StringExecFns;

verus! {

/// What a directory does with addresses that name no account.
#[derive(Debug, Clone, Copy, PartialEq, Eq, Structural)]
pub struct DirectoryOptions {
    pub catch_all: bool,
    pub subaddressing: bool,
}

/// The options that the settings below `key` give: catch-all addresses are
/// off and subaddressing is on unless the settings say otherwise.
pub open spec fn options_of(e: Seq<(Seq<char>, Seq<char>)>, key: Seq<char>) -> Result<
    DirectoryOptions,
    ConfigFault,
> {
    match property_or::<bool>(e, dotted(key, "options.catch-all"@), "false"@) {
        Err(f) => Err(f),
        Ok(catch_all) => match property_or::<bool>(
            e,
            dotted(key, "options.subaddressing"@),
            "true"@,
        ) {
            Err(f) => Err(f),
            Ok(subaddressing) => Ok(DirectoryOptions { catch_all, subaddressing }),
        },
    }
}

impl DirectoryOptions {
    /// Reads the options below `key`.
    pub fn from_config(config: &Config, key: &str) -> (r: Result<DirectoryOptions, ConfigError>)
        ensures
            r matches Ok(o) ==> options_of(config@, key@) == Ok::<DirectoryOptions, ConfigFault>(o),
            r matches Err(e) ==> options_of(config@, key@) == Err::<DirectoryOptions, ConfigFault>(
                e@,
            ),
    {
        let catch_key = join_key(key, "options.catch-all");
        let catch_all = match config.property_or_static::<bool>(catch_key.as_str(), "false") {
            Ok(b) => b,
            Err(e) => {
                return Err(e);
            },
        };
        let sub_key = join_key(key, "options.subaddressing");
        let subaddressing = match config.property_or_static::<bool>(sub_key.as_str(), "true") {
            Ok(b) => b,
            Err(e) => {
                return Err(e);
            },
        };
        Ok(DirectoryOptions { catch_all, subaddressing })
    }
}

/// Where neither option is set, catch-all addresses are off and
/// subaddressing is on.
pub proof fn lemma_default_options(e: Seq<(Seq<char>, Seq<char>)>, key: Seq<char>)
    requires
        lookup(e, dotted(key, "options.catch-all"@)) is None,
        lookup(e, dotted(key, "options.subaddressing"@)) is None,
    ensures
        options_of(e, key) == Ok::<DirectoryOptions, ConfigFault>(
            DirectoryOptions { catch_all: false, subaddressing: true },
        ),
{
    reveal_strlit("false");
    reveal_strlit("true");
    assert("false"@ =~= seq!['f', 'a', 'l', 's', 'e']);
    assert("true"@ =~= seq!['t', 'r', 'u', 'e']);
    assert(seq!['f', 'a', 'l', 's', 'e'].len() != seq!['t', 'r', 'u', 'e'].len());
}

/// The kind of directory that a `type` names.
pub open spec fn kind_of(protocol: Seq<char>) -> Option<DirectoryKind> {
    if protocol == "ldap"@ {
        Some(DirectoryKind::Ldap)
    } else if protocol == "sql"@ {
        Some(DirectoryKind::Sql)
    } else if protocol == "imap"@ {
        Some(DirectoryKind::Imap)
    } else if protocol == "smtp"@ {
        Some(DirectoryKind::Smtp)
    } else if protocol == "lmtp"@ {
        Some(DirectoryKind::Lmtp)
    } else if protocol == "memory"@ {
        Some(DirectoryKind::Memory)
    } else {
        None
    }
}

/// The kind of directory that `protocol` names.
pub fn directory_kind(protocol: &str) -> (r: Option<DirectoryKind>)
    ensures
        r == kind_of(protocol@),
{
    if same_text(protocol, "ldap") {
        Some(DirectoryKind::Ldap)
    } else if same_text(protocol, "sql") {
        Some(DirectoryKind::Sql)
    } else if same_text(protocol, "imap") {
        Some(DirectoryKind::Imap)
    } else if same_text(protocol, "smtp") {
        Some(DirectoryKind::Smtp)
    } else if same_text(protocol, "lmtp") {
        Some(DirectoryKind::Lmtp)
    } else if same_text(protocol, "memory") {
        Some(DirectoryKind::Memory)
    } else {
        None
    }
}

/// The name under which the lookup `lookup_id` of directory `id` is held.
pub open spec fn lookup_name(id: Seq<char>, lookup_id: Seq<char>) -> Seq<char> {
    id.push('/') + lookup_id
}

/// The name under which the lookup `lookup_id` of directory `id` is held.
pub fn join_name(id: &str, lookup_id: &str) -> (name: String)
    ensures
        name@ == lookup_name(id@, lookup_id@),
{
    let mut v = chars_of(id);
    v.push('/');
    let mut w = chars_of(lookup_id);
    let ghost head = v@;
    v.append(&mut w);
    assert(v@.subrange(0, v.len() as int) =~= head + lookup_id@);
    string_of(&v, 0, v.len())
}

/// The list that `values` make up: each value is an item, but for one that
/// begins with `file://`, which stands for the items of the file at the path
/// that follows. The first file that could not be read fails the list.
pub open spec fn lookup_list(
    values: Seq<Seq<char>>,
    files: Seq<(Seq<char>, Result<Seq<char>, Seq<char>>)>,
    key: Seq<char>,
) -> Result<Set<Seq<char>>, ConfigFault>
    decreases values.len(),
{
    if values.len() == 0 {
        Ok(Set::empty())
    } else {
        match lookup_list(values.drop_last(), files, key) {
            Err(f) => Err(f),
            Ok(items) => {
                let value = values.last();
                if "file://"@.is_prefix_of(value) {
                    let path = value.skip("file://"@.len() as int);
                    match read_of(files, path) {
                        Ok(content) => Ok(items.union(file_items(content))),
                        Err(reason) => Err(ConfigFault::UnreadableFile { path, list: key, reason }),
                    }
                } else {
                    Ok(items.insert(value))
                }
            },
        }
    }
}

/// The paths of the files that `values` refer to, in their order.
pub open spec fn file_paths(values: Seq<Seq<char>>) -> Seq<Seq<char>>
    decreases values.len(),
{
    if values.len() == 0 {
        Seq::empty()
    } else if "file://"@.is_prefix_of(values.last()) {
        file_paths(values.drop_last()).push(values.last().skip("file://"@.len() as int))
    } else {
        file_paths(values.drop_last())
    }
}

/// The paths of the files that the values of `key`, and of the keys below
/// it, refer to. These are the files to read before the lists are.
pub fn list_files(config: &Config, key: &str) -> (r: Vec<String>)
    ensures
        texts(r@) == file_paths(values_of(config@, key@)),
{
    let values = config.values(key);
    let ghost all = texts(values@);
    let scheme = chars_of("file://");
    let mut out: Vec<String> = Vec::new();
    let mut i: usize = 0;
    while i < values.len()
        invariant
            i <= values.len(),
            all == texts(values@),
            scheme@ == "file://"@,
            texts(out@) == file_paths(all.take(i as int)),
        decreases values.len() - i,
    {
        assert(all.take(i + 1).drop_last() =~= all.take(i as int));
        assert(all.take(i + 1).last() == values@[i as int]@);
        let value = chars_of(values[i].as_str());
        if starts_with(&value, &scheme) {
            assert(value@.skip(scheme.len() as int) =~= value@.subrange(
                scheme.len() as int,
                value.len() as int,
            ));
            let ghost before = texts(out@);
            let path = string_of(&value, scheme.len(), value.len());
            out.push(path);
            assert(texts(out@) =~= before.push(path@));
        }
        i += 1;
    }
    assert(all.take(i as int) =~= all);
    out
}

/// A list depends on the files that its values refer to and on no other:
/// two sets of files that agree on those give the same list.
pub proof fn lemma_lookup_list_reads(
    values: Seq<Seq<char>>,
    a: Seq<(Seq<char>, Result<Seq<char>, Seq<char>>)>,
    b: Seq<(Seq<char>, Result<Seq<char>, Seq<char>>)>,
    key: Seq<char>,
)
    requires
        forall|i: int|
            0 <= i < file_paths(values).len() ==> read_of(a, #[trigger] file_paths(values)[i])
                == read_of(b, file_paths(values)[i]),
    ensures
        lookup_list(values, a, key) == lookup_list(values, b, key),
    decreases values.len(),
{
    if values.len() > 0 {
        let front = values.drop_last();
        let paths = file_paths(values);
        assert forall|i: int| 0 <= i < file_paths(front).len() implies read_of(
            a,
            #[trigger] file_paths(front)[i],
        ) == read_of(b, file_paths(front)[i]) by {
            assert(file_paths(front)[i] == paths[i]);
        }
        lemma_lookup_list_reads(front, a, b, key);
        if "file://"@.is_prefix_of(values.last()) {
            assert(paths[paths.len() - 1] == values.last().skip("file://"@.len() as int));
        }
    }
}

/// A list that has failed on some of its values fails in the same way on all
/// of them.
pub proof fn lemma_lookup_list_fails(
    values: Seq<Seq<char>>,
    files: Seq<(Seq<char>, Result<Seq<char>, Seq<char>>)>,
    key: Seq<char>,
    k: int,
)
    requires
        0 <= k <= values.len(),
        lookup_list(values.take(k), files, key) is Err,
    ensures
        lookup_list(values, files, key) == lookup_list(values.take(k), files, key),
    decreases values.len(),
{
    if k < values.len() {
        assert(values.drop_last().take(k) =~= values.take(k));
        lemma_lookup_list_fails(values.drop_last(), files, key, k);
    } else {
        assert(values.take(k) =~= values);
    }
}

/// The lookups `acc` and, for each identifier of `ids`, the query that the
/// settings hold for it below `base`, as a lookup of `directory`. The first
/// identifier without a query fails them all.
pub open spec fn with_queries(
    e: Seq<(Seq<char>, Seq<char>)>,
    directory: Seq<char>,
    base: Seq<char>,
    ids: Seq<Seq<char>>,
    acc: Map<Seq<char>, LookupView>,
) -> Result<Map<Seq<char>, LookupView>, ConfigFault>
    decreases ids.len(),
{
    if ids.len() == 0 {
        Ok(acc)
    } else {
        match with_queries(e, directory, base, ids.drop_last(), acc) {
            Err(f) => Err(f),
            Ok(m) => {
                let key = dotted(base, ids.last());
                match lookup(e, key) {
                    Some(query) => Ok(
                        m.insert(
                            lookup_name(directory, ids.last()),
                            LookupView::Directory { directory, query },
                        ),
                    ),
                    None => Err(ConfigFault::Missing { key }),
                }
            },
        }
    }
}

/// Queries that have failed on some of the identifiers fail in the same way
/// on all of them.
pub proof fn lemma_queries_fail(
    e: Seq<(Seq<char>, Seq<char>)>,
    directory: Seq<char>,
    base: Seq<char>,
    ids: Seq<Seq<char>>,
    acc: Map<Seq<char>, LookupView>,
    k: int,
)
    requires
        0 <= k <= ids.len(),
        with_queries(e, directory, base, ids.take(k), acc) is Err,
    ensures
        with_queries(e, directory, base, ids, acc) == with_queries(
            e,
            directory,
            base,
            ids.take(k),
            acc,
        ),
    decreases ids.len(),
{
    if k < ids.len() {
        assert(ids.drop_last().take(k) =~= ids.take(k));
        lemma_queries_fail(e, directory, base, ids.drop_last(), acc, k);
    } else {
        assert(ids.take(k) =~= ids);
    }
}

/// The lookups `acc` and, for each identifier of `ids`, the list that the
/// settings and files give for it below `base`. The first list that fails
/// fails them all.
pub open spec fn with_lists(
    e: Seq<(Seq<char>, Seq<char>)>,
    files: Seq<(Seq<char>, Result<Seq<char>, Seq<char>>)>,
    directory: Seq<char>,
    base: Seq<char>,
    ids: Seq<Seq<char>>,
    acc: Map<Seq<char>, LookupView>,
) -> Result<Map<Seq<char>, LookupView>, ConfigFault>
    decreases ids.len(),
{
    if ids.len() == 0 {
        Ok(acc)
    } else {
        match with_lists(e, files, directory, base, ids.drop_last(), acc) {
            Err(f) => Err(f),
            Ok(m) => {
                let key = dotted(base, ids.last());
                match lookup_list(values_of(e, key), files, key) {
                    Ok(list) => Ok(
                        m.insert(lookup_name(directory, ids.last()), LookupView::List { list }),
                    ),
                    Err(f) => Err(f),
                }
            },
        }
    }
}

/// Lists that have failed on some of the identifiers fail in the same way on
/// all of them.
pub proof fn lemma_lists_fail(
    e: Seq<(Seq<char>, Seq<char>)>,
    files: Seq<(Seq<char>, Result<Seq<char>, Seq<char>>)>,
    directory: Seq<char>,
    base: Seq<char>,
    ids: Seq<Seq<char>>,
    acc: Map<Seq<char>, LookupView>,
    k: int,
)
    requires
        0 <= k <= ids.len(),
        with_lists(e, files, directory, base, ids.take(k), acc) is Err,
    ensures
        with_lists(e, files, directory, base, ids, acc) == with_lists(
            e,
            files,
            directory,
            base,
            ids.take(k),
            acc,
        ),
    decreases ids.len(),
{
    if k < ids.len() {
        assert(ids.drop_last().take(k) =~= ids.take(k));
        lemma_lists_fail(e, files, directory, base, ids.drop_last(), acc, k);
    } else {
        assert(ids.take(k) =~= ids);
    }
}

/// The plan `acc` and the directory `id` with its lookups.
pub open spec fn with_directory(
    e: Seq<(Seq<char>, Seq<char>)>,
    files: Seq<(Seq<char>, Result<Seq<char>, Seq<char>>)>,
    id: Seq<char>,
    acc: DirectoryPlan,
) -> Result<DirectoryPlan, ConfigFault> {
    let base = dotted("directory"@, id);
    let type_key = dotted(base, "type"@);
    match lookup(e, type_key) {
        None => Err(ConfigFault::Missing { key: type_key }),
        Some(protocol) => match kind_of(protocol) {
            None => Err(ConfigFault::UnknownDirectoryType { value: protocol }),
            Some(kind) => {
                let queried = match kind {
                    DirectoryKind::Sql => with_queries(
                        e,
                        id,
                        dotted(base, "query"@),
                        sub_keys(e, dotted(base, "query"@)),
                        acc.lookups,
                    ),
                    DirectoryKind::Ldap => with_queries(
                        e,
                        id,
                        dotted(base, "filter"@),
                        sub_keys(e, dotted(base, "filter"@)),
                        acc.lookups,
                    ),
                    _ => Ok(acc.lookups),
                };
                match queried {
                    Err(f) => Err(f),
                    Ok(m) => {
                        let below = dotted(base, "lookup"@);
                        let looked = match kind {
                            DirectoryKind::Memory => with_lists(
                                e,
                                files,
                                id,
                                below,
                                sub_keys(e, below),
                                m,
                            ),
                            _ => with_queries(e, id, below, sub_keys(e, below), m),
                        };
                        match looked {
                            Err(f) => Err(f),
                            Ok(lookups) => Ok(
                                DirectoryPlan {
                                    directories: acc.directories.insert(id, kind),
                                    lookups,
                                },
                            ),
                        }
                    },
                }
            },
        },
    }
}

/// The plan `acc` and the directories `ids`, each with its lookups. The
/// first directory that fails fails them all.
pub open spec fn with_directories(
    e: Seq<(Seq<char>, Seq<char>)>,
    files: Seq<(Seq<char>, Result<Seq<char>, Seq<char>>)>,
    ids: Seq<Seq<char>>,
    acc: DirectoryPlan,
) -> Result<DirectoryPlan, ConfigFault>
    decreases ids.len(),
{
    if ids.len() == 0 {
        Ok(acc)
    } else {
        match with_directories(e, files, ids.drop_last(), acc) {
            Err(f) => Err(f),
            Ok(plan) => with_directory(e, files, ids.last(), plan),
        }
    }
}

/// Directories that have failed on some of the identifiers fail in the same
/// way on all of them.
pub proof fn lemma_directories_fail(
    e: Seq<(Seq<char>, Seq<char>)>,
    files: Seq<(Seq<char>, Result<Seq<char>, Seq<char>>)>,
    ids: Seq<Seq<char>>,
    acc: DirectoryPlan,
    k: int,
)
    requires
        0 <= k <= ids.len(),
        with_directories(e, files, ids.take(k), acc) is Err,
    ensures
        with_directories(e, files, ids, acc) == with_directories(e, files, ids.take(k), acc),
    decreases ids.len(),
{
    if k < ids.len() {
        assert(ids.drop_last().take(k) =~= ids.take(k));
        lemma_directories_fail(e, files, ids.drop_last(), acc, k);
    } else {
        assert(ids.take(k) =~= ids);
    }
}

/// The directories and lookups that the settings and files describe.
pub open spec fn directory_plan(
    e: Seq<(Seq<char>, Seq<char>)>,
    files: Seq<(Seq<char>, Result<Seq<char>, Seq<char>>)>,
) -> Result<DirectoryPlan, ConfigFault> {
    with_directories(
        e,
        files,
        sub_keys(e, "directory"@),
        DirectoryPlan { directories: Map::empty(), lookups: Map::empty() },
    )
}

/// Adds to `lookups` the queries below `base`, as lookups of `directory`.
fn add_queries(config: &Config, directory: &str, base: &str, lookups: &mut LookupTable) -> (r:
    Result<(), ConfigError>)
    ensures
        r is Ok ==> with_queries(
            config@,
            directory@,
            base@,
            sub_keys(config@, base@),
            lookup_entries(*old(lookups)),
        ) == Ok::<Map<Seq<char>, LookupView>, ConfigFault>(lookup_entries(*final(lookups))),
        r matches Err(e) ==> with_queries(
            config@,
            directory@,
            base@,
            sub_keys(config@, base@),
            lookup_entries(*old(lookups)),
        ) == Err::<Map<Seq<char>, LookupView>, ConfigFault>(e@),
{
    let ids = config.sub_keys(base);
    let ghost all = texts(ids@);
    let ghost acc = lookup_entries(*lookups);
    let mut i: usize = 0;
    while i < ids.len()
        invariant
            i <= ids.len(),
            all == texts(ids@),
            all == sub_keys(config@, base@),
            acc == lookup_entries(*old(lookups)),
            with_queries(config@, directory@, base@, all.take(i as int), acc) == Ok::<
                Map<Seq<char>, LookupView>,
                ConfigFault,
            >(lookup_entries(*lookups)),
        decreases ids.len() - i,
    {
        assert(all.take(i + 1).drop_last() =~= all.take(i as int));
        assert(all.take(i + 1).last() == ids@[i as int]@);
        let key = join_key(base, ids[i].as_str());
        match config.value(key.as_str()) {
            Some(query) => {
                let name = join_name(directory, ids[i].as_str());
                let lookup = Lookup::Directory {
                    directory: String::from_str(directory),
                    query: String::from_str(query),
                };
                lookups_insert(lookups, name, lookup);
            },
            None => {
                proof {
                    lemma_queries_fail(config@, directory@, base@, all, acc, i + 1);
                }
                return Err(ConfigError::Missing { key });
            },
        }
        i += 1;
    }
    assert(all.take(i as int) =~= all);
    Ok(())
}

/// Adds to `lookups` the lists below `base`, as lookups of `directory`.
fn add_lists(
    config: &Config,
    files: &FileSet,
    directory: &str,
    base: &str,
    lookups: &mut LookupTable,
) -> (r: Result<(), ConfigError>)
    ensures
        r is Ok ==> with_lists(
            config@,
            files@,
            directory@,
            base@,
            sub_keys(config@, base@),
            lookup_entries(*old(lookups)),
        ) == Ok::<Map<Seq<char>, LookupView>, ConfigFault>(lookup_entries(*final(lookups))),
        r matches Err(e) ==> with_lists(
            config@,
            files@,
            directory@,
            base@,
            sub_keys(config@, base@),
            lookup_entries(*old(lookups)),
        ) == Err::<Map<Seq<char>, LookupView>, ConfigFault>(e@),
{
    let ids = config.sub_keys(base);
    let ghost all = texts(ids@);
    let ghost acc = lookup_entries(*lookups);
    let mut i: usize = 0;
    while i < ids.len()
        invariant
            i <= ids.len(),
            all == texts(ids@),
            all == sub_keys(config@, base@),
            acc == lookup_entries(*old(lookups)),
            with_lists(config@, files@, directory@, base@, all.take(i as int), acc) == Ok::<
                Map<Seq<char>, LookupView>,
                ConfigFault,
            >(lookup_entries(*lookups)),
        decreases ids.len() - i,
    {
        assert(all.take(i + 1).drop_last() =~= all.take(i as int));
        assert(all.take(i + 1).last() == ids@[i as int]@);
        let key = join_key(base, ids[i].as_str());
        match config.parse_lookup_list(key.as_str(), files) {
            Ok(list) => {
                let name = join_name(directory, ids[i].as_str());
                lookups_insert(lookups, name, Lookup::List { list });
            },
            Err(e) => {
                proof {
                    lemma_lists_fail(config@, files@, directory@, base@, all, acc, i + 1);
                }
                return Err(e);
            },
        }
        i += 1;
    }
    assert(all.take(i as int) =~= all);
    Ok(())
}

/// Adds the directory `id` and its lookups to `plan`.
fn add_directory(config: &Config, files: &FileSet, id: &str, plan: &mut DirectoryConfig) -> (r:
    Result<(), ConfigError>)
    ensures
        r is Ok ==> with_directory(config@, files@, id@, old(plan)@) == Ok::<
            DirectoryPlan,
            ConfigFault,
        >(final(plan)@),
        r matches Err(e) ==> with_directory(config@, files@, id@, old(plan)@) == Err::<
            DirectoryPlan,
            ConfigFault,
        >(e@),
{
    let base = join_key("directory", id);
    let type_key = join_key(base.as_str(), "type");
    let protocol = match config.value_require(type_key.as_str()) {
        Ok(p) => p,
        Err(e) => {
            return Err(e);
        },
    };
    let kind = match directory_kind(protocol) {
        Some(k) => k,
        None => {
            return Err(ConfigError::UnknownDirectoryType { value: String::from_str(protocol) });
        },
    };
    let queried = match kind {
        DirectoryKind::Sql => {
            let q = join_key(base.as_str(), "query");
            add_queries(config, id, q.as_str(), &mut plan.lookups)
        },
        DirectoryKind::Ldap => {
            let q = join_key(base.as_str(), "filter");
            add_queries(config, id, q.as_str(), &mut plan.lookups)
        },
        _ => Ok(()),
    };
    match queried {
        Ok(()) => {},
        Err(e) => {
            return Err(e);
        },
    }
    let below = join_key(base.as_str(), "lookup");
    let looked = match kind {
        DirectoryKind::Memory => add_lists(config, files, id, below.as_str(), &mut plan.lookups),
        _ => add_queries(config, id, below.as_str(), &mut plan.lookups),
    };
    match looked {
        Ok(()) => {},
        Err(e) => {
            return Err(e);
        },
    }
    directories_insert(&mut plan.directories, String::from_str(id), kind);
    Ok(())
}

/// The files that the lists `ids` below `base` refer to, list by list.
pub open spec fn files_of_lists(
    e: Seq<(Seq<char>, Seq<char>)>,
    base: Seq<char>,
    ids: Seq<Seq<char>>,
) -> Seq<Seq<char>>
    decreases ids.len(),
{
    if ids.len() == 0 {
        Seq::empty()
    } else {
        files_of_lists(e, base, ids.drop_last()) + file_paths(
            values_of(e, dotted(base, ids.last())),
        )
    }
}

/// The files that the directory `id` refers to: those of its lists where it
/// is held in memory, and none where it is not.
pub open spec fn files_of_directory(e: Seq<(Seq<char>, Seq<char>)>, id: Seq<char>) -> Seq<
    Seq<char>,
> {
    let base = dotted("directory"@, id);
    let below = dotted(base, "lookup"@);
    match lookup(e, dotted(base, "type"@)) {
        Some(protocol) => if kind_of(protocol) == Some(DirectoryKind::Memory) {
            files_of_lists(e, below, sub_keys(e, below))
        } else {
            Seq::empty()
        },
        None => Seq::empty(),
    }
}

/// The files that the directories `ids` refer to, directory by directory.
pub open spec fn files_of_directories(e: Seq<(Seq<char>, Seq<char>)>, ids: Seq<Seq<char>>) -> Seq<
    Seq<char>,
>
    decreases ids.len(),
{
    if ids.len() == 0 {
        Seq::empty()
    } else {
        files_of_directories(e, ids.drop_last()) + files_of_directory(e, ids.last())
    }
}

/// The files that the directories of a configuration refer to. These are
/// the files that reading the directories reads, and no others.
pub open spec fn directory_files(e: Seq<(Seq<char>, Seq<char>)>) -> Seq<Seq<char>> {
    files_of_directories(e, sub_keys(e, "directory"@))
}

/// The files that the lists below `base` refer to.
fn list_files_below(config: &Config, base: &str) -> (r: Vec<String>)
    ensures
        texts(r@) == files_of_lists(config@, base@, sub_keys(config@, base@)),
{
    let ids = config.sub_keys(base);
    let ghost all = texts(ids@);
    let mut out: Vec<String> = Vec::new();
    let mut i: usize = 0;
    while i < ids.len()
        invariant
            i <= ids.len(),
            all == texts(ids@),
            texts(out@) == files_of_lists(config@, base@, all.take(i as int)),
        decreases ids.len() - i,
    {
        assert(all.take(i + 1).drop_last() =~= all.take(i as int));
        assert(all.take(i + 1).last() == ids@[i as int]@);
        let key = join_key(base, ids[i].as_str());
        let mut more = list_files(config, key.as_str());
        let ghost before = texts(out@);
        let ghost added = texts(more@);
        out.append(&mut more);
        assert(texts(out@) =~= before + added);
        i += 1;
    }
    assert(all.take(i as int) =~= all);
    out
}

/// The files that the directories of the configuration refer to: the files
/// to read before the directories are.
pub fn list_directory_files(config: &Config) -> (r: Vec<String>)
    ensures
        texts(r@) == directory_files(config@),
{
    let ids = config.sub_keys("directory");
    let ghost all = texts(ids@);
    let mut out: Vec<String> = Vec::new();
    let mut i: usize = 0;
    while i < ids.len()
        invariant
            i <= ids.len(),
            all == texts(ids@),
            texts(out@) == files_of_directories(config@, all.take(i as int)),
        decreases ids.len() - i,
    {
        assert(all.take(i + 1).drop_last() =~= all.take(i as int));
        assert(all.take(i + 1).last() == ids@[i as int]@);
        let base = join_key("directory", ids[i].as_str());
        let type_key = join_key(base.as_str(), "type");
        let in_memory = match config.value(type_key.as_str()) {
            Some(protocol) => match directory_kind(protocol) {
                Some(DirectoryKind::Memory) => true,
                _ => false,
            },
            None => false,
        };
        let ghost before = texts(out@);
        if in_memory {
            let below = join_key(base.as_str(), "lookup");
            let mut more = list_files_below(config, below.as_str());
            let ghost added = texts(more@);
            out.append(&mut more);
            assert(texts(out@) =~= before + added);
        } else {
            assert(before + Seq::<Seq<char>>::empty() =~= before);
        }
        i += 1;
    }
    assert(all.take(i as int) =~= all);
    out
}

/// The lists below `base` depend on the files that they refer to and on no
/// other.
pub proof fn lemma_lists_read(
    e: Seq<(Seq<char>, Seq<char>)>,
    a: Seq<(Seq<char>, Result<Seq<char>, Seq<char>>)>,
    b: Seq<(Seq<char>, Result<Seq<char>, Seq<char>>)>,
    directory: Seq<char>,
    base: Seq<char>,
    ids: Seq<Seq<char>>,
    acc: Map<Seq<char>, LookupView>,
)
    requires
        forall|p: Seq<char>|
            #![trigger files_of_lists(e, base, ids).contains(p)]
            files_of_lists(e, base, ids).contains(p) ==> read_of(a, p) == read_of(b, p),
    ensures
        with_lists(e, a, directory, base, ids, acc) == with_lists(e, b, directory, base, ids, acc),
    decreases ids.len(),
{
    if ids.len() > 0 {
        let front = files_of_lists(e, base, ids.drop_last());
        let values = values_of(e, dotted(base, ids.last()));
        let last = file_paths(values);
        let all = files_of_lists(e, base, ids);
        assert(all == front + last);
        assert forall|p: Seq<char>| #[trigger] front.contains(p) implies read_of(a, p) == read_of(
            b,
            p,
        ) by {
            let i = choose|i: int| 0 <= i < front.len() && front[i] == p;
            assert(all[i] == p);
            assert(all.contains(p));
        }
        lemma_lists_read(e, a, b, directory, base, ids.drop_last(), acc);
        assert forall|i: int| 0 <= i < last.len() implies read_of(a, #[trigger] last[i]) == read_of(
            b,
            last[i],
        ) by {
            assert(all[front.len() + i] == last[i]);
            assert(all.contains(last[i]));
        }
        lemma_lookup_list_reads(values, a, b, dotted(base, ids.last()));
    }
}

/// The directories and lookups of a configuration depend on the files that
/// its directories refer to and on no other: two sets of files that agree on
/// those give the same directories and lookups, or the same fault.
pub proof fn lemma_directories_read(
    e: Seq<(Seq<char>, Seq<char>)>,
    a: Seq<(Seq<char>, Result<Seq<char>, Seq<char>>)>,
    b: Seq<(Seq<char>, Result<Seq<char>, Seq<char>>)>,
    ids: Seq<Seq<char>>,
    acc: DirectoryPlan,
)
    requires
        forall|p: Seq<char>|
            #![trigger files_of_directories(e, ids).contains(p)]
            files_of_directories(e, ids).contains(p) ==> read_of(a, p) == read_of(b, p),
    ensures
        with_directories(e, a, ids, acc) == with_directories(e, b, ids, acc),
    decreases ids.len(),
{
    if ids.len() > 0 {
        let front = files_of_directories(e, ids.drop_last());
        let last = files_of_directory(e, ids.last());
        let all = files_of_directories(e, ids);
        assert(all == front + last);
        assert forall|p: Seq<char>| #[trigger] front.contains(p) implies read_of(a, p) == read_of(
            b,
            p,
        ) by {
            let i = choose|i: int| 0 <= i < front.len() && front[i] == p;
            assert(all[i] == p);
            assert(all.contains(p));
        }
        lemma_directories_read(e, a, b, ids.drop_last(), acc);
        match with_directories(e, a, ids.drop_last(), acc) {
            Ok(plan) => {
                let id = ids.last();
                let base = dotted("directory"@, id);
                let below = dotted(base, "lookup"@);
                assert forall|p: Seq<char>| #[trigger] last.contains(p) implies read_of(a, p)
                    == read_of(b, p) by {
                    let i = choose|i: int| 0 <= i < last.len() && last[i] == p;
                    assert(all[front.len() + i] == p);
                    assert(all.contains(p));
                }
                match lookup(e, dotted(base, "type"@)) {
                    Some(protocol) => {
                        if kind_of(protocol) == Some(DirectoryKind::Memory) {
                            lemma_lists_read(
                                e,
                                a,
                                b,
                                id,
                                below,
                                sub_keys(e, below),
                                plan.lookups,
                            );
                        }
                    },
                    None => {},
                }
            },
            Err(_) => {},
        }
    }
}

/// What reading the directories gives depends on the files that
/// `directory_files` names and on no other.
pub proof fn lemma_directory_plan_reads(
    e: Seq<(Seq<char>, Seq<char>)>,
    a: Seq<(Seq<char>, Result<Seq<char>, Seq<char>>)>,
    b: Seq<(Seq<char>, Result<Seq<char>, Seq<char>>)>,
)
    requires
        forall|p: Seq<char>|
            #![trigger directory_files(e).contains(p)]
            directory_files(e).contains(p) ==> read_of(a, p) == read_of(b, p),
    ensures
        directory_plan(e, a) == directory_plan(e, b),
{
    let ids = sub_keys(e, "directory"@);
    assert forall|p: Seq<char>| #![trigger files_of_directories(e, ids).contains(p)]
        files_of_directories(e, ids).contains(p) implies read_of(a, p) == read_of(b, p) by {
        assert(directory_files(e).contains(p));
    }
    lemma_directories_read(
        e,
        a,
        b,
        ids,
        DirectoryPlan { directories: Map::empty(), lookups: Map::empty() },
    );
}

/// Reading directories and lookup lists from a configuration.
pub trait ConfigDirectory {
    /// The directories and lookups of the configuration. `files` holds what
    /// reading the files that its lists refer to gave.
    fn parse_directory(&self, files: &FileSet) -> Result<DirectoryConfig, ConfigError>;

    /// The list that the values of `key` make up.
    fn parse_lookup_list(&self, key: &str, files: &FileSet) -> Result<
        AHashSet<String>,
        ConfigError,
    >;
}

impl ConfigDirectory for Config {
    fn parse_directory(&self, files: &FileSet) -> (r: Result<DirectoryConfig, ConfigError>)
        ensures
            r matches Ok(c) ==> directory_plan(self@, files@) == Ok::<DirectoryPlan, ConfigFault>(
                c@,
            ),
            r matches Err(e) ==> directory_plan(self@, files@) == Err::<DirectoryPlan, ConfigFault>(
                e@,
            ),
    {
        let mut plan = DirectoryConfig { directories: directories_new(), lookups: lookups_new() };
        let ghost empty = plan@;
        assert(empty == DirectoryPlan { directories: Map::empty(), lookups: Map::empty() });
        let ids = self.sub_keys("directory");
        let ghost all = texts(ids@);
        let mut i: usize = 0;
        while i < ids.len()
            invariant
                i <= ids.len(),
                all == texts(ids@),
                all == sub_keys(self@, "directory"@),
                empty == (DirectoryPlan { directories: Map::empty(), lookups: Map::empty() }),
                with_directories(self@, files@, all.take(i as int), empty) == Ok::<
                    DirectoryPlan,
                    ConfigFault,
                >(plan@),
            decreases ids.len() - i,
        {
            assert(all.take(i + 1).drop_last() =~= all.take(i as int));
            assert(all.take(i + 1).last() == ids@[i as int]@);
            match add_directory(self, files, ids[i].as_str(), &mut plan) {
                Ok(()) => {},
                Err(e) => {
                    proof {
                        lemma_directories_fail(self@, files@, all, empty, i + 1);
                    }
                    return Err(e);
                },
            }
            i += 1;
        }
        assert(all.take(i as int) =~= all);
        Ok(plan)
    }

    fn parse_lookup_list(&self, key: &str, files: &FileSet) -> (r: Result<
        AHashSet<String>,
        ConfigError,
    >)
        ensures
            r matches Ok(list) ==> lookup_list(values_of(self@, key@), files@, key@) == Ok::<
                Set<Seq<char>>,
                ConfigFault,
            >(list_items(list)),
            r matches Err(e) ==> lookup_list(values_of(self@, key@), files@, key@) == Err::<
                Set<Seq<char>>,
                ConfigFault,
            >(e@),
    {
        let values = self.values(key);
        let ghost all = texts(values@);
        let scheme = chars_of("file://");
        let mut list = list_new();
        let mut i: usize = 0;
        while i < values.len()
            invariant
                i <= values.len(),
                all == texts(values@),
                all == values_of(self@, key@),
                scheme@ == "file://"@,
                lookup_list(all.take(i as int), files@, key@) == Ok::<Set<Seq<char>>, ConfigFault>(
                    list_items(list),
                ),
            decreases values.len() - i,
        {
            assert(all.take(i + 1).drop_last() =~= all.take(i as int));
            assert(all.take(i + 1).last() == values@[i as int]@);
            let value = chars_of(values[i].as_str());
            if starts_with(&value, &scheme) {
                assert(value@.skip(scheme.len() as int) =~= value@.subrange(
                    scheme.len() as int,
                    value.len() as int,
                ));
                let path = string_of(&value, scheme.len(), value.len());
                match files.outcome(path.as_str()) {
                    Ok(content) => {
                        add_file_items(&mut list, content);
                    },
                    Err(reason) => {
                        proof {
                            lemma_lookup_list_fails(all, files@, key@, i + 1);
                        }
                        return Err(
                            ConfigError::UnreadableFile {
                                path,
                                list: String::from_str(key),
                                reason,
                            },
                        );
                    },
                }
            } else {
                list_insert(&mut list, values[i].clone());
            }
            i += 1;
        }
        assert(all.take(i as int) =~= all);
        Ok(list)
    }
}

} // verus!
