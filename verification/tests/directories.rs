use store::config::Config;
use store::directory::{directory_kind, join_name, ConfigDirectory, DirectoryOptions};
use store::error::ConfigError;
use store::lookup::{add_file_items, DirectoryKind, FileSet, Lookup};

fn config(pairs: &[(&str, &str)]) -> Config {
    let mut c = Config::new();
    for (k, v) in pairs {
        c.set(k, v);
    }
    c
}

fn files(reads: &[(&str, Result<&str, &str>)]) -> FileSet {
    let mut f = FileSet::new();
    for (path, outcome) in reads {
        f.add(
            path.to_string(),
            match outcome {
                Ok(text) => Ok(text.to_string()),
                Err(reason) => Err(reason.to_string()),
            },
        );
    }
    f
}

fn sorted(list: &ahash::AHashSet<String>) -> Vec<String> {
    let mut v: Vec<String> = list.iter().cloned().collect();
    v.sort();
    v
}

fn query(directory: &str, query: &str) -> Lookup {
    Lookup::Directory { directory: directory.to_string(), query: query.to_string() }
}

#[test]
fn directory_kinds_by_name() {
    assert_eq!(directory_kind("ldap"), Some(DirectoryKind::Ldap));
    assert_eq!(directory_kind("sql"), Some(DirectoryKind::Sql));
    assert_eq!(directory_kind("imap"), Some(DirectoryKind::Imap));
    assert_eq!(directory_kind("smtp"), Some(DirectoryKind::Smtp));
    assert_eq!(directory_kind("lmtp"), Some(DirectoryKind::Lmtp));
    assert_eq!(directory_kind("memory"), Some(DirectoryKind::Memory));
    assert_eq!(directory_kind("SQL"), None);
    assert_eq!(directory_kind(""), None);
    assert_eq!(join_name("sql", "domains"), "sql/domains");
}

#[test]
fn options_default_to_no_catch_all_and_subaddressing() {
    let c = Config::new();
    assert_eq!(
        DirectoryOptions::from_config(&c, "directory.sql"),
        Ok(DirectoryOptions { catch_all: false, subaddressing: true })
    );
}

#[test]
fn options_follow_the_settings() {
    let c = config(&[
        ("directory.sql.options.catch-all", "true"),
        ("directory.sql.options.subaddressing", "false"),
        ("directory.ldap.options.catch-all", "yes"),
        ("directory.imap.options.subaddressing", "no"),
        ("directory.imap.options.catch-all", "maybe"),
    ]);
    assert_eq!(
        DirectoryOptions::from_config(&c, "directory.sql"),
        Ok(DirectoryOptions { catch_all: true, subaddressing: false })
    );
    assert_eq!(
        DirectoryOptions::from_config(&c, "directory.ldap"),
        Err(ConfigError::Invalid {
            key: "directory.ldap.options.catch-all".to_string(),
            value: "yes".to_string()
        })
    );
    assert_eq!(
        DirectoryOptions::from_config(&c, "directory.imap"),
        Err(ConfigError::Invalid {
            key: "directory.imap.options.catch-all".to_string(),
            value: "maybe".to_string()
        })
    );
}

#[test]
fn file_items_are_trimmed_lines_without_the_blank_ones() {
    let mut list = ahash::AHashSet::new();
    list.insert("kept".to_string());
    add_file_items(&mut list, "  a@example.org \r\n\n\t\nb@example.org\n  \nc d  ");
    assert_eq!(sorted(&list), vec!["a@example.org", "b@example.org", "c d", "kept"]);
    let mut empty = ahash::AHashSet::new();
    add_file_items(&mut empty, "");
    add_file_items(&mut empty, "\n\n \n");
    assert!(empty.is_empty());
    add_file_items(&mut empty, "x");
    add_file_items(&mut empty, "x\n");
    assert_eq!(sorted(&empty), vec!["x"]);
}

#[test]
fn lookup_list_holds_values_and_file_items() {
    let c = config(&[
        ("list", "plain"),
        ("list.0", "file:///etc/allow"),
        ("list.1", " spaced "),
        ("list.2", "file://relative.txt"),
        ("lists", "other"),
    ]);
    let f = files(&[("/etc/allow", Ok("one\n two \n\n")), ("relative.txt", Ok("three"))]);
    let list = c.parse_lookup_list("list", &f).unwrap();
    assert_eq!(sorted(&list), vec![" spaced ", "one", "plain", "three", "two"]);
    assert!(c.parse_lookup_list("absent", &f).unwrap().is_empty());
}

#[test]
fn lookup_list_fails_on_the_first_unreadable_file() {
    let c = config(&[("l.0", "a"), ("l.1", "file://gone"), ("l.2", "file://never")]);
    let f = files(&[("gone", Err("No such file or directory")), ("never", Err("later"))]);
    assert_eq!(
        c.parse_lookup_list("l", &f),
        Err(ConfigError::UnreadableFile {
            path: "gone".to_string(),
            list: "l".to_string(),
            reason: "No such file or directory".to_string(),
        })
    );
    assert_eq!(
        c.parse_lookup_list("l", &FileSet::new()),
        Err(ConfigError::UnreadableFile {
            path: "gone".to_string(),
            list: "l".to_string(),
            reason: "file was not read".to_string(),
        })
    );
    assert_eq!(
        ConfigError::UnreadableFile {
            path: "gone".to_string(),
            list: "l".to_string(),
            reason: "denied".to_string(),
        }
        .message(),
        "Failed to read file \"gone\" for list l: denied"
    );
}

#[test]
fn the_last_read_of_a_file_counts() {
    let f = files(&[("p", Err("busy")), ("p", Ok("x")), ("q", Ok("y"))]);
    assert_eq!(f.outcome("p"), Ok("x"));
    assert_eq!(f.outcome("q"), Ok("y"));
    assert_eq!(f.outcome("r"), Err("file was not read".to_string()));
}

#[test]
fn parse_directory_reads_directories_and_lookups() {
    let c = config(&[
        ("directory.sql.type", "sql"),
        ("directory.sql.query.name", "SELECT name FROM accounts WHERE name = ?"),
        ("directory.sql.query.domains", "SELECT 1 FROM domains WHERE name = ?"),
        ("directory.sql.filter.unused", "(uid=?)"),
        ("directory.sql.lookup.blocked", "SELECT 1 FROM blocked WHERE ip = ?"),
        ("directory.ldap.type", "ldap"),
        ("directory.ldap.filter.name", "(uid=?)"),
        ("directory.ldap.query.unused", "SELECT 1"),
        ("directory.local.type", "memory"),
        ("directory.local.lookup.domains", "example.org"),
        ("directory.local.lookup.domains.more", "file://domains.txt"),
        ("directory.local.lookup.empty.0", "file://empty.txt"),
        ("directory.local.query.unused", "x"),
        ("directory.mx.type", "smtp"),
        ("directory.lx.type", "lmtp"),
        ("directory.im.type", "imap"),
        ("directory.im.lookup.who", "whoami"),
    ]);
    let f = files(&[("domains.txt", Ok("example.com\nexample.net\n")), ("empty.txt", Ok(""))]);
    let plan = c.parse_directory(&f).unwrap();

    let mut kinds: Vec<(String, DirectoryKind)> =
        plan.directories.iter().map(|(k, v)| (k.clone(), *v)).collect();
    kinds.sort_by(|a, b| a.0.cmp(&b.0));
    assert_eq!(
        kinds,
        vec![
            ("im".to_string(), DirectoryKind::Imap),
            ("ldap".to_string(), DirectoryKind::Ldap),
            ("local".to_string(), DirectoryKind::Memory),
            ("lx".to_string(), DirectoryKind::Lmtp),
            ("mx".to_string(), DirectoryKind::Smtp),
            ("sql".to_string(), DirectoryKind::Sql),
        ]
    );

    let mut names: Vec<String> = plan.lookups.keys().cloned().collect();
    names.sort();
    assert_eq!(
        names,
        vec![
            "im/who",
            "ldap/name",
            "local/domains",
            "local/empty",
            "sql/blocked",
            "sql/domains",
            "sql/name",
        ]
    );
    assert_eq!(
        plan.lookups.get("sql/name"),
        Some(&query("sql", "SELECT name FROM accounts WHERE name = ?"))
    );
    assert_eq!(
        plan.lookups.get("sql/blocked"),
        Some(&query("sql", "SELECT 1 FROM blocked WHERE ip = ?"))
    );
    assert_eq!(plan.lookups.get("ldap/name"), Some(&query("ldap", "(uid=?)")));
    assert_eq!(plan.lookups.get("im/who"), Some(&query("im", "whoami")));
    match plan.lookups.get("local/domains") {
        Some(Lookup::List { list }) => {
            assert_eq!(sorted(list), vec!["example.com", "example.net", "example.org"])
        }
        other => panic!("not a list: {:?}", other),
    }
    match plan.lookups.get("local/empty") {
        Some(Lookup::List { list }) => assert!(list.is_empty()),
        other => panic!("not a list: {:?}", other),
    }
}

#[test]
fn a_lookup_overrides_a_query_of_the_same_name() {
    let c = config(&[
        ("directory.sql.type", "sql"),
        ("directory.sql.query.q", "first"),
        ("directory.sql.lookup.q", "second"),
    ]);
    let plan = c.parse_directory(&FileSet::new()).unwrap();
    assert_eq!(plan.lookups.len(), 1);
    assert_eq!(plan.lookups.get("sql/q"), Some(&query("sql", "second")));
}

#[test]
fn parse_directory_of_nothing_is_empty() {
    let plan = Config::new().parse_directory(&FileSet::new()).unwrap();
    assert!(plan.directories.is_empty());
    assert!(plan.lookups.is_empty());
}

#[test]
fn parse_directory_reports_the_first_fault() {
    let none = FileSet::new();
    let err = |pairs: &[(&str, &str)]| config(pairs).parse_directory(&none).unwrap_err();
    assert_eq!(
        err(&[("directory.a.host", "h")]),
        ConfigError::Missing { key: "directory.a.type".to_string() }
    );
    assert_eq!(
        err(&[("directory.a.type", "nis"), ("directory.b.host", "h")]),
        ConfigError::UnknownDirectoryType { value: "nis".to_string() }
    );
    assert_eq!(
        ConfigError::UnknownDirectoryType { value: "nis".to_string() }.message(),
        "Unknown directory type: \"nis\""
    );
    assert_eq!(
        err(&[("directory.a.type", "sql"), ("directory.a.query.q.text", "nested")]),
        ConfigError::Missing { key: "directory.a.query.q".to_string() }
    );
    assert_eq!(
        err(&[("directory.a.type", "imap"), ("directory.a.lookup.l.x", "nested")]),
        ConfigError::Missing { key: "directory.a.lookup.l".to_string() }
    );
    assert_eq!(
        err(&[("directory.m.type", "memory"), ("directory.m.lookup.l", "file://nowhere")]),
        ConfigError::UnreadableFile {
            path: "nowhere".to_string(),
            list: "directory.m.lookup.l".to_string(),
            reason: "file was not read".to_string(),
        }
    );
    assert_eq!(
        err(&[
            ("directory.ok.type", "memory"),
            ("directory.bad.type", "sql"),
            ("directory.bad.query.q.x", "y"),
            ("directory.worse.type", "unknown"),
        ]),
        ConfigError::Missing { key: "directory.bad.query.q".to_string() }
    );
}

#[test]
fn list_files_names_the_files_to_read() {
    let c = config(&[
        ("directory.m.type", "memory"),
        ("directory.m.lookup.a", "file:///etc/a"),
        ("directory.m.lookup.a.1", "plain"),
        ("directory.m.lookup.b", "file://b.txt"),
        ("directory.m.lookup.c", "file:/not"),
        ("other.list", "file://elsewhere"),
    ]);
    assert_eq!(store::directory::list_files(&c, "directory"), vec!["/etc/a", "b.txt"]);
    assert_eq!(store::directory::list_files(&c, "directory.m.lookup.b"), vec!["b.txt"]);
    assert_eq!(store::directory::list_files(&c, "other"), vec!["elsewhere"]);
    assert_eq!(store::directory::list_files(&c, "none"), Vec::<String>::new());
}

#[test]
fn messages_print_the_type_and_the_path_as_for_debugging() {
    let c = config(&[("directory.x.type", "foo")]);
    let e = c.parse_directory(&FileSet::new()).unwrap_err();
    assert_eq!(e.message(), "Unknown directory type: \"foo\"");
    assert_eq!(e.message().chars().count(), 29);
    let odd = ConfigError::UnknownDirectoryType { value: "a\"b\\c\n".to_string() };
    assert_eq!(odd.message(), format!("Unknown directory type: {:?}", "a\"b\\c\n"));
    assert_eq!(odd.message(), "Unknown directory type: \"a\\\"b\\\\c\\n\"");
    let c = config(&[("l", "file:///etc/my list")]);
    let f = files(&[("/etc/my list", Err("Permission denied (os error 13)"))]);
    let e = c.parse_lookup_list("l", &f).unwrap_err();
    assert_eq!(
        e.message(),
        format!(
            "Failed to read file {:?} for list {}: {}",
            "/etc/my list", "l", "Permission denied (os error 13)"
        )
    );
    assert_eq!(
        store::error::unknown_type_message("<shown>"),
        "Unknown directory type: <shown>"
    );
    assert_eq!(
        store::error::unreadable_file_message("<path>", "list.key", "why"),
        "Failed to read file <path> for list list.key: why"
    );
}

#[test]
fn only_the_lists_of_directories_in_memory_name_files_to_read() {
    let c = config(&[
        ("directory.m.type", "memory"),
        ("directory.m.lookup.a", "file:///etc/a"),
        ("directory.m.lookup.a.1", "plain"),
        ("directory.m.lookup.b.0", "file://b.txt"),
        ("directory.m.lookup.b.1", "file://c.txt"),
        ("directory.m.query.q", "file://not-a-list"),
        ("directory.m.options.x", "file://not-a-list-either"),
        ("directory.sql.type", "sql"),
        ("directory.sql.lookup.l", "file://a-query"),
        ("directory.sql.query.q", "file://another-query"),
        ("directory.untyped.lookup.l", "file://never"),
        ("directory.odd.type", "nis"),
        ("directory.odd.lookup.l", "file://never"),
        ("directory.n.type", "memory"),
        ("directory.n.lookup.z", "file://z"),
        ("other.lookup.l", "file://elsewhere"),
    ]);
    assert_eq!(
        store::directory::list_directory_files(&c),
        vec!["/etc/a", "b.txt", "c.txt", "z"]
    );
    assert_eq!(
        store::directory::list_directory_files(&Config::new()),
        Vec::<String>::new()
    );
}
