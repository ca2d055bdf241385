use store::config::{join_key, Config, Millis, ParseValue};
use store::error::{ConfigError, Connectivity, StoreError};
use store::mysql::{
    create_table_statement, schema_statements, MysqlFailure, MysqlSettings, MysqlStore,
};
use store::pool::{build_pool, PoolSettings};
use store::subspace::Subspace;
use store::text::{chars_of, parse_decimal, same_text, string_of, trim_bounds};

fn config(pairs: &[(&str, &str)]) -> Config {
    let mut c = Config::new();
    for (k, v) in pairs {
        c.set(k, v);
    }
    c
}

#[test]
fn value_is_the_last_setting_of_a_key() {
    let mut c = config(&[("a.b", "1"), ("a.c", "2")]);
    assert_eq!(c.len(), 2);
    assert_eq!(c.value("a.b"), Some("1"));
    assert_eq!(c.value("a.c"), Some("2"));
    assert_eq!(c.value("a"), None);
    c.set("a.b", "3");
    assert_eq!(c.len(), 2);
    assert_eq!(c.value("a.b"), Some("3"));
    assert_eq!(c.value("a.c"), Some("2"));
}

#[test]
fn value_require_names_the_missing_key() {
    let c = config(&[("a", "1")]);
    assert_eq!(c.value_require("a"), Ok("1"));
    assert_eq!(c.value_require("b"), Err(ConfigError::Missing { key: "b".to_string() }));
    assert_eq!(
        ConfigError::Missing { key: "b".to_string() }.message(),
        "Missing property b"
    );
}

#[test]
fn sub_keys_are_distinct_and_in_order_of_first_occurrence() {
    let c = config(&[
        ("directory.sql.type", "sql"),
        ("directory.ldap.type", "ldap"),
        ("directory.sql.query.name", "SELECT 1"),
        ("directory.mem", "x"),
        ("directoryx.no.type", "sql"),
        ("directory", "top"),
    ]);
    assert_eq!(c.sub_keys("directory"), vec!["sql", "ldap", "mem"]);
    assert_eq!(c.sub_keys("directory.sql"), vec!["type", "query"]);
    assert_eq!(c.sub_keys("directory.sql.query"), vec!["name"]);
    assert_eq!(c.sub_keys("nothing"), Vec::<String>::new());
}

#[test]
fn values_are_those_of_the_key_and_below_it() {
    let c = config(&[("list", "a"), ("list.0", "b"), ("listing", "no"), ("list.1.x", "c")]);
    assert_eq!(c.values("list"), vec!["a", "b", "c"]);
    assert_eq!(c.values("list.1"), vec!["c"]);
    assert_eq!(c.values("lis"), Vec::<String>::new());
}

#[test]
fn join_key_puts_a_dot_between() {
    assert_eq!(join_key("store.db", "pool.max-connections"), "store.db.pool.max-connections");
    assert_eq!(join_key("", "x"), ".x");
}

#[test]
fn numbers_are_plain_decimal() {
    assert_eq!(u64::parse_value("0"), Some(0));
    assert_eq!(u64::parse_value("007"), Some(7));
    assert_eq!(u64::parse_value("18446744073709551615"), Some(u64::MAX));
    assert_eq!(u64::parse_value("18446744073709551616"), None);
    assert_eq!(u64::parse_value("184467440737095516150"), None);
    assert_eq!(u64::parse_value(""), None);
    assert_eq!(u64::parse_value("+1"), None);
    assert_eq!(u64::parse_value("-1"), None);
    assert_eq!(u64::parse_value("1 "), None);
    assert_eq!(u64::parse_value("1a"), None);
    assert_eq!(u32::parse_value("4294967295"), Some(u32::MAX));
    assert_eq!(u32::parse_value("4294967296"), None);
    assert_eq!(u16::parse_value("65535"), Some(u16::MAX));
    assert_eq!(u16::parse_value("65536"), None);
    assert_eq!(usize::parse_value("3306"), Some(3306));
}

#[test]
fn booleans_are_true_and_false() {
    assert_eq!(bool::parse_value("true"), Some(true));
    assert_eq!(bool::parse_value("false"), Some(false));
    assert_eq!(bool::parse_value("True"), None);
    assert_eq!(bool::parse_value("1"), None);
    assert_eq!(bool::parse_value(""), None);
    assert_eq!(bool::parse_value("truest"), None);
}

#[test]
fn durations_are_a_number_and_a_unit() {
    assert_eq!(Millis::parse_value("30m"), Some(Millis(1_800_000)));
    assert_eq!(Millis::parse_value("10m"), Some(Millis(600_000)));
    assert_eq!(Millis::parse_value("30s"), Some(Millis(30_000)));
    assert_eq!(Millis::parse_value("250ms"), Some(Millis(250)));
    assert_eq!(Millis::parse_value("250"), Some(Millis(250)));
    assert_eq!(Millis::parse_value("2h"), Some(Millis(7_200_000)));
    assert_eq!(Millis::parse_value("1d"), Some(Millis(86_400_000)));
    assert_eq!(Millis::parse_value("0s"), Some(Millis(0)));
    assert_eq!(Millis::parse_value("m"), None);
    assert_eq!(Millis::parse_value(""), None);
    assert_eq!(Millis::parse_value("5x"), None);
    assert_eq!(Millis::parse_value("5 s"), None);
    assert_eq!(Millis::parse_value("5sm"), None);
    assert_eq!(Millis::parse_value("18446744073709551615"), Some(Millis(u64::MAX)));
    assert_eq!(Millis::parse_value("18446744073709551615s"), None);
}

#[test]
fn property_reads_the_value_or_reports_it() {
    let c = config(&[("n", "12"), ("bad", "12x")]);
    assert_eq!(c.property::<u32>("n"), Ok(Some(12)));
    assert_eq!(c.property::<u32>("none"), Ok(None));
    assert_eq!(
        c.property::<u32>("bad"),
        Err(ConfigError::Invalid { key: "bad".to_string(), value: "12x".to_string() })
    );
    assert_eq!(c.property_or_static::<u32>("n", "5"), Ok(12));
    assert_eq!(c.property_or_static::<u32>("none", "5"), Ok(5));
    assert_eq!(
        c.property_or_static::<u32>("none", "five"),
        Err(ConfigError::Invalid { key: "none".to_string(), value: "five".to_string() })
    );
    assert_eq!(
        ConfigError::Invalid { key: "bad".to_string(), value: "12x".to_string() }.message(),
        "Invalid value 12x for property bad"
    );
}

#[test]
fn text_helpers_agree_with_the_standard_library() {
    let v = chars_of("  a b\t\n");
    let (a, b) = trim_bounds(&v, 0, v.len());
    assert_eq!(string_of(&v, a, b), "a b");
    let w = chars_of("\u{3000}\u{a0}x\u{2028}\u{85}");
    let (a, b) = trim_bounds(&w, 0, w.len());
    assert_eq!(string_of(&w, a, b), "x");
    let blank = chars_of(" \r\n ");
    let (a, b) = trim_bounds(&blank, 0, blank.len());
    assert_eq!(a, b);
    assert!(same_text("héllo", "héllo"));
    assert!(!same_text("hello", "hellp"));
    assert!(!same_text("hello", "hell"));
    let d = chars_of("x123y");
    assert_eq!(parse_decimal(&d, 1, 4), Some(123));
    assert_eq!(parse_decimal(&d, 1, 5), None);
    assert_eq!(parse_decimal(&d, 1, 1), None);
    for c in ['\u{9}', '\u{d}', ' ', '\u{85}', '\u{a0}', '\u{1680}', '\u{2000}', '\u{200a}',
        '\u{2028}', '\u{2029}', '\u{202f}', '\u{205f}', '\u{3000}', 'a', '\u{200b}', '\u{8}',
        '\u{e}'] {
        assert_eq!(store::text::is_space_char(c), c.is_whitespace());
    }
}

#[test]
fn pool_has_its_defaults() {
    let c = Config::new();
    assert_eq!(
        build_pool(&c, "store.db"),
        Ok(PoolSettings {
            min_idle: None,
            max_size: 10,
            max_lifetime: Millis(30 * 60 * 1000),
            idle_timeout: Millis(10 * 60 * 1000),
            connection_timeout: Millis(30 * 1000),
            test_on_check_out: true,
        })
    );
}

#[test]
fn pool_follows_its_settings() {
    let c = config(&[
        ("directory.sql.pool.min-connections", "2"),
        ("directory.sql.pool.max-connections", "5"),
        ("directory.sql.pool.max-lifetime", "1h"),
        ("directory.sql.pool.idle-timeout", "90s"),
        ("directory.sql.pool.connect-timeout", "500ms"),
    ]);
    assert_eq!(
        build_pool(&c, "directory.sql"),
        Ok(PoolSettings {
            min_idle: Some(2),
            max_size: 5,
            max_lifetime: Millis(3_600_000),
            idle_timeout: Millis(90_000),
            connection_timeout: Millis(500),
            test_on_check_out: true,
        })
    );
    let zero = config(&[("p.pool.min-connections", "0")]);
    assert_eq!(build_pool(&zero, "p").map(|s| s.min_idle), Ok(None));
}

#[test]
fn pool_refuses_what_no_pool_can_be_built_from() {
    let out = |key: &str| Err(ConfigError::OutOfRange { key: key.to_string() });
    assert_eq!(build_pool(&config(&[("p.pool.max-connections", "0")]), "p"), out("p.pool.max-connections"));
    assert_eq!(build_pool(&config(&[("p.pool.max-lifetime", "0s")]), "p"), out("p.pool.max-lifetime"));
    assert_eq!(build_pool(&config(&[("p.pool.idle-timeout", "0")]), "p"), out("p.pool.idle-timeout"));
    assert_eq!(build_pool(&config(&[("p.pool.connect-timeout", "0ms")]), "p"), out("p.pool.connect-timeout"));
    assert_eq!(build_pool(&config(&[("p.pool.min-connections", "11")]), "p"), out("p.pool.min-connections"));
    assert_eq!(
        build_pool(&config(&[("p.pool.min-connections", "6"), ("p.pool.max-connections", "5")]), "p"),
        out("p.pool.min-connections")
    );
    assert_eq!(
        build_pool(&config(&[("p.pool.max-connections", "-1")]), "p"),
        Err(ConfigError::Invalid { key: "p.pool.max-connections".to_string(), value: "-1".to_string() })
    );
    assert_eq!(
        build_pool(&config(&[("p.pool.min-connections", "x"), ("p.pool.max-connections", "0")]), "p"),
        Err(ConfigError::Invalid { key: "p.pool.min-connections".to_string(), value: "x".to_string() })
    );
    assert_eq!(
        ConfigError::OutOfRange { key: "k".to_string() }.message(),
        "Value out of range for property k"
    );
}

#[test]
fn mysql_settings_are_read_from_the_configuration() {
    let c = config(&[
        ("store.db.host", "db.example.org"),
        ("store.db.user", "mail"),
        ("store.db.password", "SECRET-REDACTED"),
        ("store.db.database", "mail"),
        ("store.db.timeout", "15"),
        ("store.db.port", "3307"),
        ("store.db.pool.min-connections", "1"),
        ("store.db.pool.max-connections", "5"),
    ]);
    let store = MysqlStore::open(&c).unwrap();
    assert_eq!(
        store.settings,
        MysqlSettings {
            host: "db.example.org".to_string(),
            user: Some("mail".to_string()),
            password: Some("SECRET-REDACTED".to_string()),
            database: "mail".to_string(),
            wait_timeout: Some(15),
            port: Some(3307),
            pool_min: 1,
            pool_max: 5,
        }
    );
}

#[test]
fn mysql_pool_holds_ten_connections_by_default() {
    let c = config(&[("store.db.host", "localhost"), ("store.db.database", "mail")]);
    let s = MysqlSettings::from_config(&c).unwrap();
    assert_eq!((s.pool_min, s.pool_max), (10, 10));
    assert_eq!(s.user, None);
    assert_eq!(s.password, None);
    assert_eq!(s.wait_timeout, None);
    assert_eq!(s.port, None);
}

#[test]
fn mysql_open_reports_the_first_fault() {
    let missing = |key: &str| StoreError::Config(ConfigError::Missing { key: key.to_string() });
    assert_eq!(MysqlStore::open(&Config::new()), Err(missing("store.db.host")));
    assert_eq!(
        MysqlStore::open(&config(&[("store.db.host", "h"), ("store.db.port", "x")])),
        Err(missing("store.db.database"))
    );
    let base = [("store.db.host", "h"), ("store.db.database", "d")];
    let with = |extra: &[(&str, &str)]| {
        let mut all = base.to_vec();
        all.extend_from_slice(extra);
        MysqlStore::open(&config(&all))
    };
    assert_eq!(
        with(&[("store.db.port", "70000"), ("store.db.timeout", "soon")]),
        Err(StoreError::Config(ConfigError::Invalid {
            key: "store.db.timeout".to_string(),
            value: "soon".to_string()
        }))
    );
    assert_eq!(
        with(&[("store.db.port", "70000")]),
        Err(StoreError::Config(ConfigError::Invalid {
            key: "store.db.port".to_string(),
            value: "70000".to_string()
        }))
    );
    assert_eq!(
        with(&[("store.db.pool.min-connections", "6"), ("store.db.pool.max-connections", "5")]),
        Err(StoreError::Config(ConfigError::OutOfRange {
            key: "store.db.pool.min-connections".to_string()
        }))
    );
    let too_small = Err(StoreError::Config(ConfigError::OutOfRange {
        key: "store.db.pool.max-connections".to_string(),
    }));
    assert_eq!(with(&[("store.db.pool.max-connections", "0")]), too_small);
    assert_eq!(
        with(&[("store.db.pool.min-connections", "0"), ("store.db.pool.max-connections", "0")]),
        too_small
    );
    assert_eq!(
        with(&[("store.db.pool.min-connections", "3"), ("store.db.pool.max-connections", "0")]),
        too_small
    );
    assert_eq!(
        with(&[("store.db.pool.min-connections", "11")]),
        Err(StoreError::Config(ConfigError::OutOfRange {
            key: "store.db.pool.min-connections".to_string()
        }))
    );
    assert_eq!(
        with(&[("store.db.pool.min-connections", "x"), ("store.db.pool.max-connections", "0")]),
        Err(StoreError::Config(ConfigError::Invalid {
            key: "store.db.pool.min-connections".to_string(),
            value: "x".to_string()
        }))
    );
    assert!(with(&[("store.db.pool.min-connections", "5"), ("store.db.pool.max-connections", "5")]).is_ok());
    let e = MysqlStore::open(&Config::new()).unwrap_err();
    assert!(e.is_fatal());
    assert!(!e.is_retryable());
}

#[test]
fn schema_statements_create_one_table_for_each_subspace() {
    let expected = vec![
        "CREATE TABLE IF NOT EXISTS v (k TINYBLOB, v MEDIUMBLOB NOT NULL, PRIMARY KEY (k(255))) ENGINE=InnoDB",
        "CREATE TABLE IF NOT EXISTS l (k TINYBLOB, v MEDIUMBLOB NOT NULL, PRIMARY KEY (k(255))) ENGINE=InnoDB",
        "CREATE TABLE IF NOT EXISTS d (k TINYBLOB, v MEDIUMBLOB NOT NULL, PRIMARY KEY (k(255))) ENGINE=InnoDB",
        "CREATE TABLE IF NOT EXISTS t (k TINYBLOB, v LONGBLOB NOT NULL, PRIMARY KEY (k(255))) ENGINE=InnoDB",
        "CREATE TABLE IF NOT EXISTS i (k BLOB, PRIMARY KEY (k(400))) ENGINE=InnoDB",
        "CREATE TABLE IF NOT EXISTS b (k BLOB, PRIMARY KEY (k(400))) ENGINE=InnoDB",
        "CREATE TABLE IF NOT EXISTS o (k BLOB, PRIMARY KEY (k(400))) ENGINE=InnoDB",
        "CREATE TABLE IF NOT EXISTS c (k TINYBLOB, v BIGINT NOT NULL DEFAULT 0, PRIMARY KEY (k(255))) ENGINE=InnoDB",
    ];
    assert_eq!(schema_statements(), expected);
    let c = config(&[("store.db.host", "h"), ("store.db.database", "d")]);
    assert_eq!(MysqlStore::open(&c).unwrap().create_tables(), expected);
    assert_eq!(create_table_statement(Subspace::Counters), expected[7]);
    let failed = MysqlStore::provisioning_failed(expected[0], "ERROR 42000 (1044): Access denied");
    assert_eq!(
        failed,
        StoreError::Provisioning {
            statement: expected[0].to_string(),
            reason: "ERROR 42000 (1044): Access denied".to_string(),
        }
    );
    assert!(failed.is_fatal());
}

#[test]
fn mysql_pool_with_only_an_upper_bound_opens() {
    let open = |max: &str| {
        let c = config(&[
            ("store.db.host", "h"),
            ("store.db.database", "d"),
            ("store.db.pool.max-connections", max),
        ]);
        let s = MysqlStore::open(&c).unwrap().settings;
        (s.pool_min, s.pool_max)
    };
    assert_eq!(open("5"), (5, 5));
    assert_eq!(open("1"), (1, 1));
    assert_eq!(open("9"), (9, 9));
    assert_eq!(open("10"), (10, 10));
    assert_eq!(open("11"), (10, 11));
    assert_eq!(open("100"), (10, 100));
    let c = config(&[
        ("store.db.host", "h"),
        ("store.db.database", "d"),
        ("store.db.pool.min-connections", "0"),
        ("store.db.pool.max-connections", "5"),
    ]);
    let s = MysqlStore::open(&c).unwrap().settings;
    assert_eq!((s.pool_min, s.pool_max), (0, 5));
    let c = config(&[
        ("store.db.host", "h"),
        ("store.db.database", "d"),
        ("store.db.pool.min-connections", "2"),
    ]);
    let s = MysqlStore::open(&c).unwrap().settings;
    assert_eq!((s.pool_min, s.pool_max), (2, 10));
}

#[test]
fn mysql_failures_say_whether_to_try_again() {
    let kind = |f: MysqlFailure| MysqlStore::connection_failed(f);
    assert_eq!(kind(MysqlFailure::TimedOut), StoreError::Connectivity(Connectivity::ConnectTimeout));
    assert_eq!(kind(MysqlFailure::Io), StoreError::Connectivity(Connectivity::ConnectionLost));
    assert_eq!(
        kind(MysqlFailure::ConnectionClosed),
        StoreError::Connectivity(Connectivity::ConnectionLost)
    );
    assert_eq!(
        kind(MysqlFailure::PoolDisconnected),
        StoreError::Connectivity(Connectivity::Unavailable)
    );
    assert_eq!(
        kind(MysqlFailure::Server { code: 1040 }),
        StoreError::Connectivity(Connectivity::PoolExhausted)
    );
    assert_eq!(
        kind(MysqlFailure::Server { code: 1203 }),
        StoreError::Connectivity(Connectivity::PoolExhausted)
    );
    assert_eq!(
        kind(MysqlFailure::Server { code: 1045 }),
        StoreError::Connectivity(Connectivity::Unavailable)
    );
    assert_eq!(kind(MysqlFailure::Other), StoreError::Connectivity(Connectivity::Unavailable));
    assert!(kind(MysqlFailure::TimedOut).is_retryable());
    assert!(kind(MysqlFailure::Server { code: 1040 }).is_retryable());
    assert!(!kind(MysqlFailure::PoolDisconnected).is_retryable());
    assert!(!kind(MysqlFailure::Io).is_fatal());
}
