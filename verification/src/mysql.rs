//! The relational adapter for MySQL: the connection settings that a
//! configuration gives, and the statements that provision one table for each
//! subspace of the registry.
//!
//! Nothing here talks to a server. Opening yields the settings to connect
//! with and the statements to run, in order, before the store is used.

use crate::config::{lookup, property_of, Config};
use crate::error::{ConfigError, ConfigFault, Connectivity, StoreError, StoreFault};
use crate::subspace::{KeyKind, Subspace, ValueKind, SUBSPACE_COUNT};
use vstd::prelude::*;
use vstd::string::StringExecFns;

verus! {

/// `PoolConstraints::default` of `mysql_async`, read through its `min`: a
/// pool of which nothing else is said keeps at least ten connections.
#[verifier::external_body]
fn default_pool_min() -> (r: usize)
    ensures
        r == 10,
{
    mysql_async::PoolConstraints::default().min()
}

/// `PoolConstraints::new` of `mysql_async`, read through its `min` and `max`:
/// the two bounds are accepted, as they are, where the lower is no greater
/// than the upper, and refused otherwise.
#[verifier::external_body]
fn pool_bounds(min: usize, max: usize) -> (r: Option<(usize, usize)>)
    ensures
        r == (if min <= max {
            Some((min, max))
        } else {
            None
        }),
{
    match mysql_async::PoolConstraints::new(min, max) {
        Some(c) => Some((c.min(), c.max())),
        None => None,
    }
}

/// What it takes to connect to the database.
#[derive(Debug, Clone, PartialEq, Eq)]
pub struct MysqlSettings {
    pub host: String,
    pub user: Option<String>,
    pub password: Option<String>,
    pub database: String,
    /// Seconds after which the server closes an idle connection.
    pub wait_timeout: Option<usize>,
    pub port: Option<u16>,
    /// The least number of connections that the pool keeps.
    pub pool_min: usize,
    /// The greatest number of connections that the pool holds.
    pub pool_max: usize,
}

/// What a `MysqlSettings` holds.
pub struct MysqlSettingsView {
    pub host: Seq<char>,
    pub user: Option<Seq<char>>,
    pub password: Option<Seq<char>>,
    pub database: Seq<char>,
    pub wait_timeout: Option<usize>,
    pub port: Option<u16>,
    pub pool_min: usize,
    pub pool_max: usize,
}

/// The text that an optional string holds.
pub open spec fn optional_text(s: Option<String>) -> Option<Seq<char>> {
    match s {
        Some(t) => Some(t@),
        None => None,
    }
}

impl View for MysqlSettings {
    type V = MysqlSettingsView;

    open spec fn view(&self) -> MysqlSettingsView {
        MysqlSettingsView {
            host: self.host@,
            user: optional_text(self.user),
            password: optional_text(self.password),
            database: self.database@,
            wait_timeout: self.wait_timeout,
            port: self.port,
            pool_min: self.pool_min,
            pool_max: self.pool_max,
        }
    }
}

/// The number under `key`, or `default` where the key has no value.
pub open spec fn bound_of(e: Seq<(Seq<char>, Seq<char>)>, key: Seq<char>, default: usize)
    -> Result<usize, ConfigFault> {
    match property_of::<usize>(e, key) {
        Err(f) => Err(f),
        Ok(Some(n)) => Ok(n),
        Ok(None) => Ok(default),
    }
}

/// The greatest number of connections of a pool of which the settings say
/// nothing.
pub const DEFAULT_POOL_MAX: usize = 10;

/// The least number of connections that a pool keeps of which the settings
/// say nothing, where it may hold that many: the lower bound that
/// `mysql_async` gives a pool by default.
pub const DEFAULT_POOL_MIN: usize = 10;

/// The two bounds of the pool. The upper bound is `max`, which must not be
/// zero. The lower bound is the one that was set, which must not exceed the
/// upper; where none was set it is the default, or the upper bound where
/// that is less. The upper bound is judged first.
pub open spec fn pool_bounds_of(min: Option<usize>, max: usize) -> Result<
    (usize, usize),
    ConfigFault,
> {
    if max == 0 {
        Err(ConfigFault::OutOfRange { key: "store.db.pool.max-connections"@ })
    } else {
        match min {
            Some(n) => if n > max {
                Err(ConfigFault::OutOfRange { key: "store.db.pool.min-connections"@ })
            } else {
                Ok((n, max))
            },
            None => if DEFAULT_POOL_MIN <= max {
                Ok((DEFAULT_POOL_MIN, max))
            } else {
                Ok((max, max))
            },
        }
    }
}

/// The connection settings that a configuration gives. Host and database
/// are required. The pool holds at most ten connections unless the settings
/// say otherwise. The settings are read in the order: host, database,
/// timeout, port, lower bound, upper bound; the first that is missing or
/// cannot be read is the fault, and after them a bound that is out of range.
pub open spec fn mysql_settings(e: Seq<(Seq<char>, Seq<char>)>) -> Result<
    MysqlSettingsView,
    ConfigFault,
> {
    match lookup(e, "store.db.host"@) {
        None => Err(ConfigFault::Missing { key: "store.db.host"@ }),
        Some(host) => match lookup(e, "store.db.database"@) {
            None => Err(ConfigFault::Missing { key: "store.db.database"@ }),
            Some(database) => match property_of::<usize>(e, "store.db.timeout"@) {
                Err(f) => Err(f),
                Ok(wait_timeout) => match property_of::<u16>(e, "store.db.port"@) {
                    Err(f) => Err(f),
                    Ok(port) => match property_of::<usize>(e, "store.db.pool.min-connections"@) {
                        Err(f) => Err(f),
                        Ok(min) => match bound_of(
                            e,
                            "store.db.pool.max-connections"@,
                            DEFAULT_POOL_MAX,
                        ) {
                            Err(f) => Err(f),
                            Ok(max) => match pool_bounds_of(min, max) {
                                Err(f) => Err(f),
                                Ok(bounds) => Ok(
                                    MysqlSettingsView {
                                        host,
                                        user: lookup(e, "store.db.user"@),
                                        password: lookup(e, "store.db.password"@),
                                        database,
                                        wait_timeout,
                                        port,
                                        pool_min: bounds.0,
                                        pool_max: bounds.1,
                                    },
                                ),
                            },
                        },
                    },
                },
            },
        },
    }
}

/// The value under `key` as an owned string, where the key has one.
fn owned_value(config: &Config, key: &str) -> (r: Option<String>)
    ensures
        optional_text(r) == lookup(config@, key@),
{
    match config.value(key) {
        Some(v) => Some(String::from_str(v)),
        None => None,
    }
}

/// Reads a pool bound.
fn read_bound(config: &Config, key: &str, default: usize) -> (r: Result<usize, ConfigError>)
    ensures
        r matches Ok(n) ==> bound_of(config@, key@, default) == Ok::<usize, ConfigFault>(n),
        r matches Err(e) ==> bound_of(config@, key@, default) == Err::<usize, ConfigFault>(e@),
{
    match config.property::<usize>(key) {
        Err(e) => Err(e),
        Ok(Some(n)) => Ok(n),
        Ok(None) => Ok(default),
    }
}

impl MysqlSettings {
    /// Reads the connection settings below `store.db`.
    pub fn from_config(config: &Config) -> (r: Result<MysqlSettings, ConfigError>)
        ensures
            r matches Ok(s) ==> mysql_settings(config@) == Ok::<MysqlSettingsView, ConfigFault>(
                s@,
            ) && s.pool_min <= s.pool_max && s.pool_max > 0,
            r matches Err(e) ==> mysql_settings(config@) == Err::<MysqlSettingsView, ConfigFault>(
                e@,
            ),
    {
        let host = match config.value_require("store.db.host") {
            Ok(v) => String::from_str(v),
            Err(e) => {
                return Err(e);
            },
        };
        let user = owned_value(config, "store.db.user");
        let password = owned_value(config, "store.db.password");
        let database = match config.value_require("store.db.database") {
            Ok(v) => String::from_str(v),
            Err(e) => {
                return Err(e);
            },
        };
        let wait_timeout = match config.property::<usize>("store.db.timeout") {
            Ok(t) => t,
            Err(e) => {
                return Err(e);
            },
        };
        let port = match config.property::<u16>("store.db.port") {
            Ok(p) => p,
            Err(e) => {
                return Err(e);
            },
        };
        let set_min = match config.property::<usize>("store.db.pool.min-connections") {
            Ok(n) => n,
            Err(e) => {
                return Err(e);
            },
        };
        let max = match read_bound(config, "store.db.pool.max-connections", DEFAULT_POOL_MAX) {
            Ok(n) => n,
            Err(e) => {
                return Err(e);
            },
        };
        if max == 0 {
            return Err(
                ConfigError::OutOfRange { key: String::from_str("store.db.pool.max-connections") },
            );
        }
        let min = match set_min {
            Some(n) => n,
            None => {
                let default = default_pool_min();
                if default <= max {
                    default
                } else {
                    max
                }
            },
        };
        match pool_bounds(min, max) {
            Some((pool_min, pool_max)) => Ok(
                MysqlSettings {
                    host,
                    user,
                    password,
                    database,
                    wait_timeout,
                    port,
                    pool_min,
                    pool_max,
                },
            ),
            None => Err(
                ConfigError::OutOfRange { key: String::from_str("store.db.pool.min-connections") },
            ),
        }
    }
}

/// A pool of which only the upper bound is set holds that many connections
/// at most, and the store opens: a lower bound that was not set never
/// exceeds the upper.
pub proof fn lemma_unset_lower_bound(max: usize)
    requires
        max > 0,
    ensures
        pool_bounds_of(None, max) is Ok,
        pool_bounds_of(None, max)->Ok_0.1 == max,
        pool_bounds_of(None, max)->Ok_0.0 <= max,
{
}

/// A pool that may hold no connection is refused, whatever its lower bound,
/// and the fault names the upper bound.
pub proof fn lemma_empty_pool_refused(min: Option<usize>)
    ensures
        pool_bounds_of(min, 0) == Err::<(usize, usize), ConfigFault>(
            ConfigFault::OutOfRange { key: "store.db.pool.max-connections"@ },
        ),
{
}

/// A configuration that names host and database and sets of the pool only
/// the upper bound, to a number above zero, gives settings with that upper
/// bound.
pub proof fn lemma_upper_bound_alone(e: Seq<(Seq<char>, Seq<char>)>, max: usize)
    requires
        lookup(e, "store.db.host"@) is Some,
        lookup(e, "store.db.database"@) is Some,
        property_of::<usize>(e, "store.db.timeout"@) is Ok,
        property_of::<u16>(e, "store.db.port"@) is Ok,
        lookup(e, "store.db.pool.min-connections"@) is None,
        property_of::<usize>(e, "store.db.pool.max-connections"@) == Ok::<
            Option<usize>,
            ConfigFault,
        >(Some(max)),
        max > 0,
    ensures
        mysql_settings(e) is Ok,
        mysql_settings(e)->Ok_0.pool_max == max,
        mysql_settings(e)->Ok_0.pool_min <= max,
{
    lemma_unset_lower_bound(max);
}

/// The column that holds the keys of a table.
pub open spec fn key_column(k: KeyKind) -> Seq<char> {
    match k {
        KeyKind::Short => "k TINYBLOB"@,
        KeyKind::Long => "k BLOB"@,
    }
}

/// The column that holds the values of a table, if it has one.
pub open spec fn value_column(v: ValueKind) -> Seq<char> {
    match v {
        ValueKind::Absent => ""@,
        ValueKind::Medium => ", v MEDIUMBLOB NOT NULL"@,
        ValueKind::Large => ", v LONGBLOB NOT NULL"@,
        ValueKind::Counter => ", v BIGINT NOT NULL DEFAULT 0"@,
    }
}

/// The statement that creates the table of a subspace unless it exists: the
/// table is named by the subspace's identifier, its key column and the
/// length that the primary key covers follow the bound on the keys, and its
/// value column follows the kind of the values.
pub open spec fn create_table(s: Subspace) -> Seq<char> {
    "CREATE TABLE IF NOT EXISTS "@.push(s.id() as char) + " ("@ + key_column(s.shape().key_kind)
        + value_column(s.shape().value_kind) + ", PRIMARY KEY (k("@
        + s.shape().key_kind.bound_text() + "))) ENGINE=InnoDB"@
}

/// The statement that creates the table of `s` unless it exists.
pub fn create_table_statement(s: Subspace) -> (r: String)
    ensures
        r@ == create_table(s),
{
    let schema = s.schema();
    let mut r = String::from_str("CREATE TABLE IF NOT EXISTS ");
    r.push(s.table_name());
    r.append(" (");
    r.append(
        match schema.key_kind {
            KeyKind::Short => "k TINYBLOB",
            KeyKind::Long => "k BLOB",
        },
    );
    r.append(
        match schema.value_kind {
            ValueKind::Absent => "",
            ValueKind::Medium => ", v MEDIUMBLOB NOT NULL",
            ValueKind::Large => ", v LONGBLOB NOT NULL",
            ValueKind::Counter => ", v BIGINT NOT NULL DEFAULT 0",
        },
    );
    r.append(", PRIMARY KEY (k(");
    proof {
        reveal_strlit("255");
        reveal_strlit("400");
        assert("255"@ =~= seq!['2', '5', '5']);
        assert("400"@ =~= seq!['4', '0', '0']);
    }
    r.append(
        match schema.key_kind {
            KeyKind::Short => "255",
            KeyKind::Long => "400",
        },
    );
    r.append("))) ENGINE=InnoDB");
    r
}

/// The statements that provision the schema, one for each subspace, in the
/// order of provisioning.
pub fn schema_statements() -> (r: Vec<String>)
    ensures
        r@.len() == SUBSPACE_COUNT,
        forall|s: Subspace| #[trigger] r@[s.rank() as int]@ == create_table(s),
{
    let mut r: Vec<String> = Vec::new();
    let mut i: usize = 0;
    while i < SUBSPACE_COUNT
        invariant
            i <= SUBSPACE_COUNT,
            r@.len() == i,
            forall|s: Subspace| s.rank() < i ==> #[trigger] r@[s.rank() as int]@ == create_table(s),
        decreases SUBSPACE_COUNT - i,
    {
        if let Some(s) = Subspace::at(i) {
            r.push(create_table_statement(s));
            proof {
                assert forall|t: Subspace| t.rank() < i + 1 implies #[trigger] r@[t.rank() as int]@
                    == create_table(t) by {
                    if t.rank() == i {
                        crate::subspace::lemma_rank_unique(s, t);
                    }
                }
            }
        }
        i += 1;
    }
    proof {
        assert forall|s: Subspace| #[trigger] r@[s.rank() as int]@ == create_table(s) by {
            crate::subspace::lemma_rank_unique(s, s);
        }
    }
    r
}

/// Every provisioning statement creates its table only if the table does not
/// exist, so running it again changes nothing.
pub proof fn lemma_create_if_absent(s: Subspace)
    ensures
        "CREATE TABLE IF NOT EXISTS "@.is_prefix_of(create_table(s)),
        create_table(s)["CREATE TABLE IF NOT EXISTS "@.len() as int] == s.id() as char,
{
    let head = "CREATE TABLE IF NOT EXISTS "@;
    let named = head.push(s.id() as char);
    let a = named + " ("@;
    let b = a + key_column(s.shape().key_kind);
    let c = b + value_column(s.shape().value_kind);
    let d = c + ", PRIMARY KEY (k("@;
    let e = d + s.shape().key_kind.bound_text();
    let f = e + "))) ENGINE=InnoDB"@;
    assert(f == create_table(s));
    assert(head =~= f.subrange(0, head.len() as int));
    assert(f[head.len() as int] == named[head.len() as int]);
}

/// A MySQL store that is ready to be connected, with the settings to
/// connect with.
#[derive(Debug, Clone, PartialEq, Eq)]
pub struct MysqlStore {
    pub settings: MysqlSettings,
}

impl MysqlStore {
    /// Opens the store that a configuration describes. A setting that is
    /// missing or invalid is reported with its key, and no store is returned.
    pub fn open(config: &Config) -> (r: Result<MysqlStore, StoreError>)
        ensures
            r matches Ok(store) ==> mysql_settings(config@) == Ok::<
                MysqlSettingsView,
                ConfigFault,
            >(store.settings@) && store.settings.pool_min <= store.settings.pool_max
                && store.settings.pool_max > 0,
            r matches Err(e) ==> e@ is Config && mysql_settings(config@) == Err::<
                MysqlSettingsView,
                ConfigFault,
            >(e@->Config_0),
    {
        match MysqlSettings::from_config(config) {
            Ok(settings) => Ok(MysqlStore { settings }),
            Err(e) => Err(StoreError::Config(e)),
        }
    }

    /// The statements that provision the schema of the store, to be run in
    /// order before the store is used.
    pub fn create_tables(&self) -> (r: Vec<String>)
        ensures
            r@.len() == SUBSPACE_COUNT,
            forall|s: Subspace| #[trigger] r@[s.rank() as int]@ == create_table(s),
    {
        schema_statements()
    }

    /// The error of a provisioning statement that the server refused, with
    /// the reason that the server gave.
    pub fn provisioning_failed(statement: &str, reason: &str) -> (e: StoreError)
        ensures
            e@ == (StoreFault::Provisioning { statement: statement@, reason: reason@ }),
            e@.fatal(),
    {
        StoreError::Provisioning {
            statement: String::from_str(statement),
            reason: String::from_str(reason),
        }
    }

    /// The error of a request that did not reach the server or that the
    /// server did not take.
    pub fn connection_failed(failure: MysqlFailure) -> (e: StoreError)
        ensures
            e@ == StoreFault::Connectivity(connectivity_of(failure)),
            !e@.fatal(),
    {
        let kind = match failure {
            MysqlFailure::TimedOut => Connectivity::ConnectTimeout,
            MysqlFailure::Io => Connectivity::ConnectionLost,
            MysqlFailure::ConnectionClosed => Connectivity::ConnectionLost,
            MysqlFailure::PoolDisconnected => Connectivity::Unavailable,
            MysqlFailure::Server { code } => if code == ER_CON_COUNT_ERROR || code
                == ER_TOO_MANY_USER_CONNECTIONS {
                Connectivity::PoolExhausted
            } else {
                Connectivity::Unavailable
            },
            MysqlFailure::Other => Connectivity::Unavailable,
        };
        StoreError::Connectivity(kind)
    }
}

/// How a request failed, as the driver tells it.
#[derive(Debug, Clone, Copy, PartialEq, Eq, Structural)]
pub enum MysqlFailure {
    /// Reading or writing took too long.
    TimedOut,
    /// Reading or writing failed otherwise.
    Io,
    /// The connection was closed.
    ConnectionClosed,
    /// The pool was shut down.
    PoolDisconnected,
    /// The server answered with an error of this code.
    Server { code: u16 },
    /// Anything else.
    Other,
}

/// The code with which the server refuses a connection because it has too
/// many.
pub const ER_CON_COUNT_ERROR: u16 = 1040;

/// The code with which the server refuses a connection because its user has
/// too many.
pub const ER_TOO_MANY_USER_CONNECTIONS: u16 = 1203;

/// What a failure means for the caller. A timeout, a lost or closed
/// connection and a server that has too many connections may pass, so the
/// request may be tried again; a pool that was shut down and every other
/// failure may not.
pub open spec fn connectivity_of(failure: MysqlFailure) -> Connectivity {
    match failure {
        MysqlFailure::TimedOut => Connectivity::ConnectTimeout,
        MysqlFailure::Io => Connectivity::ConnectionLost,
        MysqlFailure::ConnectionClosed => Connectivity::ConnectionLost,
        MysqlFailure::PoolDisconnected => Connectivity::Unavailable,
        MysqlFailure::Server { code } => if code == ER_CON_COUNT_ERROR || code
            == ER_TOO_MANY_USER_CONNECTIONS {
            Connectivity::PoolExhausted
        } else {
            Connectivity::Unavailable
        },
        MysqlFailure::Other => Connectivity::Unavailable,
    }
}

} // verus!
