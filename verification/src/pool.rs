//! Settings of a bounded pool of backend connections, read from a
//! configuration and checked before any pool is built from them.

use crate::config::{dotted, join_key, lookup, property_of, property_or, Config, Millis};
use crate::error::{ConfigError, ConfigFault};
use vstd::prelude::*;

verus! {

/// How a pool keeps its connections.
#[derive(Debug, Clone, Copy, PartialEq, Eq, Structural)]
pub struct PoolSettings {
    /// The number of idle connections that the pool tries to keep, if any.
    pub min_idle: Option<u32>,
    /// The greatest number of connections that the pool holds.
    pub max_size: u32,
    /// The age at which a connection is closed and replaced.
    pub max_lifetime: Millis,
    /// The time after which an idle connection is closed.
    pub idle_timeout: Millis,
    /// The time after which a checkout that got no connection fails.
    pub connection_timeout: Millis,
    /// Whether a connection is tested before it is handed out.
    pub test_on_check_out: bool,
}

impl PoolSettings {
    /// Settings that a pool can be built from: it holds at least one
    /// connection, no time span is zero, and it keeps no more connections
    /// idle than it holds.
    pub open spec fn valid(self) -> bool {
        &&& self.max_size > 0
        &&& self.max_lifetime.0 > 0
        &&& self.idle_timeout.0 > 0
        &&& self.connection_timeout.0 > 0
        &&& self.test_on_check_out
        &&& match self.min_idle {
            Some(n) => 0 < n <= self.max_size,
            None => true,
        }
    }
}

/// The key of the least number of idle connections.
pub open spec fn min_key(prefix: Seq<char>) -> Seq<char> {
    dotted(prefix, "pool.min-connections"@)
}

/// The key of the greatest number of connections.
pub open spec fn max_key(prefix: Seq<char>) -> Seq<char> {
    dotted(prefix, "pool.max-connections"@)
}

/// The key of the greatest age of a connection.
pub open spec fn lifetime_key(prefix: Seq<char>) -> Seq<char> {
    dotted(prefix, "pool.max-lifetime"@)
}

/// The key of the idle timeout.
pub open spec fn idle_key(prefix: Seq<char>) -> Seq<char> {
    dotted(prefix, "pool.idle-timeout"@)
}

/// The key of the connect timeout.
pub open spec fn connect_key(prefix: Seq<char>) -> Seq<char> {
    dotted(prefix, "pool.connect-timeout"@)
}

/// The number of idle connections to keep: none where the setting is absent
/// or zero.
pub open spec fn idle_of(min: Option<u32>) -> Option<u32> {
    match min {
        Some(n) => if n > 0 {
            Some(n)
        } else {
            None
        },
        None => None,
    }
}

/// A time span that must not be zero, read from under `key`.
pub open spec fn span_of(e: Seq<(Seq<char>, Seq<char>)>, key: Seq<char>, default: Seq<char>)
    -> Result<Millis, ConfigFault> {
    match property_or::<Millis>(e, key, default) {
        Err(f) => Err(f),
        Ok(span) => if span.0 == 0 {
            Err(ConfigFault::OutOfRange { key })
        } else {
            Ok(span)
        },
    }
}

/// The pool settings that the settings below `prefix` give. A pool holds ten
/// connections, replaces them after thirty minutes, closes them after ten
/// idle minutes and gives up a checkout after thirty seconds, unless the
/// settings say otherwise. The settings are read in the order: idle
/// connections, size, lifetime, idle timeout, connect timeout; the first
/// that cannot be read or is zero is the fault, and after them more idle
/// connections than the pool holds.
pub open spec fn pool_settings(e: Seq<(Seq<char>, Seq<char>)>, prefix: Seq<char>) -> Result<
    PoolSettings,
    ConfigFault,
> {
    match property_of::<u32>(e, min_key(prefix)) {
        Err(f) => Err(f),
        Ok(min) => match property_or::<u32>(e, max_key(prefix), "10"@) {
            Err(f) => Err(f),
            Ok(max_size) => if max_size == 0 {
                Err(ConfigFault::OutOfRange { key: max_key(prefix) })
            } else {
                match span_of(e, lifetime_key(prefix), "30m"@) {
                    Err(f) => Err(f),
                    Ok(max_lifetime) => match span_of(e, idle_key(prefix), "10m"@) {
                        Err(f) => Err(f),
                        Ok(idle_timeout) => match span_of(e, connect_key(prefix), "30s"@) {
                            Err(f) => Err(f),
                            Ok(connection_timeout) => match idle_of(min) {
                                Some(n) => if n > max_size {
                                    Err(ConfigFault::OutOfRange { key: min_key(prefix) })
                                } else {
                                    Ok(
                                        PoolSettings {
                                            min_idle: Some(n),
                                            max_size,
                                            max_lifetime,
                                            idle_timeout,
                                            connection_timeout,
                                            test_on_check_out: true,
                                        },
                                    )
                                },
                                None => Ok(
                                    PoolSettings {
                                        min_idle: None,
                                        max_size,
                                        max_lifetime,
                                        idle_timeout,
                                        connection_timeout,
                                        test_on_check_out: true,
                                    },
                                ),
                            },
                        },
                    },
                }
            },
        },
    }
}

/// Reads a time span that must not be zero.
fn read_span(config: &Config, key: String, default: &str) -> (r: Result<Millis, ConfigError>)
    ensures
        r matches Ok(m) ==> span_of(config@, key@, default@) == Ok::<Millis, ConfigFault>(m),
        r matches Err(e) ==> span_of(config@, key@, default@) == Err::<Millis, ConfigFault>(e@),
{
    match config.property_or_static::<Millis>(key.as_str(), default) {
        Err(e) => Err(e),
        Ok(span) => if span.0 == 0 {
            Err(ConfigError::OutOfRange { key })
        } else {
            Ok(span)
        },
    }
}

/// Reads the settings of the pool below `prefix`. What it returns, a pool
/// can be built from.
pub fn build_pool(config: &Config, prefix: &str) -> (r: Result<PoolSettings, ConfigError>)
    ensures
        r matches Ok(s) ==> pool_settings(config@, prefix@) == Ok::<PoolSettings, ConfigFault>(s)
            && s.valid(),
        r matches Err(e) ==> pool_settings(config@, prefix@) == Err::<PoolSettings, ConfigFault>(
            e@,
        ),
{
    let min_key = join_key(prefix, "pool.min-connections");
    let min = match config.property::<u32>(min_key.as_str()) {
        Ok(m) => m,
        Err(e) => {
            return Err(e);
        },
    };
    let max_key = join_key(prefix, "pool.max-connections");
    let max_size = match config.property_or_static::<u32>(max_key.as_str(), "10") {
        Ok(m) => m,
        Err(e) => {
            return Err(e);
        },
    };
    if max_size == 0 {
        return Err(ConfigError::OutOfRange { key: max_key });
    }
    let max_lifetime = match read_span(config, join_key(prefix, "pool.max-lifetime"), "30m") {
        Ok(m) => m,
        Err(e) => {
            return Err(e);
        },
    };
    let idle_timeout = match read_span(config, join_key(prefix, "pool.idle-timeout"), "10m") {
        Ok(m) => m,
        Err(e) => {
            return Err(e);
        },
    };
    let connection_timeout = match read_span(
        config,
        join_key(prefix, "pool.connect-timeout"),
        "30s",
    ) {
        Ok(m) => m,
        Err(e) => {
            return Err(e);
        },
    };
    let min_idle = match min {
        Some(n) => if n > 0 {
            Some(n)
        } else {
            None
        },
        None => None,
    };
    if let Some(n) = min_idle {
        if n > max_size {
            return Err(ConfigError::OutOfRange { key: min_key });
        }
    }
    Ok(
        PoolSettings {
            min_idle,
            max_size,
            max_lifetime,
            idle_timeout,
            connection_timeout,
            test_on_check_out: true,
        },
    )
}

/// The settings of a pool of which the configuration says nothing.
pub open spec fn default_pool() -> PoolSettings {
    PoolSettings {
        min_idle: None,
        max_size: 10,
        max_lifetime: Millis(1_800_000),
        idle_timeout: Millis(600_000),
        connection_timeout: Millis(30_000),
        test_on_check_out: true,
    }
}

/// What the text of a default writes: a two-digit number and a unit.
proof fn lemma_two_digits(s: Seq<char>, a: char, b: char, unit: Seq<char>)
    requires
        s == seq![a, b] + unit,
        crate::text::is_digit(a),
        crate::text::is_digit(b),
        unit.len() > 0 ==> !crate::text::is_digit(unit[0]),
    ensures
        crate::config::digits_len(s) == 2,
        crate::text::decimal_u64(s.take(2)) == Some(
            (crate::text::digit_value(a) * 10 + crate::text::digit_value(b)) as u64,
        ),
        s.skip(2) == unit,
{
    let s1 = s.drop_first();
    let s2 = s1.drop_first();
    assert(s2 =~= unit);
    assert(s.skip(2) =~= unit);
    assert(s[0] == a && s1[0] == b);
    reveal_with_fuel(crate::config::digits_len, 3);
    let t = s.take(2);
    assert(t =~= seq![a, b]);
    let t1 = t.drop_last();
    assert(t1 =~= seq![a]);
    assert(t1.drop_last() =~= Seq::<char>::empty());
    reveal_with_fuel(crate::text::decimal_value, 3);
    assert(crate::text::decimal_value(t1.drop_last()) == 0);
    assert(crate::text::decimal_value(t1) == crate::text::digit_value(a));
    assert(crate::text::decimal_value(t) == crate::text::digit_value(a) * 10
        + crate::text::digit_value(b));
    assert(crate::text::all_digits(t));
}

/// Where none of the five settings is made, the pool has its defaults: ten
/// connections, thirty minutes of life, ten idle minutes, thirty seconds to
/// connect.
pub proof fn lemma_pool_defaults(e: Seq<(Seq<char>, Seq<char>)>, prefix: Seq<char>)
    requires
        lookup(e, min_key(prefix)) is None,
        lookup(e, max_key(prefix)) is None,
        lookup(e, lifetime_key(prefix)) is None,
        lookup(e, idle_key(prefix)) is None,
        lookup(e, connect_key(prefix)) is None,
    ensures
        pool_settings(e, prefix) == Ok::<PoolSettings, ConfigFault>(default_pool()),
        default_pool().valid(),
{
    reveal_strlit("10");
    reveal_strlit("30m");
    reveal_strlit("10m");
    reveal_strlit("30s");
    let none = Seq::<char>::empty();
    assert("10"@ =~= seq!['1', '0'] + none);
    assert("30m"@ =~= seq!['3', '0'] + seq!['m']);
    assert("10m"@ =~= seq!['1', '0'] + seq!['m']);
    assert("30s"@ =~= seq!['3', '0'] + seq!['s']);
    lemma_two_digits("10"@, '1', '0', none);
    lemma_two_digits("30m"@, '3', '0', seq!['m']);
    lemma_two_digits("10m"@, '1', '0', seq!['m']);
    lemma_two_digits("30s"@, '3', '0', seq!['s']);
    assert("10"@.take(2) =~= "10"@);
    assert(seq!['m'] != seq!['m', 's']) by {
        assert(seq!['m'].len() != seq!['m', 's'].len());
    }
    assert(seq!['s'] != seq!['m', 's']) by {
        assert(seq!['s'].len() != seq!['m', 's'].len());
    }
    assert(seq!['m'] != seq!['s']) by {
        assert(seq!['m'][0] != seq!['s'][0]);
    }
    assert(crate::config::unit_millis(seq!['m']) == Some(60_000nat));
    assert(crate::config::unit_millis(seq!['s']) == Some(1_000nat));
    assert(crate::text::digit_value('0') == 0 && crate::text::digit_value('1') == 1
        && crate::text::digit_value('3') == 3);
    assert(crate::text::decimal_u64("30m"@.take(2)) == Some(30u64));
    assert(crate::text::decimal_u64("10m"@.take(2)) == Some(10u64));
    assert(crate::text::decimal_u64("30s"@.take(2)) == Some(30u64));
    assert(crate::config::duration_millis("30m"@) == Some(1_800_000u64));
    assert(crate::config::duration_millis("10m"@) == Some(600_000u64));
    assert(crate::config::duration_millis("30s"@) == Some(30_000u64));
}

} // verus!
