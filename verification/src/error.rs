//! Errors of configuration, with the key or value that caused each, and
//! errors of the store.

use vstd::prelude::*;
use vstd::string::StringExecFns;

verus! {

/// The text of `s` as the standard library prints a string for debugging:
/// between double quotes, with the characters that cannot stand there as
/// they are written as escapes.
pub uninterp spec fn debug_text(s: Seq<char>) -> Seq<char>;

/// `Debug` for `str` of the standard library, reached through `format!`
/// with `{:?}`: the text between double quotes, escaped. The result depends
/// on the text alone.
#[verifier::external_body]
fn quoted(s: &str) -> (r: String)
    ensures
        r@ == debug_text(s@),
{
    format!("{:?}", s)
}

/// The sentence that reports a directory type that is not known, where
/// `quoted_type` is the type as it is printed for debugging.
pub fn unknown_type_message(quoted_type: &str) -> (s: String)
    ensures
        s@ == "Unknown directory type: "@ + quoted_type@,
{
    String::from_str("Unknown directory type: ").concat(quoted_type)
}

/// The sentence that reports a file that could not be read, where
/// `quoted_path` is its path as it is printed for debugging.
pub fn unreadable_file_message(quoted_path: &str, list: &str, reason: &str) -> (s: String)
    ensures
        s@ == "Failed to read file "@ + quoted_path@ + " for list "@ + list@ + ": "@ + reason@,
{
    String::from_str("Failed to read file ").concat(quoted_path).concat(" for list ").concat(
        list,
    ).concat(": ").concat(reason)
}

/// Why a configuration was refused.
#[derive(Debug, Clone, PartialEq, Eq)]
pub enum ConfigError {
    /// A required key has no value.
    Missing { key: String },
    /// The value under a key cannot be read as what the key stands for.
    Invalid { key: String, value: String },
    /// The value under a key can be read, but is not one that the key admits.
    OutOfRange { key: String },
    /// A directory names a type that is not known.
    UnknownDirectoryType { value: String },
    /// A file that a lookup list refers to could not be read.
    UnreadableFile { path: String, list: String, reason: String },
}

/// What a `ConfigError` says, as sequences of characters.
pub enum ConfigFault {
    Missing { key: Seq<char> },
    Invalid { key: Seq<char>, value: Seq<char> },
    OutOfRange { key: Seq<char> },
    UnknownDirectoryType { value: Seq<char> },
    UnreadableFile { path: Seq<char>, list: Seq<char>, reason: Seq<char> },
}

impl View for ConfigError {
    type V = ConfigFault;

    open spec fn view(&self) -> ConfigFault {
        match self {
            ConfigError::Missing { key } => ConfigFault::Missing { key: key@ },
            ConfigError::Invalid { key, value } => ConfigFault::Invalid {
                key: key@,
                value: value@,
            },
            ConfigError::OutOfRange { key } => ConfigFault::OutOfRange { key: key@ },
            ConfigError::UnknownDirectoryType { value } => ConfigFault::UnknownDirectoryType {
                value: value@,
            },
            ConfigError::UnreadableFile { path, list, reason } => ConfigFault::UnreadableFile {
                path: path@,
                list: list@,
                reason: reason@,
            },
        }
    }
}

impl ConfigFault {
    /// The sentence that reports this fault. The type of a directory and the
    /// path of a file are written as they are printed for debugging.
    pub open spec fn message(self) -> Seq<char> {
        match self {
            ConfigFault::Missing { key } => "Missing property "@ + key,
            ConfigFault::Invalid { key, value } => "Invalid value "@ + value + " for property "@
                + key,
            ConfigFault::OutOfRange { key } => "Value out of range for property "@ + key,
            ConfigFault::UnknownDirectoryType { value } => "Unknown directory type: "@
                + debug_text(value),
            ConfigFault::UnreadableFile { path, list, reason } => "Failed to read file "@
                + debug_text(path) + " for list "@ + list + ": "@ + reason,
        }
    }
}

impl ConfigError {
    /// The sentence that reports this error, naming the key or value at fault.
    pub fn message(&self) -> (s: String)
        ensures
            s@ == self@.message(),
    {
        match self {
            ConfigError::Missing { key } => String::from_str("Missing property ").concat(
                key.as_str(),
            ),
            ConfigError::Invalid { key, value } => String::from_str("Invalid value ").concat(
                value.as_str(),
            ).concat(" for property ").concat(key.as_str()),
            ConfigError::OutOfRange { key } => String::from_str(
                "Value out of range for property ",
            ).concat(key.as_str()),
            ConfigError::UnknownDirectoryType { value } => {
                let shown = quoted(value.as_str());
                unknown_type_message(shown.as_str())
            },
            ConfigError::UnreadableFile { path, list, reason } => {
                let shown = quoted(path.as_str());
                unreadable_file_message(shown.as_str(), list.as_str(), reason.as_str())
            },
        }
    }
}

/// Why a key or value does not fit the subspace it was meant for.
#[derive(Debug, Clone, Copy, PartialEq, Eq, Structural)]
pub enum CapacityError {
    /// The key is longer than the subspace's keys may be.
    KeyTooLong,
    /// The value is longer than the subspace's values may be.
    ValueTooLong,
    /// The subspace holds counters, which change by increments only.
    CounterWrite,
    /// The counter would leave the range of a signed 64-bit integer.
    CounterRange,
}

/// How reaching the backend failed.
#[derive(Debug, Clone, Copy, PartialEq, Eq, Structural)]
pub enum Connectivity {
    /// No connection became free within the connect timeout.
    PoolExhausted,
    /// A new connection could not be made within the connect timeout.
    ConnectTimeout,
    /// The connection was lost while the operation ran.
    ConnectionLost,
    /// The backend reported that it cannot serve.
    Unavailable,
}

impl Connectivity {
    /// Whether the operation may succeed when it is tried again.
    pub open spec fn spec_retryable(self) -> bool {
        !(self is Unavailable)
    }

    /// Whether the operation may succeed when it is tried again.
    #[verifier::when_used_as_spec(spec_retryable)]
    pub fn retryable(self) -> (r: bool)
        ensures
            r == self.spec_retryable(),
    {
        match self {
            Connectivity::Unavailable => false,
            _ => true,
        }
    }
}

/// Why the store did not do what it was asked.
#[derive(Debug, Clone, PartialEq, Eq)]
pub enum StoreError {
    /// A setting is missing or invalid. The store does not open.
    Config(ConfigError),
    /// The schema could not be provisioned: the backend refused the
    /// statement for the reason it gave. The store does not open.
    Provisioning { statement: String, reason: String },
    /// The backend could not be reached.
    Connectivity(Connectivity),
    /// A key or value exceeds what its subspace holds.
    Capacity(CapacityError),
}

/// What a `StoreError` says.
pub enum StoreFault {
    Config(ConfigFault),
    Provisioning { statement: Seq<char>, reason: Seq<char> },
    Connectivity(Connectivity),
    Capacity(CapacityError),
}

impl View for StoreError {
    type V = StoreFault;

    open spec fn view(&self) -> StoreFault {
        match self {
            StoreError::Config(e) => StoreFault::Config(e@),
            StoreError::Provisioning { statement, reason } => StoreFault::Provisioning {
                statement: statement@,
                reason: reason@,
            },
            StoreError::Connectivity(c) => StoreFault::Connectivity(*c),
            StoreError::Capacity(c) => StoreFault::Capacity(*c),
        }
    }
}

impl StoreFault {
    /// Whether the fault ends start-up: a store that met it was not opened.
    pub open spec fn fatal(self) -> bool {
        self is Config || self is Provisioning
    }

    /// Whether the caller may try the operation again.
    pub open spec fn retryable(self) -> bool {
        match self {
            StoreFault::Connectivity(c) => c.spec_retryable(),
            _ => false,
        }
    }
}

impl StoreError {
    /// Whether the error ends start-up.
    pub fn is_fatal(&self) -> (r: bool)
        ensures
            r == self@.fatal(),
    {
        match self {
            StoreError::Config(_) => true,
            StoreError::Provisioning { .. } => true,
            _ => false,
        }
    }

    /// Whether the caller may try the operation again.
    pub fn is_retryable(&self) -> (r: bool)
        ensures
            r == self@.retryable(),
    {
        match self {
            StoreError::Connectivity(c) => c.retryable(),
            _ => false,
        }
    }
}

} // verus!
