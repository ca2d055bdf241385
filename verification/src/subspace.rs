//! The registry of subspaces: the fixed logical namespaces of the store,
//! each with a one-byte identifier and the shape of its keys and values.
//!
//! The identifier names the subspace wherever it is stored: as the name of
//! its table in a relational backend, as the first byte of its keys in an
//! ordered key-value backend. Every backend takes both from here.

use crate::error::CapacityError;
use crate::text::decimal_u64;
use vstd::prelude::*;

verus! {

/// A logical namespace of the store.
#[derive(Debug, Clone, Copy, Hash, PartialEq, Eq, Structural)]
pub enum Subspace {
    /// Key to value.
    Values,
    /// Key to value, with keys in the order of the events they record.
    Logs,
    /// Key of a secondary index to its payload.
    IndexValues,
    /// Keys alone: that a key is there states a fact.
    Indexes,
    /// Keys alone: that a key is there sets one bit of a bitmap.
    Bitmaps,
    /// Keys alone: that a fingerprint is there states that its blob is.
    Blobs,
    /// Fingerprint to the bytes of the blob.
    BlobData,
    /// Key to a signed 64-bit counter.
    Counters,
}

/// How long the keys of a subspace may be.
#[derive(Debug, Clone, Copy, Hash, PartialEq, Eq, Structural)]
pub enum KeyKind {
    /// Up to 255 bytes.
    Short,
    /// Up to 400 bytes, for the keys of the subspaces that hold keys alone.
    Long,
}

/// What the values of a subspace are.
#[derive(Debug, Clone, Copy, Hash, PartialEq, Eq, Structural)]
pub enum ValueKind {
    /// No value: the key is all there is.
    Absent,
    /// Bytes, fewer than 2^24 of them.
    Medium,
    /// Bytes, fewer than 2^32 of them.
    Large,
    /// A signed 64-bit integer that changes by increments.
    Counter,
}

/// The shape of a subspace.
#[derive(Debug, Clone, Copy, Hash, PartialEq, Eq, Structural)]
pub struct Schema {
    pub key_kind: KeyKind,
    pub value_kind: ValueKind,
}

/// The number of subspaces.
pub const SUBSPACE_COUNT: usize = 8;

/// The number of bytes that the stored form of a counter takes.
pub const COUNTER_WIDTH: usize = 8;

impl KeyKind {
    /// The greatest length of a key, in bytes.
    pub open spec fn bound(self) -> nat {
        match self {
            KeyKind::Short => 255,
            KeyKind::Long => 400,
        }
    }

    /// The greatest length of a key, written in decimal.
    pub open spec fn bound_text(self) -> Seq<char> {
        match self {
            KeyKind::Short => seq!['2', '5', '5'],
            KeyKind::Long => seq!['4', '0', '0'],
        }
    }

    /// The greatest length of a key, in bytes.
    pub fn max_len(self) -> (n: usize)
        ensures
            n == self.bound(),
    {
        match self {
            KeyKind::Short => 255,
            KeyKind::Long => 400,
        }
    }
}

impl ValueKind {
    /// The greatest length of a value that a caller may put, in bytes.
    pub open spec fn bound(self) -> nat {
        match self {
            ValueKind::Absent => 0,
            ValueKind::Medium => 0xff_ffff,
            ValueKind::Large => 0xffff_ffff,
            ValueKind::Counter => 0,
        }
    }

    /// The greatest length of a value that a caller may put, in bytes.
    pub fn max_len(self) -> (n: u64)
        ensures
            n == self.bound(),
    {
        match self {
            ValueKind::Absent => 0,
            ValueKind::Medium => 0xff_ffff,
            ValueKind::Large => 0xffff_ffff,
            ValueKind::Counter => 0,
        }
    }
}

impl Subspace {
    /// The one-byte identifier of a subspace, a lower-case letter.
    pub open spec fn id(self) -> u8 {
        match self {
            Subspace::Values => 0x76,
            Subspace::Logs => 0x6c,
            Subspace::IndexValues => 0x64,
            Subspace::Indexes => 0x69,
            Subspace::Bitmaps => 0x62,
            Subspace::Blobs => 0x6f,
            Subspace::BlobData => 0x74,
            Subspace::Counters => 0x63,
        }
    }

    /// The place of a subspace in the order in which they are provisioned.
    pub open spec fn rank(self) -> nat {
        match self {
            Subspace::Values => 0,
            Subspace::Logs => 1,
            Subspace::IndexValues => 2,
            Subspace::BlobData => 3,
            Subspace::Indexes => 4,
            Subspace::Bitmaps => 5,
            Subspace::Blobs => 6,
            Subspace::Counters => 7,
        }
    }

    /// The shape of a subspace.
    pub open spec fn shape(self) -> Schema {
        match self {
            Subspace::Values | Subspace::Logs | Subspace::IndexValues => Schema {
                key_kind: KeyKind::Short,
                value_kind: ValueKind::Medium,
            },
            Subspace::BlobData => Schema { key_kind: KeyKind::Short, value_kind: ValueKind::Large },
            Subspace::Indexes | Subspace::Bitmaps | Subspace::Blobs => Schema {
                key_kind: KeyKind::Long,
                value_kind: ValueKind::Absent,
            },
            Subspace::Counters => Schema {
                key_kind: KeyKind::Short,
                value_kind: ValueKind::Counter,
            },
        }
    }

    /// Whether a caller may put `value_len` bytes under a key of `key_len`
    /// bytes, and if not, why not. The key is judged first.
    pub open spec fn admits(self, key_len: nat, value_len: nat) -> Result<(), CapacityError> {
        if key_len > self.shape().key_kind.bound() {
            Err(CapacityError::KeyTooLong)
        } else if self.shape().value_kind is Counter {
            Err(CapacityError::CounterWrite)
        } else if value_len > self.shape().value_kind.bound() {
            Err(CapacityError::ValueTooLong)
        } else {
            Ok(())
        }
    }

    /// The identifier of this subspace.
    pub fn physical_name(self) -> (id: u8)
        ensures
            id == self.id(),
    {
        match self {
            Subspace::Values => 0x76,
            Subspace::Logs => 0x6c,
            Subspace::IndexValues => 0x64,
            Subspace::Indexes => 0x69,
            Subspace::Bitmaps => 0x62,
            Subspace::Blobs => 0x6f,
            Subspace::BlobData => 0x74,
            Subspace::Counters => 0x63,
        }
    }

    /// The identifier of this subspace as a character, which names its table.
    pub fn table_name(self) -> (c: char)
        ensures
            c == self.id() as char,
    {
        self.physical_name() as char
    }

    /// The subspace with identifier `id`, where a subspace has it.
    pub fn from_id(id: u8) -> (r: Option<Subspace>)
        ensures
            match r {
                Some(s) => s.id() == id,
                None => forall|s: Subspace| s.id() != id,
            },
    {
        match id {
            0x76 => Some(Subspace::Values),
            0x6c => Some(Subspace::Logs),
            0x64 => Some(Subspace::IndexValues),
            0x69 => Some(Subspace::Indexes),
            0x62 => Some(Subspace::Bitmaps),
            0x6f => Some(Subspace::Blobs),
            0x74 => Some(Subspace::BlobData),
            0x63 => Some(Subspace::Counters),
            _ => None,
        }
    }

    /// The shape of this subspace.
    pub fn schema(self) -> (s: Schema)
        ensures
            s == self.shape(),
    {
        match self {
            Subspace::Values | Subspace::Logs | Subspace::IndexValues => Schema {
                key_kind: KeyKind::Short,
                value_kind: ValueKind::Medium,
            },
            Subspace::BlobData => Schema { key_kind: KeyKind::Short, value_kind: ValueKind::Large },
            Subspace::Indexes | Subspace::Bitmaps | Subspace::Blobs => Schema {
                key_kind: KeyKind::Long,
                value_kind: ValueKind::Absent,
            },
            Subspace::Counters => Schema {
                key_kind: KeyKind::Short,
                value_kind: ValueKind::Counter,
            },
        }
    }

    /// The place of this subspace in the order of provisioning.
    pub fn index(self) -> (i: usize)
        ensures
            i == self.rank(),
            i < SUBSPACE_COUNT,
    {
        match self {
            Subspace::Values => 0,
            Subspace::Logs => 1,
            Subspace::IndexValues => 2,
            Subspace::BlobData => 3,
            Subspace::Indexes => 4,
            Subspace::Bitmaps => 5,
            Subspace::Blobs => 6,
            Subspace::Counters => 7,
        }
    }

    /// The subspace at place `i` in the order of provisioning, where there
    /// is one.
    pub fn at(i: usize) -> (r: Option<Subspace>)
        ensures
            match r {
                Some(s) => s.rank() == i,
                None => i >= SUBSPACE_COUNT,
            },
    {
        match i {
            0 => Some(Subspace::Values),
            1 => Some(Subspace::Logs),
            2 => Some(Subspace::IndexValues),
            3 => Some(Subspace::BlobData),
            4 => Some(Subspace::Indexes),
            5 => Some(Subspace::Bitmaps),
            6 => Some(Subspace::Blobs),
            7 => Some(Subspace::Counters),
            _ => None,
        }
    }

    /// Judges a put of `value_len` bytes under a key of `key_len` bytes.
    pub fn check_put(self, key_len: usize, value_len: usize) -> (r: Result<(), CapacityError>)
        ensures
            r == self.admits(key_len as nat, value_len as nat),
    {
        let schema = self.schema();
        if key_len > schema.key_kind.max_len() {
            Err(CapacityError::KeyTooLong)
        } else if let ValueKind::Counter = schema.value_kind {
            Err(CapacityError::CounterWrite)
        } else if value_len as u64 > schema.value_kind.max_len() {
            Err(CapacityError::ValueTooLong)
        } else {
            Ok(())
        }
    }

    /// Whether a key of `key_len` bytes fits this subspace.
    pub fn check_key(self, key_len: usize) -> (r: bool)
        ensures
            r == (key_len <= self.shape().key_kind.bound()),
    {
        key_len <= self.schema().key_kind.max_len()
    }
}

/// A subspace that holds keys alone has the longer key, and every other the
/// shorter.
pub proof fn lemma_key_only_is_long(s: Subspace)
    ensures
        (s.shape().value_kind is Absent) == (s.shape().key_kind is Long),
        (s.shape().value_kind is Absent) == (s is Indexes || s is Bitmaps || s is Blobs),
{
}

/// No two subspaces share an identifier.
pub proof fn lemma_id_unique(a: Subspace, b: Subspace)
    requires
        a.id() == b.id(),
    ensures
        a == b,
{
}

/// Every identifier is a lower-case letter of ASCII, and so prints as itself.
pub proof fn lemma_id_printable(s: Subspace)
    ensures
        0x61 <= s.id() <= 0x7a,
{
}

/// No two subspaces share a place in the order of provisioning, and the
/// places are the first eight numbers.
pub proof fn lemma_rank_unique(a: Subspace, b: Subspace)
    requires
        a.rank() == b.rank(),
    ensures
        a == b,
        a.rank() < SUBSPACE_COUNT,
{
}

/// The text of a key bound writes the bound.
pub proof fn lemma_bound_text(k: KeyKind)
    ensures
        decimal_u64(k.bound_text()) == Some(k.bound() as u64),
{
    let t = k.bound_text();
    assert(t.len() == 3);
    let t2 = t.drop_last();
    let t1 = t2.drop_last();
    let t0 = t1.drop_last();
    assert(t0.len() == 0);
    reveal_with_fuel(crate::text::decimal_value, 4);
    assert(crate::text::decimal_value(t0) == 0);
    assert(t1.last() == t[0]);
    assert(t2.last() == t[1]);
    assert(t.last() == t[2]);
    assert(crate::text::all_digits(t));
}

} // verus!
