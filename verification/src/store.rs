//! The store: one surface for every caller, whatever holds the data.
//!
//! A store maps each subspace and key to a value. Values are put, read,
//! deleted and scanned in the order of their keys; counters change by signed
//! increments; a blob is an entry of two subspaces, the marker that it
//! exists and its bytes, written and read as one.

use crate::config::Config;
use crate::error::{CapacityError, StoreError, StoreFault};
use crate::memory::{subspace_rows, MemoryBackend, StoreMap};
use crate::order::KeyRange;
use crate::pool::{build_pool, pool_settings, PoolSettings};
use crate::subspace::{Subspace, COUNTER_WIDTH};
use crate::table::{is_scan, pairs, Row};
use vstd::bytes::{
    lemma_auto_spec_u64_to_from_le_bytes, spec_u64_from_le_bytes, spec_u64_to_le_bytes,
    u64_from_le_bytes, u64_to_le_bytes,
};
use vstd::prelude::*;

verus! {

/// The bytes that hold the counter `n`: the eight bytes of its two's
/// complement, least significant first.
pub open spec fn counter_bytes(n: i64) -> Seq<u8> {
    spec_u64_to_le_bytes(n as u64)
}

/// The counter that the bytes `b` hold.
pub open spec fn counter_value(b: Seq<u8>) -> i64 {
    spec_u64_from_le_bytes(b) as i64
}

/// A counter is held in eight bytes, from which it is read back as it was.
pub proof fn lemma_counter_round_trip(n: i64)
    ensures
        counter_bytes(n).len() == COUNTER_WIDTH,
        counter_value(counter_bytes(n)) == n,
{
    lemma_auto_spec_u64_to_from_le_bytes();
    assert((n as u64) as i64 == n) by (bit_vector);
}

/// The value under `key` in subspace `s`, where there is one.
pub open spec fn get_of(m: StoreMap, s: Subspace, key: Seq<u8>) -> Option<Seq<u8>> {
    if m.contains_key((s, key)) {
        Some(m[(s, key)])
    } else {
        None
    }
}

/// What a store holds after a put: the value under the key where the
/// subspace admits both, and what it held before where it does not.
pub open spec fn after_put(m: StoreMap, s: Subspace, key: Seq<u8>, value: Seq<u8>) -> StoreMap {
    if s.admits(key.len(), value.len()) is Ok {
        m.insert((s, key), value)
    } else {
        m
    }
}

/// What a store holds after a delete.
pub open spec fn after_delete(m: StoreMap, s: Subspace, key: Seq<u8>) -> StoreMap {
    m.remove((s, key))
}

/// The counter under `key`: zero where the key is absent.
pub open spec fn counter_of(m: StoreMap, key: Seq<u8>) -> int {
    if m.contains_key((Subspace::Counters, key)) {
        counter_value(m[(Subspace::Counters, key)]) as int
    } else {
        0
    }
}

/// What an increment of the counter under `key` by `delta` returns: the new
/// value, unless the key is too long or the value would leave the range of
/// a counter.
pub open spec fn increment_of(m: StoreMap, key: Seq<u8>, delta: i64) -> Result<
    i64,
    CapacityError,
> {
    let sum = counter_of(m, key) + delta;
    if key.len() > Subspace::Counters.shape().key_kind.bound() {
        Err(CapacityError::KeyTooLong)
    } else if sum < i64::MIN || sum > i64::MAX {
        Err(CapacityError::CounterRange)
    } else {
        Ok(sum as i64)
    }
}

/// What a store holds after an increment: the new value where there is one,
/// and what it held before where the increment is refused.
pub open spec fn after_increment(m: StoreMap, key: Seq<u8>, delta: i64) -> StoreMap {
    match increment_of(m, key, delta) {
        Ok(n) => m.insert((Subspace::Counters, key), counter_bytes(n)),
        Err(_) => m,
    }
}

/// The blob with the fingerprint: its bytes, where both its marker and its
/// bytes are there.
pub open spec fn blob_of(m: StoreMap, fingerprint: Seq<u8>) -> Option<Seq<u8>> {
    if m.contains_key((Subspace::Blobs, fingerprint)) && m.contains_key(
        (Subspace::BlobData, fingerprint),
    ) {
        Some(m[(Subspace::BlobData, fingerprint)])
    } else {
        None
    }
}

/// What a store holds after a blob is put: its bytes and its marker, where
/// the fingerprint and the bytes fit; what it held before where they do not.
pub open spec fn after_put_blob(m: StoreMap, fingerprint: Seq<u8>, data: Seq<u8>) -> StoreMap {
    if Subspace::BlobData.admits(fingerprint.len(), data.len()) is Ok {
        m.insert((Subspace::BlobData, fingerprint), data).insert(
            (Subspace::Blobs, fingerprint),
            Seq::empty(),
        )
    } else {
        m
    }
}

/// The bytes of an optional value.
pub open spec fn optional_bytes(v: Option<Vec<u8>>) -> Option<Seq<u8>> {
    match v {
        Some(b) => Some(b@),
        None => None,
    }
}

/// The bytes that hold the counter `n`.
fn encode_counter(n: i64) -> (b: Vec<u8>)
    ensures
        b@ == counter_bytes(n),
        b@.len() == COUNTER_WIDTH,
{
    u64_to_le_bytes(n as u64)
}

/// The counter that the bytes `b` hold.
fn decode_counter(b: &[u8]) -> (n: i64)
    requires
        b@.len() == COUNTER_WIDTH,
    ensures
        n == counter_value(b@),
{
    u64_from_le_bytes(b) as i64
}

/// A store over a backend in memory.
#[derive(Debug)]
pub struct Store {
    backend: MemoryBackend,
    pool: PoolSettings,
}

impl Store {
    /// Whether the store is sound: its backend is, every subspace has its
    /// table, and a pool can be built from its settings.
    pub closed spec fn wf(&self) -> bool {
        &&& self.backend.wf()
        &&& forall|s: Subspace| self.backend.provisioned(s)
        &&& self.pool.valid()
    }

    /// What the store holds.
    pub closed spec fn view(&self) -> StoreMap {
        self.backend@
    }

    /// The settings of the store's pool.
    pub closed spec fn settings(&self) -> PoolSettings {
        self.pool
    }

    /// Opens a store over `backend`, with the pool that the settings below
    /// `store.db` describe. Every subspace is given its table before the
    /// store is returned; what the backend held, the store holds. Where a
    /// setting is invalid, no store is returned.
    pub fn open(config: &Config, backend: MemoryBackend) -> (r: Result<Store, StoreError>)
        requires
            backend.wf(),
        ensures
            match pool_settings(config@, "store.db"@) {
                Ok(p) => r matches Ok(store) && store.wf() && store@ == backend@
                    && store.settings() == p,
                Err(f) => r matches Err(e) && e@ == StoreFault::Config(f),
            },
    {
        let pool = match build_pool(config, "store.db") {
            Ok(p) => p,
            Err(e) => {
                return Err(StoreError::Config(e));
            },
        };
        let mut backend = backend;
        backend.provision();
        Ok(Store { backend, pool })
    }

    /// Closes the store and hands back its backend, with all that the store
    /// held.
    pub fn close(self) -> (b: MemoryBackend)
        requires
            self.wf(),
        ensures
            b.wf(),
            b@ == self@,
            forall|s: Subspace| b.provisioned(s),
    {
        self.backend
    }

    /// The settings of the store's pool.
    pub fn pool(&self) -> (p: PoolSettings)
        requires
            self.wf(),
        ensures
            p == self.settings(),
            p.valid(),
    {
        self.pool
    }

    /// The value under `key` in subspace `s`. An absent key is no error.
    pub fn get(&self, s: Subspace, key: &[u8]) -> (r: Result<Option<Vec<u8>>, StoreError>)
        requires
            self.wf(),
        ensures
            r matches Ok(v) && optional_bytes(v) == get_of(self@, s, key@),
    {
        Ok(self.backend.read(s, key))
    }

    /// Puts `value` under `key` in subspace `s`, in place of the value that
    /// the key had. A key or value that the subspace does not admit is
    /// refused, and the store holds what it held.
    pub fn put(&mut self, s: Subspace, key: &[u8], value: &[u8]) -> (r: Result<(), StoreError>)
        requires
            old(self).wf(),
        ensures
            final(self).wf(),
            final(self).settings() == old(self).settings(),
            final(self)@ == after_put(old(self)@, s, key@, value@),
            match s.admits(key@.len(), value@.len()) {
                Ok(()) => r is Ok,
                Err(c) => r matches Err(e) && e@ == StoreFault::Capacity(c),
            },
    {
        match s.check_put(key.len(), value.len()) {
            Ok(()) => {
                self.backend.write(s, key, value);
                Ok(())
            },
            Err(c) => Err(StoreError::Capacity(c)),
        }
    }

    /// Deletes `key` from subspace `s`. An absent key is no error.
    pub fn delete(&mut self, s: Subspace, key: &[u8]) -> (r: Result<(), StoreError>)
        requires
            old(self).wf(),
        ensures
            final(self).wf(),
            final(self).settings() == old(self).settings(),
            final(self)@ == after_delete(old(self)@, s, key@),
            r is Ok,
    {
        self.backend.erase(s, key);
        Ok(())
    }

    /// The rows of subspace `s` whose keys `range` contains, each once, in
    /// the order of their keys.
    pub fn scan(&self, s: Subspace, range: &KeyRange) -> (r: Result<Vec<Row>, StoreError>)
        requires
            self.wf(),
        ensures
            r matches Ok(out) && is_scan(subspace_rows(self@, s), range@, pairs(out@)),
    {
        Ok(self.backend.range(s, range))
    }

    /// The counter under `key`: zero where the key is absent.
    pub fn counter(&self, key: &[u8]) -> (r: Result<i64, StoreError>)
        requires
            self.wf(),
        ensures
            r matches Ok(n) && n == counter_of(self@, key@),
    {
        Ok(self.current(key))
    }

    /// Adds `delta` to the counter under `key`, which counts from zero where
    /// the key is absent, and returns the new value. A key that is too long,
    /// or a value that would leave the range of a counter, is refused, and
    /// the store holds what it held.
    pub fn increment(&mut self, key: &[u8], delta: i64) -> (r: Result<i64, StoreError>)
        requires
            old(self).wf(),
        ensures
            final(self).wf(),
            final(self).settings() == old(self).settings(),
            final(self)@ == after_increment(old(self)@, key@, delta),
            match increment_of(old(self)@, key@, delta) {
                Ok(n) => r == Ok::<i64, StoreError>(n),
                Err(c) => r matches Err(e) && e@ == StoreFault::Capacity(c),
            },
    {
        if !Subspace::Counters.check_key(key.len()) {
            return Err(StoreError::Capacity(CapacityError::KeyTooLong));
        }
        let current = self.current(key);
        match current.checked_add(delta) {
            Some(n) => {
                let bytes = encode_counter(n);
                self.backend.write(Subspace::Counters, key, bytes.as_slice());
                Ok(n)
            },
            None => Err(StoreError::Capacity(CapacityError::CounterRange)),
        }
    }

    /// Puts the blob `data` under `fingerprint`: first its bytes, then the
    /// marker that it exists. A fingerprint or blob that does not fit is
    /// refused before anything is written.
    pub fn put_blob(&mut self, fingerprint: &[u8], data: &[u8]) -> (r: Result<(), StoreError>)
        requires
            old(self).wf(),
        ensures
            final(self).wf(),
            final(self).settings() == old(self).settings(),
            final(self)@ == after_put_blob(old(self)@, fingerprint@, data@),
            match Subspace::BlobData.admits(fingerprint@.len(), data@.len()) {
                Ok(()) => r is Ok,
                Err(c) => r matches Err(e) && e@ == StoreFault::Capacity(c),
            },
    {
        match Subspace::BlobData.check_put(fingerprint.len(), data.len()) {
            Ok(()) => {
                let marker: Vec<u8> = Vec::new();
                self.backend.write(Subspace::BlobData, fingerprint, data);
                self.backend.write(Subspace::Blobs, fingerprint, marker.as_slice());
                Ok(())
            },
            Err(c) => Err(StoreError::Capacity(c)),
        }
    }

    /// The blob under `fingerprint`, where both its marker and its bytes are
    /// there.
    pub fn get_blob(&self, fingerprint: &[u8]) -> (r: Result<Option<Vec<u8>>, StoreError>)
        requires
            self.wf(),
        ensures
            r matches Ok(v) && optional_bytes(v) == blob_of(self@, fingerprint@),
    {
        match self.backend.read(Subspace::Blobs, fingerprint) {
            Some(_) => Ok(self.backend.read(Subspace::BlobData, fingerprint)),
            None => Ok(None),
        }
    }

    /// The counter under `key`.
    fn current(&self, key: &[u8]) -> (n: i64)
        requires
            self.wf(),
        ensures
            n == counter_of(self@, key@),
    {
        match self.backend.read(Subspace::Counters, key) {
            Some(bytes) => {
                proof {
                    self.backend.lemma_counters(key@);
                }
                decode_counter(bytes.as_slice())
            },
            None => 0,
        }
    }
}

/// The sum of a sequence of increments.
pub open spec fn sum(deltas: Seq<i64>) -> int {
    deltas.fold_left(0int, |acc: int, d: i64| acc + d)
}

/// What a store holds after the increments `deltas` of the counter under
/// `key`, one after the other.
pub open spec fn after_increments(m: StoreMap, key: Seq<u8>, deltas: Seq<i64>) -> StoreMap
    decreases deltas.len(),
{
    if deltas.len() == 0 {
        m
    } else {
        after_increment(after_increments(m, key, deltas.drop_last()), key, deltas.last())
    }
}

/// Whether the counter stays in its range while `deltas` are added to it,
/// one after the other, from `start`.
pub open spec fn stays_in_range(start: int, deltas: Seq<i64>) -> bool {
    forall|k: int|
        0 <= k <= deltas.len() ==> i64::MIN <= start + #[trigger] sum(deltas.take(k)) <= i64::MAX
}

/// After a put that the subspace admits, a get of the same key returns the
/// value that was put.
pub proof fn lemma_put_then_get(m: StoreMap, s: Subspace, key: Seq<u8>, value: Seq<u8>)
    requires
        s.admits(key.len(), value.len()) is Ok,
    ensures
        get_of(after_put(m, s, key, value), s, key) == Some(value),
{
}

/// A put leaves every other key, and every other subspace, as it was.
pub proof fn lemma_put_keeps_others(
    m: StoreMap,
    s: Subspace,
    key: Seq<u8>,
    value: Seq<u8>,
    t: Subspace,
    other: Seq<u8>,
)
    requires
        t != s || other != key,
    ensures
        get_of(after_put(m, s, key, value), t, other) == get_of(m, t, other),
{
}

/// A put that the subspace does not admit leaves the store as it was.
pub proof fn lemma_refused_put(m: StoreMap, s: Subspace, key: Seq<u8>, value: Seq<u8>)
    requires
        s.admits(key.len(), value.len()) is Err,
    ensures
        after_put(m, s, key, value) == m,
{
}

/// After a delete, a get of the same key finds nothing, and a second
/// delete changes nothing.
pub proof fn lemma_delete_then_get(m: StoreMap, s: Subspace, key: Seq<u8>)
    ensures
        get_of(after_delete(m, s, key), s, key) is None,
        after_delete(after_delete(m, s, key), s, key) == after_delete(m, s, key),
{
    assert(after_delete(after_delete(m, s, key), s, key) =~= after_delete(m, s, key));
}

/// An increment that is not refused leaves the counter at the sum of what
/// it was and the increment, and returns that sum.
pub proof fn lemma_increment(m: StoreMap, key: Seq<u8>, delta: i64)
    requires
        increment_of(m, key, delta) is Ok,
    ensures
        increment_of(m, key, delta) == Ok::<i64, CapacityError>(
            (counter_of(m, key) + delta) as i64,
        ),
        counter_of(after_increment(m, key, delta), key) == counter_of(m, key) + delta,
{
    lemma_counter_round_trip((counter_of(m, key) + delta) as i64);
}

/// The first increment of an absent key counts from zero.
pub proof fn lemma_increment_absent(m: StoreMap, key: Seq<u8>, delta: i64)
    requires
        !m.contains_key((Subspace::Counters, key)),
        key.len() <= Subspace::Counters.shape().key_kind.bound(),
    ensures
        increment_of(m, key, delta) == Ok::<i64, CapacityError>(delta),
        counter_of(after_increment(m, key, delta), key) == delta,
{
    lemma_counter_round_trip(delta);
}

/// After a sequence of increments under which the counter stays in its
/// range, the counter is what it was plus the sum of the increments.
pub proof fn lemma_increments_sum(m: StoreMap, key: Seq<u8>, deltas: Seq<i64>)
    requires
        key.len() <= Subspace::Counters.shape().key_kind.bound(),
        stays_in_range(counter_of(m, key), deltas),
    ensures
        counter_of(after_increments(m, key, deltas), key) == counter_of(m, key) + sum(deltas),
    decreases deltas.len(),
{
    if deltas.len() > 0 {
        let front = deltas.drop_last();
        assert forall|k: int| 0 <= k <= front.len() implies i64::MIN <= counter_of(m, key)
            + #[trigger] sum(front.take(k)) <= i64::MAX by {
            assert(front.take(k) =~= deltas.take(k));
        }
        lemma_increments_sum(m, key, front);
        assert(deltas.take(deltas.len() as int) =~= deltas);
        assert(front =~= deltas.take(deltas.len() - 1));
        assert(sum(deltas) == sum(front) + deltas.last());
        let before = after_increments(m, key, front);
        assert(i64::MIN <= counter_of(m, key) + sum(deltas.take(deltas.len() as int)) <= i64::MAX);
        lemma_increment(before, key, deltas.last());
    }
}

/// The sum of increments does not depend on their order.
pub proof fn lemma_sum_any_order(a: Seq<i64>, b: Seq<i64>)
    requires
        a.to_multiset() == b.to_multiset(),
    ensures
        sum(a) == sum(b),
{
    let f = |acc: int, d: i64| acc + d;
    assert(vstd::seq_lib::commutative_foldl(f));
    vstd::seq_lib::lemma_fold_left_permutation(a, b, f, 0int);
}

/// Two sequences of the same increments, in whatever order, leave the
/// counter at the same value, where it stays in its range under both.
pub proof fn lemma_increments_any_order(m: StoreMap, key: Seq<u8>, a: Seq<i64>, b: Seq<i64>)
    requires
        key.len() <= Subspace::Counters.shape().key_kind.bound(),
        a.to_multiset() == b.to_multiset(),
        stays_in_range(counter_of(m, key), a),
        stays_in_range(counter_of(m, key), b),
    ensures
        counter_of(after_increments(m, key, a), key) == counter_of(
            after_increments(m, key, b),
            key,
        ),
{
    lemma_increments_sum(m, key, a);
    lemma_increments_sum(m, key, b);
    lemma_sum_any_order(a, b);
}

/// After a blob is put, it is read back byte for byte.
pub proof fn lemma_blob_round_trip(m: StoreMap, fingerprint: Seq<u8>, data: Seq<u8>)
    requires
        Subspace::BlobData.admits(fingerprint.len(), data.len()) is Ok,
    ensures
        blob_of(after_put_blob(m, fingerprint, data), fingerprint) == Some(data),
{
}

/// While a blob is being put, with its bytes written and its marker not
/// yet, the store shows under its fingerprint either no blob or the whole of
/// the new one, never a part.
pub proof fn lemma_blob_never_partial(m: StoreMap, fingerprint: Seq<u8>, data: Seq<u8>)
    ensures
        blob_of(m.insert((Subspace::BlobData, fingerprint), data), fingerprint) == (if blob_of(
            m,
            fingerprint,
        ) is Some || m.contains_key((Subspace::Blobs, fingerprint)) {
            Some(data)
        } else {
            None
        }),
{
}

/// Putting a blob under one fingerprint leaves the blob of every other
/// fingerprint as it was: present if it was, absent if it was not.
pub proof fn lemma_blob_keeps_others(
    m: StoreMap,
    fingerprint: Seq<u8>,
    data: Seq<u8>,
    other: Seq<u8>,
)
    requires
        other != fingerprint,
    ensures
        blob_of(after_put_blob(m, fingerprint, data), other) == blob_of(m, other),
{
}

/// Whether a blob is there, and what it is, depends on the two entries under
/// its fingerprint and on nothing else that the store holds.
pub proof fn lemma_blob_depends(a: StoreMap, b: StoreMap, fingerprint: Seq<u8>)
    requires
        get_of(a, Subspace::Blobs, fingerprint) == get_of(b, Subspace::Blobs, fingerprint),
        get_of(a, Subspace::BlobData, fingerprint) == get_of(b, Subspace::BlobData, fingerprint),
    ensures
        blob_of(a, fingerprint) == blob_of(b, fingerprint),
{
}

/// A store that holds nothing has no blob.
pub proof fn lemma_no_blob_in_empty(fingerprint: Seq<u8>)
    ensures
        blob_of(StoreMap::empty(), fingerprint) is None,
{
}

} // verus!
