use store::config::Config;
use store::error::{CapacityError, ConfigError, Connectivity, StoreError};
use store::memory::MemoryBackend;
use store::order::{compare, has_prefix, KeyRange, Order};
use store::store::Store;
use store::subspace::Subspace;
use store::table::Row;

fn open() -> Store {
    Store::open(&Config::new(), MemoryBackend::new()).unwrap()
}

fn row(key: &[u8], value: &[u8]) -> Row {
    Row { key: key.to_vec(), value: value.to_vec() }
}

fn between(from: &[u8], to: &[u8]) -> KeyRange {
    KeyRange::Between { from: from.to_vec(), to: to.to_vec() }
}

fn everything() -> KeyRange {
    KeyRange::Prefix(Vec::new())
}

#[test]
fn end_to_end() {
    let mut config = Config::new();
    config.set("store.db.pool.max-connections", "5");
    let mut store = Store::open(&config, MemoryBackend::new()).unwrap();
    assert_eq!(store.pool().max_size, 5);
    assert_eq!(store.put(Subspace::Values, b"a", &[1, 2, 3]), Ok(()));
    assert_eq!(store.get(Subspace::Values, b"a"), Ok(Some(vec![1, 2, 3])));
    assert_eq!(store.increment(b"c", 5), Ok(5));
    assert_eq!(store.increment(b"c", -2), Ok(3));
    assert_eq!(store.delete(Subspace::Values, b"a"), Ok(()));
    assert_eq!(store.get(Subspace::Values, b"a"), Ok(None));
}

#[test]
fn open_refuses_invalid_settings() {
    let mut config = Config::new();
    config.set("store.db.pool.max-connections", "0");
    let e = Store::open(&config, MemoryBackend::new()).unwrap_err();
    assert_eq!(
        e,
        StoreError::Config(ConfigError::OutOfRange {
            key: "store.db.pool.max-connections".to_string()
        })
    );
    assert!(e.is_fatal());
}

#[test]
fn a_new_backend_has_no_tables_and_an_open_store_has_all() {
    let mut backend = MemoryBackend::new();
    assert!(!backend.is_provisioned(Subspace::Values));
    assert_eq!(backend.read(Subspace::Values, b"a"), None);
    assert!(backend.range(Subspace::Values, &everything()).is_empty());
    backend.provision();
    assert!(backend.is_provisioned(Subspace::Values));
    assert!(backend.is_provisioned(Subspace::Counters));
    let backend = open().close();
    for i in 0..8 {
        assert!(backend.is_provisioned(Subspace::at(i).unwrap()));
    }
}

#[test]
fn put_then_get_returns_the_value_in_every_subspace() {
    let mut store = open();
    for s in [Subspace::Values, Subspace::Logs, Subspace::IndexValues, Subspace::BlobData] {
        assert_eq!(store.put(s, b"key", b"value"), Ok(()));
        assert_eq!(store.get(s, b"key"), Ok(Some(b"value".to_vec())));
        assert_eq!(store.put(s, b"key", b"other"), Ok(()));
        assert_eq!(store.get(s, b"key"), Ok(Some(b"other".to_vec())));
        assert_eq!(store.put(s, b"", b""), Ok(()));
        assert_eq!(store.get(s, b""), Ok(Some(Vec::new())));
    }
    for s in [Subspace::Indexes, Subspace::Bitmaps, Subspace::Blobs] {
        assert_eq!(store.get(s, b"key"), Ok(None));
        assert_eq!(store.put(s, b"key", b""), Ok(()));
        assert_eq!(store.get(s, b"key"), Ok(Some(Vec::new())));
    }
    assert_eq!(store.get(Subspace::Values, b"other"), Ok(None));
}

#[test]
fn subspaces_do_not_share_keys() {
    let mut store = open();
    store.put(Subspace::Values, b"k", b"v").unwrap();
    store.put(Subspace::Logs, b"k", b"l").unwrap();
    assert_eq!(store.get(Subspace::Values, b"k"), Ok(Some(b"v".to_vec())));
    assert_eq!(store.get(Subspace::Logs, b"k"), Ok(Some(b"l".to_vec())));
    assert_eq!(store.get(Subspace::IndexValues, b"k"), Ok(None));
    store.delete(Subspace::Values, b"k").unwrap();
    assert_eq!(store.get(Subspace::Logs, b"k"), Ok(Some(b"l".to_vec())));
}

#[test]
fn delete_is_idempotent() {
    let mut store = open();
    store.put(Subspace::Indexes, b"fact", b"").unwrap();
    assert_eq!(store.delete(Subspace::Indexes, b"fact"), Ok(()));
    assert_eq!(store.get(Subspace::Indexes, b"fact"), Ok(None));
    assert_eq!(store.delete(Subspace::Indexes, b"fact"), Ok(()));
    assert_eq!(store.delete(Subspace::Counters, b"never"), Ok(()));
    assert_eq!(store.get(Subspace::Indexes, b"fact"), Ok(None));
}

#[test]
fn increments_add_up_in_any_order() {
    let deltas: [i64; 5] = [7, -3, 100, -250, 1];
    let mut a = open();
    let mut b = open();
    let mut last = 0;
    for d in deltas {
        last = a.increment(b"n", d).unwrap();
    }
    for d in deltas.iter().rev() {
        b.increment(b"n", *d).unwrap();
    }
    assert_eq!(last, -145);
    assert_eq!(a.counter(b"n"), Ok(-145));
    assert_eq!(b.counter(b"n"), Ok(-145));
}

#[test]
fn counters_start_at_zero_and_stay_in_range() {
    let mut store = open();
    assert_eq!(store.counter(b"n"), Ok(0));
    assert_eq!(store.get(Subspace::Counters, b"n"), Ok(None));
    assert_eq!(store.increment(b"n", i64::MAX), Ok(i64::MAX));
    assert_eq!(
        store.increment(b"n", 1),
        Err(StoreError::Capacity(CapacityError::CounterRange))
    );
    assert_eq!(store.counter(b"n"), Ok(i64::MAX));
    assert_eq!(store.increment(b"m", i64::MIN), Ok(i64::MIN));
    assert_eq!(
        store.increment(b"m", -1),
        Err(StoreError::Capacity(CapacityError::CounterRange))
    );
    assert_eq!(store.increment(b"m", i64::MAX), Ok(-1));
    assert_eq!(store.increment(b"m", 0), Ok(-1));
    assert_eq!(store.get(Subspace::Counters, b"m"), Ok(Some(vec![0xff; 8])));
    assert_eq!(store.increment(b"z", 0), Ok(0));
    assert_eq!(store.get(Subspace::Counters, b"z"), Ok(Some(vec![0; 8])));
    assert_eq!(store.increment(b"w", 258), Ok(258));
    assert_eq!(store.get(Subspace::Counters, b"w"), Ok(Some(vec![2, 1, 0, 0, 0, 0, 0, 0])));
    let long = vec![b'k'; 256];
    assert_eq!(
        store.increment(&long, 1),
        Err(StoreError::Capacity(CapacityError::KeyTooLong))
    );
    assert_eq!(store.counter(&long), Ok(0));
    assert_eq!(store.delete(Subspace::Counters, b"n"), Ok(()));
    assert_eq!(store.increment(b"n", 4), Ok(4));
}

#[test]
fn counters_change_by_increments_only() {
    let mut store = open();
    store.increment(b"n", 9).unwrap();
    assert_eq!(
        store.put(Subspace::Counters, b"n", &[0; 8]),
        Err(StoreError::Capacity(CapacityError::CounterWrite))
    );
    assert_eq!(
        store.put(Subspace::Counters, b"n", b""),
        Err(StoreError::Capacity(CapacityError::CounterWrite))
    );
    assert_eq!(store.counter(b"n"), Ok(9));
}

#[test]
fn scan_returns_the_keys_of_the_range_in_order() {
    let mut store = open();
    let keys: [&[u8]; 8] = [b"b", b"", b"ab", b"a", b"\xff", b"aa", b"b\x00", b"a\xff"];
    for (i, k) in keys.iter().enumerate() {
        store.put(Subspace::Values, k, &[i as u8]).unwrap();
    }
    store.put(Subspace::Logs, b"aa", b"elsewhere").unwrap();
    assert_eq!(
        store.scan(Subspace::Values, &everything()),
        Ok(vec![
            row(b"", &[1]),
            row(b"a", &[3]),
            row(b"aa", &[5]),
            row(b"ab", &[2]),
            row(b"a\xff", &[7]),
            row(b"b", &[0]),
            row(b"b\x00", &[6]),
            row(b"\xff", &[4]),
        ])
    );
    assert_eq!(
        store.scan(Subspace::Values, &between(b"a", b"b")),
        Ok(vec![
            row(b"a", &[3]),
            row(b"aa", &[5]),
            row(b"ab", &[2]),
            row(b"a\xff", &[7]),
            row(b"b", &[0]),
        ])
    );
    assert_eq!(
        store.scan(Subspace::Values, &KeyRange::Prefix(b"a".to_vec())),
        Ok(vec![row(b"a", &[3]), row(b"aa", &[5]), row(b"ab", &[2]), row(b"a\xff", &[7])])
    );
    assert_eq!(
        store.scan(Subspace::Values, &between(b"a\x00", b"ab")),
        Ok(vec![row(b"aa", &[5]), row(b"ab", &[2])])
    );
    assert_eq!(store.scan(Subspace::Values, &between(b"b", b"a")), Ok(vec![]));
    assert_eq!(store.scan(Subspace::Values, &between(b"c", b"d")), Ok(vec![]));
    assert_eq!(store.scan(Subspace::Logs, &everything()), Ok(vec![row(b"aa", b"elsewhere")]));
    assert_eq!(store.scan(Subspace::Bitmaps, &everything()), Ok(vec![]));
    store.delete(Subspace::Values, b"aa").unwrap();
    store.put(Subspace::Values, b"ab", b"new").unwrap();
    assert_eq!(
        store.scan(Subspace::Values, &KeyRange::Prefix(b"a".to_vec())),
        Ok(vec![row(b"a", &[3]), row(b"ab", b"new"), row(b"a\xff", &[7])])
    );
}

#[test]
fn a_scan_resumes_after_its_last_key() {
    let mut store = open();
    for i in 0..50u8 {
        store.put(Subspace::Logs, &[i / 7, i % 7], &[i]).unwrap();
    }
    let all = store.scan(Subspace::Logs, &everything()).unwrap();
    assert_eq!(all.len(), 50);
    for pair in all.windows(2) {
        assert!(pair[0].key < pair[1].key);
    }
    let resume = KeyRange::resume(&all[19].key, &[0xff]);
    let mut from = all[19].key.clone();
    from.push(0);
    assert_eq!(resume, between(&from, &[0xff]));
    let rest = store.scan(Subspace::Logs, &resume).unwrap();
    assert_eq!(rest.as_slice(), &all[20..]);
    let last = KeyRange::resume(&all[49].key, &[0xff]);
    assert_eq!(store.scan(Subspace::Logs, &last), Ok(vec![]));
}

#[test]
fn keys_are_ordered_byte_by_byte() {
    assert_eq!(compare(b"", b""), Order::Same);
    assert_eq!(compare(b"", b"\x00"), Order::Before);
    assert_eq!(compare(b"a", b"a"), Order::Same);
    assert_eq!(compare(b"a", b"ab"), Order::Before);
    assert_eq!(compare(b"ab", b"a"), Order::After);
    assert_eq!(compare(b"a\xff", b"b"), Order::Before);
    assert_eq!(compare(b"\x80", b"\x7f\xff"), Order::After);
    assert!(has_prefix(b"abc", b"ab"));
    assert!(has_prefix(b"abc", b""));
    assert!(has_prefix(b"abc", b"abc"));
    assert!(!has_prefix(b"abc", b"abcd"));
    assert!(!has_prefix(b"abc", b"b"));
    assert!(between(b"a", b"c").contains(b"a"));
    assert!(between(b"a", b"c").contains(b"c"));
    assert!(!between(b"a", b"c").contains(b"c\x00"));
    assert!(!between(b"a", b"c").contains(b""));
}

#[test]
fn blob_round_trip() {
    let mut store = open();
    let fingerprint = [7u8; 32];
    let data: Vec<u8> = (0..100_000u32).map(|i| (i % 251) as u8).collect();
    assert_eq!(store.get_blob(&fingerprint), Ok(None));
    assert_eq!(store.put_blob(&fingerprint, &data), Ok(()));
    assert_eq!(store.get_blob(&fingerprint), Ok(Some(data.clone())));
    assert_eq!(store.get_blob(&[8u8; 32]), Ok(None));
    assert_eq!(store.get(Subspace::Blobs, &fingerprint), Ok(Some(Vec::new())));
    assert_eq!(store.get(Subspace::BlobData, &fingerprint), Ok(Some(data)));
    assert_eq!(store.put_blob(&fingerprint, b"replaced"), Ok(()));
    assert_eq!(store.get_blob(&fingerprint), Ok(Some(b"replaced".to_vec())));
    assert_eq!(store.put_blob(b"empty", b""), Ok(()));
    assert_eq!(store.get_blob(b"empty"), Ok(Some(Vec::new())));
}

#[test]
fn a_blob_is_there_only_with_both_its_marker_and_its_bytes() {
    let mut store = open();
    store.put(Subspace::BlobData, b"f", b"bytes").unwrap();
    assert_eq!(store.get_blob(b"f"), Ok(None));
    store.put(Subspace::Blobs, b"f", b"").unwrap();
    assert_eq!(store.get_blob(b"f"), Ok(Some(b"bytes".to_vec())));
    store.delete(Subspace::BlobData, b"f").unwrap();
    assert_eq!(store.get_blob(b"f"), Ok(None));
    let long = vec![1u8; 256];
    assert_eq!(
        store.put_blob(&long, b"x"),
        Err(StoreError::Capacity(CapacityError::KeyTooLong))
    );
    assert_eq!(store.get_blob(&long), Ok(None));
    assert_eq!(store.get(Subspace::BlobData, &long), Ok(None));
}

#[test]
fn a_put_beyond_the_bounds_is_refused_and_changes_nothing() {
    let mut store = open();
    store.put(Subspace::Values, b"a", b"kept").unwrap();
    let long_key = vec![b'a'; 256];
    let e = store.put(Subspace::Values, &long_key, b"v").unwrap_err();
    assert_eq!(e, StoreError::Capacity(CapacityError::KeyTooLong));
    assert!(!e.is_fatal());
    assert!(!e.is_retryable());
    assert_eq!(store.put(Subspace::Values, &long_key[..255], b"v"), Ok(()));
    let big = vec![0u8; 16_777_216];
    assert_eq!(
        store.put(Subspace::Values, b"a", &big),
        Err(StoreError::Capacity(CapacityError::ValueTooLong))
    );
    assert_eq!(store.get(Subspace::Values, b"a"), Ok(Some(b"kept".to_vec())));
    assert_eq!(store.put(Subspace::Values, b"a", &big[..16_777_215]), Ok(()));
    assert_eq!(store.put(Subspace::BlobData, b"a", &big), Ok(()));
    assert_eq!(
        store.put(Subspace::Bitmaps, b"bit", b"1"),
        Err(StoreError::Capacity(CapacityError::ValueTooLong))
    );
    assert_eq!(store.get(Subspace::Bitmaps, b"bit"), Ok(None));
    let composite = vec![9u8; 400];
    assert_eq!(store.put(Subspace::Bitmaps, &composite, b""), Ok(()));
    assert_eq!(
        store.put(Subspace::Bitmaps, &vec![9u8; 401], b""),
        Err(StoreError::Capacity(CapacityError::KeyTooLong))
    );
    assert_eq!(store.scan(Subspace::Bitmaps, &everything()).unwrap().len(), 1);
    assert_eq!(store.get(Subspace::Values, &long_key), Ok(None));
}

#[test]
fn reopening_keeps_what_the_store_held() {
    let mut store = open();
    store.put(Subspace::Values, b"a", b"1").unwrap();
    store.put(Subspace::Indexes, b"i", b"").unwrap();
    store.increment(b"n", 41).unwrap();
    store.put_blob(b"f", b"blob").unwrap();
    let mut config = Config::new();
    config.set("store.db.pool.max-connections", "3");
    let mut again = Store::open(&config, store.close()).unwrap();
    assert_eq!(again.pool().max_size, 3);
    assert_eq!(again.get(Subspace::Values, b"a"), Ok(Some(b"1".to_vec())));
    assert_eq!(again.get(Subspace::Indexes, b"i"), Ok(Some(Vec::new())));
    assert_eq!(again.increment(b"n", 1), Ok(42));
    assert_eq!(again.get_blob(b"f"), Ok(Some(b"blob".to_vec())));
    let third = Store::open(&Config::new(), again.close()).unwrap();
    assert_eq!(third.counter(b"n"), Ok(42));
    assert_eq!(third.scan(Subspace::Values, &everything()), Ok(vec![row(b"a", b"1")]));
}

#[test]
fn errors_say_whether_to_try_again() {
    assert!(Connectivity::PoolExhausted.retryable());
    assert!(Connectivity::ConnectTimeout.retryable());
    assert!(Connectivity::ConnectionLost.retryable());
    assert!(!Connectivity::Unavailable.retryable());
    assert!(StoreError::Connectivity(Connectivity::ConnectTimeout).is_retryable());
    assert!(!StoreError::Connectivity(Connectivity::Unavailable).is_retryable());
    assert!(!StoreError::Connectivity(Connectivity::ConnectionLost).is_fatal());
    assert!(!StoreError::Capacity(CapacityError::ValueTooLong).is_retryable());
    let refused = StoreError::Provisioning {
        statement: "CREATE".to_string(),
        reason: "denied".to_string(),
    };
    assert!(refused.is_fatal());
    assert!(!refused.is_retryable());
}
