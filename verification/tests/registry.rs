use store::collection::{Collection, COLLECTION_COUNT};
use store::error::CapacityError;
use store::subspace::{KeyKind, Schema, Subspace, ValueKind, SUBSPACE_COUNT};

fn all_subspaces() -> Vec<Subspace> {
    vec![
        Subspace::Values,
        Subspace::Logs,
        Subspace::IndexValues,
        Subspace::BlobData,
        Subspace::Indexes,
        Subspace::Bitmaps,
        Subspace::Blobs,
        Subspace::Counters,
    ]
}

#[test]
fn collection_tags_run_from_zero_to_seven() {
    let all = [
        Collection::Principal,
        Collection::PushSubscription,
        Collection::Email,
        Collection::Mailbox,
        Collection::Thread,
        Collection::Identity,
        Collection::EmailSubmission,
        Collection::SieveScript,
    ];
    assert_eq!(COLLECTION_COUNT, 8);
    for (i, c) in all.iter().enumerate() {
        assert_eq!(c.to_u8(), i as u8);
        assert_eq!(u8::from(*c), i as u8);
        assert_eq!(Collection::from(i as u8), *c);
        assert_eq!(Collection::from_u8(i as u8), Some(*c));
    }
}

#[test]
fn collection_rejects_unknown_tags() {
    assert_eq!(Collection::from_u8(8), None);
    assert_eq!(Collection::from_u8(255), None);
}

#[test]
fn collection_names_are_the_protocol_names() {
    assert_eq!(Collection::Principal.to_string(), "principal");
    assert_eq!(Collection::PushSubscription.to_string(), "pushSubscription");
    assert_eq!(Collection::Email.to_string(), "email");
    assert_eq!(Collection::Mailbox.to_string(), "mailbox");
    assert_eq!(Collection::Thread.to_string(), "thread");
    assert_eq!(Collection::Identity.to_string(), "identity");
    assert_eq!(Collection::EmailSubmission.to_string(), "emailSubmission");
    assert_eq!(Collection::SieveScript.as_str(), "sieveScript");
}

#[test]
fn subspace_identifiers_are_distinct_letters() {
    let all = all_subspaces();
    assert_eq!(all.len(), SUBSPACE_COUNT);
    for (i, a) in all.iter().enumerate() {
        let id = a.physical_name();
        assert!(id.is_ascii_lowercase());
        assert_eq!(a.table_name(), id as char);
        assert_eq!(Subspace::from_id(id), Some(*a));
        assert_eq!(a.index(), i);
        assert_eq!(Subspace::at(i), Some(*a));
        for b in all.iter().skip(i + 1) {
            assert_ne!(id, b.physical_name());
        }
    }
}

#[test]
fn subspace_identifiers_are_stable() {
    assert_eq!(Subspace::Values.physical_name(), b'v');
    assert_eq!(Subspace::Logs.physical_name(), b'l');
    assert_eq!(Subspace::IndexValues.physical_name(), b'd');
    assert_eq!(Subspace::Indexes.physical_name(), b'i');
    assert_eq!(Subspace::Bitmaps.physical_name(), b'b');
    assert_eq!(Subspace::Blobs.physical_name(), b'o');
    assert_eq!(Subspace::BlobData.physical_name(), b't');
    assert_eq!(Subspace::Counters.physical_name(), b'c');
}

#[test]
fn unknown_identifier_names_no_subspace() {
    assert_eq!(Subspace::at(SUBSPACE_COUNT), None);
    assert_eq!(Subspace::at(usize::MAX), None);
    assert_eq!(Subspace::from_id(b'z'), None);
    assert_eq!(Subspace::from_id(0), None);
}

#[test]
fn schema_gives_each_subspace_its_shape() {
    let medium = Schema { key_kind: KeyKind::Short, value_kind: ValueKind::Medium };
    assert_eq!(Subspace::Values.schema(), medium);
    assert_eq!(Subspace::Logs.schema(), medium);
    assert_eq!(Subspace::IndexValues.schema(), medium);
    assert_eq!(
        Subspace::BlobData.schema(),
        Schema { key_kind: KeyKind::Short, value_kind: ValueKind::Large }
    );
    let keys_only = Schema { key_kind: KeyKind::Long, value_kind: ValueKind::Absent };
    assert_eq!(Subspace::Indexes.schema(), keys_only);
    assert_eq!(Subspace::Bitmaps.schema(), keys_only);
    assert_eq!(Subspace::Blobs.schema(), keys_only);
    assert_eq!(
        Subspace::Counters.schema(),
        Schema { key_kind: KeyKind::Short, value_kind: ValueKind::Counter }
    );
}

#[test]
fn bounds_of_keys_and_values() {
    assert_eq!(KeyKind::Short.max_len(), 255);
    assert_eq!(KeyKind::Long.max_len(), 400);
    assert_eq!(ValueKind::Absent.max_len(), 0);
    assert_eq!(ValueKind::Medium.max_len(), 16_777_215);
    assert_eq!(ValueKind::Large.max_len(), 4_294_967_295);
    assert_eq!(ValueKind::Counter.max_len(), 0);
}

#[test]
fn check_put_judges_the_key_first() {
    assert_eq!(Subspace::Values.check_put(255, 10), Ok(()));
    assert_eq!(Subspace::Values.check_put(256, 10), Err(CapacityError::KeyTooLong));
    assert_eq!(Subspace::Values.check_put(256, 16_777_216), Err(CapacityError::KeyTooLong));
    assert_eq!(Subspace::Values.check_put(0, 16_777_215), Ok(()));
    assert_eq!(Subspace::Values.check_put(0, 16_777_216), Err(CapacityError::ValueTooLong));
    assert_eq!(Subspace::BlobData.check_put(1, 16_777_216), Ok(()));
    assert_eq!(Subspace::Indexes.check_put(400, 0), Ok(()));
    assert_eq!(Subspace::Indexes.check_put(401, 0), Err(CapacityError::KeyTooLong));
    assert_eq!(Subspace::Bitmaps.check_put(10, 1), Err(CapacityError::ValueTooLong));
    assert_eq!(Subspace::Blobs.check_put(256, 0), Ok(()));
    assert_eq!(Subspace::Blobs.check_put(400, 0), Ok(()));
    assert_eq!(Subspace::Blobs.check_put(401, 0), Err(CapacityError::KeyTooLong));
    assert_eq!(Subspace::Blobs.check_put(1, 1), Err(CapacityError::ValueTooLong));
    assert_eq!(Subspace::Counters.check_put(1, 8), Err(CapacityError::CounterWrite));
    assert_eq!(Subspace::Counters.check_put(256, 8), Err(CapacityError::KeyTooLong));
    assert!(Subspace::Counters.check_key(255));
    assert!(!Subspace::Counters.check_key(256));
}
