use chrono::{DateTime, SecondsFormat, Utc};
use wkdmgr::storage::{
    delete_key_for_uid, existing_owner, insert_key, list_keys_for_uid, lookup_key_data,
    next_migration, InsertError, KeyRecord, KeyRow, KeyTable, NewKey,
};
use wkdmgr::timestamp::{rfc3339_secs, Timestamp, MAX_UNIX_SECS, MIN_UNIX_SECS};

fn now() -> Timestamp {
    Timestamp::from_unix(Utc::now().timestamp()).unwrap()
}

fn at(secs: i64) -> Timestamp {
    Timestamp::from_unix(secs).unwrap()
}

fn new_key<'a>(
    uid: &'a str,
    address: &'a str,
    fingerprint: &'a str,
    key_data: &'a [u8],
) -> NewKey<'a> {
    NewKey {
        uid,
        domain: "example.com",
        address,
        wkd_hash: "somehash",
        fingerprint,
        key_data,
        revoked: false,
        expires_at: None,
    }
}

#[test]
fn insert_list_delete_roundtrip() {
    let mut table = KeyTable::new();
    let rec = insert_key(
        &mut table,
        &new_key("alice", "alice@example.com", "ABCD1234", b"key bytes"),
        None,
        now(),
    )
    .unwrap();
    assert_eq!(rec.uid, "alice");
    assert!(!rec.revoked);
    assert_eq!(rec.expires_at, None);

    let keys = list_keys_for_uid(&table, "alice");
    assert_eq!(keys.len(), 1);
    assert!(!keys[0].revoked);

    let other = list_keys_for_uid(&table, "bob");
    assert!(other.is_empty());

    assert!(!delete_key_for_uid(&mut table, rec.id, "bob"));
    assert!(delete_key_for_uid(&mut table, rec.id, "alice"));
    assert!(list_keys_for_uid(&table, "alice").is_empty());
}

#[test]
fn duplicate_domain_hash_from_same_owner_rejected() {
    let mut table = KeyTable::new();
    insert_key(
        &mut table,
        &new_key("alice", "alice@example.com", "ABCD1234", b"key bytes"),
        None,
        now(),
    )
    .unwrap();

    let err = insert_key(
        &mut table,
        &new_key("alice", "alice@example.com", "EEEE5678", b"other key bytes"),
        None,
        now(),
    )
    .unwrap_err();
    assert!(matches!(err, InsertError::Duplicate));
    assert_eq!(err.to_string(), "a key already exists for this domain/address");
}

#[test]
fn upload_from_new_owner_replaces_old_owners_row_when_told_to() {
    let mut table = KeyTable::new();
    let old = insert_key(
        &mut table,
        &new_key("alice", "role@example.com", "AAAA1111", b"alice's key"),
        None,
        now(),
    )
    .unwrap();

    let new = insert_key(
        &mut table,
        &new_key("bob", "role@example.com", "BBBB2222", b"bob's key"),
        Some("alice"),
        now(),
    )
    .unwrap();
    assert_eq!(new.uid, "bob");
    assert_ne!(new.id, old.id);

    assert!(list_keys_for_uid(&table, "alice").is_empty());
    let bobs_keys = list_keys_for_uid(&table, "bob");
    assert_eq!(bobs_keys.len(), 1);
    assert_eq!(bobs_keys[0].fingerprint, "BBBB2222");

    let data = lookup_key_data(&table, "example.com", "somehash", now());
    assert_eq!(data, Some(b"bob's key".to_vec()));
}

#[test]
fn upload_from_different_owner_without_matching_replace_authorization_is_rejected() {
    let mut table = KeyTable::new();
    insert_key(
        &mut table,
        &new_key("alice", "support@example.com", "AAAA1111", b"alice's key"),
        None,
        now(),
    )
    .unwrap();

    let err = insert_key(
        &mut table,
        &new_key("bob", "support@example.com", "BBBB2222", b"bob's key"),
        None,
        now(),
    )
    .unwrap_err();
    assert!(matches!(err, InsertError::OwnedByOther));
    assert_eq!(
        err.to_string(),
        "a key already exists for this domain/address, owned by someone else who still owns it"
    );

    let alices_keys = list_keys_for_uid(&table, "alice");
    assert_eq!(alices_keys.len(), 1);
    assert_eq!(alices_keys[0].fingerprint, "AAAA1111");
    assert!(list_keys_for_uid(&table, "bob").is_empty());
    let data = lookup_key_data(&table, "example.com", "somehash", now());
    assert_eq!(data, Some(b"alice's key".to_vec()));
}

#[test]
fn stale_replace_authorization_does_not_delete_a_different_current_owners_row() {
    let mut table = KeyTable::new();
    insert_key(
        &mut table,
        &new_key("alice", "support@example.com", "AAAA1111", b"alice's key"),
        None,
        now(),
    )
    .unwrap();
    insert_key(
        &mut table,
        &new_key("carol", "support@example.com", "CCCC3333", b"carol's key"),
        Some("alice"),
        now(),
    )
    .unwrap();

    let err = insert_key(
        &mut table,
        &new_key("bob", "support@example.com", "BBBB2222", b"bob's key"),
        Some("alice"),
        now(),
    )
    .unwrap_err();
    assert!(matches!(err, InsertError::OwnedByOther));

    let carols_keys = list_keys_for_uid(&table, "carol");
    assert_eq!(carols_keys.len(), 1);
    assert_eq!(carols_keys[0].fingerprint, "CCCC3333");
    assert!(list_keys_for_uid(&table, "bob").is_empty());
    let data = lookup_key_data(&table, "example.com", "somehash", now());
    assert_eq!(data, Some(b"carol's key".to_vec()));
}

#[test]
fn existing_owner_reports_current_uid_or_none() {
    let mut table = KeyTable::new();
    assert_eq!(existing_owner(&table, "example.com", "somehash"), None);

    insert_key(
        &mut table,
        &new_key("alice", "alice@example.com", "ABCD1234", b"key bytes"),
        None,
        now(),
    )
    .unwrap();

    assert_eq!(existing_owner(&table, "example.com", "somehash"), Some("alice".to_string()));
}

#[test]
fn query_binary_reads_via_readonly_handle() {
    let mut table = KeyTable::new();
    insert_key(
        &mut table,
        &new_key("alice", "alice@example.com", "ABCD1234", b"key bytes"),
        None,
        now(),
    )
    .unwrap();

    let ro: &KeyTable = &table;
    let data = lookup_key_data(ro, "example.com", "somehash", now());
    assert_eq!(data, Some(b"key bytes".to_vec()));

    let missing = lookup_key_data(ro, "example.com", "nope", now());
    assert_eq!(missing, None);
}

#[test]
fn revoked_row_is_never_served() {
    let mut table = KeyTable::new();
    let mut key = new_key("alice", "alice@example.com", "ABCD1234", b"revoked key bytes");
    key.revoked = true;
    let rec = insert_key(&mut table, &key, None, now()).unwrap();
    assert!(rec.revoked);

    let keys = list_keys_for_uid(&table, "alice");
    assert_eq!(keys.len(), 1);
    assert!(keys[0].revoked);

    let data = lookup_key_data(&table, "example.com", "somehash", now());
    assert_eq!(data, None);
}

#[test]
fn expired_row_is_never_served_but_stays_listed() {
    let mut table = KeyTable::new();
    let mut key = new_key("alice", "alice@example.com", "ABCD1234", b"expired key bytes");
    key.expires_at = Some(at(now().unix_secs() - 24 * 3600));
    let rec = insert_key(&mut table, &key, None, now()).unwrap();
    assert!(rec.expires_at.is_some());

    assert_eq!(list_keys_for_uid(&table, "alice").len(), 1);
    let data = lookup_key_data(&table, "example.com", "somehash", now());
    assert_eq!(data, None);
}

#[test]
fn not_yet_expired_row_is_served() {
    let mut table = KeyTable::new();
    let mut key = new_key("alice", "alice@example.com", "ABCD1234", b"live key bytes");
    key.expires_at = Some(at(now().unix_secs() + 365 * 24 * 3600));
    insert_key(&mut table, &key, None, now()).unwrap();

    let data = lookup_key_data(&table, "example.com", "somehash", now());
    assert_eq!(data, Some(b"live key bytes".to_vec()));
}

#[test]
fn rfc3339_secs_sorts_consistently() {
    let earlier = now();
    let later = at(earlier.unix_secs() + 1);
    assert!(rfc3339_secs(earlier) < rfc3339_secs(later));
}

/// Opening a database again finds nothing left to migrate.
#[test]
fn migrations_run_once_each() {
    let total = 3;
    let mut version = 0;
    let mut run = Vec::new();
    while let Some((index, recorded)) = next_migration(version, total) {
        run.push(index);
        version = recorded;
    }
    assert_eq!(run, vec![0, 1, 2]);
    assert_eq!(version, 3);
    assert_eq!(next_migration(version, total), None);
}

/// A migration that was not recorded is the one to run next.
#[test]
fn unrecorded_migration_is_next() {
    let before = 1;
    let first = next_migration(before, 3);
    assert_eq!(first, Some((1, 2)));
    let after = before;
    assert_eq!(next_migration(after, 3), first);
}

#[test]
fn migrations_of_odd_versions() {
    assert_eq!(next_migration(-5, 1), Some((0, 1)));
    assert_eq!(next_migration(7, 3), None);
    assert_eq!(next_migration(0, 0), None);
}

#[test]
fn listing_is_newest_first() {
    let mut table = KeyTable::new();
    for (hash, secs) in [("a", 100), ("b", 300), ("c", 200)] {
        let mut key = new_key("alice", "alice@example.com", hash, b"k");
        key.wkd_hash = hash;
        insert_key(&mut table, &key, None, at(secs)).unwrap();
    }
    let order: Vec<String> =
        list_keys_for_uid(&table, "alice").iter().map(|r| r.fingerprint.clone()).collect();
    assert_eq!(order, vec!["b", "c", "a"]);
}

#[test]
fn key_is_served_until_it_expires() {
    let mut table = KeyTable::new();
    let mut key = new_key("alice", "alice@example.com", "ABCD1234", b"key");
    key.expires_at = Some(at(1000));
    let rec = insert_key(&mut table, &key, None, at(0)).unwrap();
    assert_eq!(rec.uploaded_at, "1970-01-01T00:00:00Z");
    assert_eq!(rec.expires_at.as_deref(), Some("1970-01-01T00:16:40Z"));
    assert!(lookup_key_data(&table, "example.com", "somehash", at(999)).is_some());
    assert!(lookup_key_data(&table, "example.com", "somehash", at(1000)).is_none());
    assert!(lookup_key_data(&table, "example.com", "somehash", at(1001)).is_none());
}

#[test]
fn ids_are_not_given_out_again() {
    let mut table = KeyTable::new();
    let key = new_key("alice", "alice@example.com", "ABCD1234", b"key");
    let first = insert_key(&mut table, &key, None, now()).unwrap();
    assert_eq!(first.id, 1);
    assert!(delete_key_for_uid(&mut table, first.id, "alice"));
    assert!(!delete_key_for_uid(&mut table, first.id, "alice"));
    let second = insert_key(&mut table, &key, None, now()).unwrap();
    assert_eq!(second.id, 2);
    assert_eq!(table.last_id(), 2);
}

fn row(id: i64, hash: &str) -> KeyRow {
    KeyRow {
        record: KeyRecord {
            id,
            uid: "alice".to_string(),
            address: "alice@example.com".to_string(),
            domain: "example.com".to_string(),
            fingerprint: "ABCD".to_string(),
            uploaded_at: "2024-01-01T00:00:00Z".to_string(),
            revoked: false,
            expires_at: None,
        },
        wkd_hash: hash.to_string(),
        key_data: vec![1],
    }
}

#[test]
fn rows_have_to_be_consistent() {
    assert!(KeyTable::from_rows(vec![row(1, "a"), row(2, "b")], 2).is_some());
    assert!(KeyTable::from_rows(vec![row(1, "a"), row(2, "a")], 2).is_none());
    assert!(KeyTable::from_rows(vec![row(1, "a"), row(1, "b")], 2).is_none());
    assert!(KeyTable::from_rows(vec![row(1, "a"), row(2, "b"), row(1, "c")], 9).is_none());
}

#[test]
fn a_row_may_have_an_id_that_was_never_given_out() {
    let table = KeyTable::from_rows(vec![row(1, "a"), row(7, "b"), row(3, "c")], 2).unwrap();
    assert_eq!(table.last_id(), 7);
    assert_eq!(table.rows().len(), 3);

    let mut table = KeyTable::from_rows(vec![row(0, "a"), row(-4, "b")], 2).unwrap();
    assert_eq!(table.last_id(), 2);
    assert_eq!(lookup_key_data(&table, "example.com", "a", now()).unwrap(), [1]);
    assert_eq!(list_keys_for_uid(&table, "alice").len(), 2);
    let key = new_key("bob", "bob@example.com", "ABCD1234", b"key");
    assert_eq!(insert_key(&mut table, &key, None, now()).unwrap().id, 3);
    assert!(delete_key_for_uid(&mut table, -4, "alice"));

    assert_eq!(KeyTable::from_rows(vec![], -1).unwrap().last_id(), -1);
}

#[test]
fn no_key_is_stored_without_an_id() {
    let mut table = KeyTable::from_rows(vec![row(i64::MAX, "a")], i64::MAX).unwrap();
    let err = insert_key(
        &mut table,
        &new_key("alice", "alice@example.com", "ABCD1234", b"key"),
        None,
        now(),
    )
    .unwrap_err();
    assert_eq!(err.to_string(), "database or disk is full");
    assert_eq!(table.rows().len(), 1);
}

#[test]
fn timestamps_are_written_like_chrono_writes_them() {
    for secs in [
        MIN_UNIX_SECS,
        -62167219201,
        -62167219200,
        -1,
        0,
        951782399,
        951782400,
        4107542399,
        253402300799,
        253402300800,
        MAX_UNIX_SECS,
    ] {
        let expected = DateTime::<Utc>::from_timestamp(secs, 0)
            .unwrap()
            .to_rfc3339_opts(SecondsFormat::Secs, true);
        assert_eq!(rfc3339_secs(at(secs)), expected);
    }
    assert_eq!(rfc3339_secs(at(951782400)), "2000-02-29T00:00:00Z");
    assert_eq!(rfc3339_secs(at(-1)), "1969-12-31T23:59:59Z");
}

#[test]
fn timestamps_have_the_range_of_chrono() {
    assert!(Timestamp::from_unix(MIN_UNIX_SECS - 1).is_none());
    assert!(Timestamp::from_unix(MAX_UNIX_SECS + 1).is_none());
    assert!(DateTime::<Utc>::from_timestamp(MIN_UNIX_SECS, 0).is_some());
    assert!(DateTime::<Utc>::from_timestamp(MIN_UNIX_SECS - 1, 0).is_none());
    assert!(DateTime::<Utc>::from_timestamp(MAX_UNIX_SECS, 0).is_some());
    assert!(DateTime::<Utc>::from_timestamp(MAX_UNIX_SECS + 1, 0).is_none());
}
