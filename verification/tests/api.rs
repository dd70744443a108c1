use wkdmgr::api::{
    delete_key, get_me, header_text, list_keys, remove_key, ApiError, AuthenticatedUid,
    KeyResponseItem,
};
use wkdmgr::openpgp::KeyError;
use wkdmgr::storage::{insert_key, KeyRecord, KeyTable, NewKey};
use wkdmgr::timestamp::Timestamp;

fn check(e: ApiError, status: u16, error: &str, message: &str) {
    assert_eq!(e.status, status);
    assert_eq!(e.error, error);
    assert_eq!(e.message, message);
}

fn record(id: i64) -> KeyRecord {
    KeyRecord {
        id,
        uid: "alice".to_string(),
        address: "alice@example.com".to_string(),
        domain: "example.com".to_string(),
        fingerprint: "ABCD1234".to_string(),
        uploaded_at: "2024-01-01T00:00:00Z".to_string(),
        revoked: true,
        expires_at: Some("2025-01-01T00:00:00Z".to_string()),
    }
}

#[test]
fn errors_have_fixed_codes_and_messages() {
    check(
        ApiError::unauthenticated(),
        401,
        "unauthenticated",
        "the SSO proxy header is missing; this should only happen if the reverse proxy is \
         misconfigured",
    );
    check(
        ApiError::address_not_owned("a@b"),
        400,
        "address_not_owned",
        "a@b is not one of your addresses",
    );
    check(
        ApiError::domain_not_served("b"),
        400,
        "domain_not_served",
        "b is not a domain served by this instance",
    );
    check(
        ApiError::already_exists("a@b"),
        409,
        "already_exists",
        "a key already exists for a@b; delete it first",
    );
    check(
        ApiError::already_exists_shared("a@b"),
        409,
        "already_exists",
        "a key already exists for a@b, published by another owner who still owns it too; ask \
         them to remove it first",
    );
    check(ApiError::not_found(), 404, "not_found", "not found");
    check(ApiError::internal("boom"), 500, "internal_error", "boom");
    check(ApiError::userdb_unavailable("down"), 502, "userdb_unavailable", "down");
}

#[test]
fn key_errors_become_bad_requests() {
    let e = |s: &str| s.to_string();
    check(ApiError::from_key_error(KeyError::ParseFailed(e("m"))), 400, "parse_failed", "m");
    check(ApiError::from_key_error(KeyError::InvalidPrimaryKey(e("m"))), 400, "parse_failed", "m");
    check(
        ApiError::from_key_error(KeyError::NoMatchingUserId(e("a@b"))),
        400,
        "no_matching_uid",
        "the key has no valid signature for a@b",
    );
    check(ApiError::from_key_error(KeyError::Expired(e("m"))), 400, "expired", "m");
}

#[test]
fn identity_comes_from_the_header() {
    assert_eq!(AuthenticatedUid::from_header(Some(b"alice")).unwrap().0, "alice");
    assert_eq!(AuthenticatedUid::from_header(Some(b" a\tb~")).unwrap().0, " a\tb~");
    for bad in [None, Some(&b""[..]), Some(&b"al\xffice"[..]), Some(&b"a\x7f"[..])] {
        assert_eq!(AuthenticatedUid::from_header(bad).unwrap_err().status, 401);
    }
}

#[test]
fn header_text_is_what_http_takes_for_text() {
    for b in 0..=255u8 {
        let bytes = [b'a', b, b'z'];
        let ours = header_text(&bytes);
        let theirs = axum::http::HeaderValue::from_bytes(&bytes)
            .ok()
            .and_then(|v| v.to_str().ok().map(String::from));
        assert_eq!(ours, theirs);
    }
}

#[test]
fn me_lists_addresses() {
    let me = get_me(
        AuthenticatedUid("alice".to_string()),
        Ok(vec!["alice@example.com".to_string()]),
    )
    .unwrap();
    assert_eq!(me.uid, "alice");
    assert_eq!(me.addresses, vec!["alice@example.com"]);
    let e = get_me(AuthenticatedUid("alice".to_string()), Err("down".to_string())).unwrap_err();
    check(e, 502, "userdb_unavailable", "down");
}

#[test]
fn item_shows_the_record_without_its_owner() {
    let item = KeyResponseItem::from_record(record(42));
    assert_eq!(item.id, "42");
    assert_eq!(item.address, "alice@example.com");
    assert_eq!(item.domain, "example.com");
    assert_eq!(item.fingerprint, "ABCD1234");
    assert_eq!(item.uploaded_at, "2024-01-01T00:00:00Z");
    assert!(item.revoked);
    assert_eq!(item.expires_at.as_deref(), Some("2025-01-01T00:00:00Z"));
    assert_eq!(KeyResponseItem::from_record(record(i64::MIN)).id, i64::MIN.to_string());
    assert_eq!(KeyResponseItem::from_record(record(0)).id, "0");
}

#[test]
fn listing_keeps_the_order() {
    let items = list_keys(Ok(vec![record(3), record(1), record(2)])).unwrap();
    let ids: Vec<&str> = items.iter().map(|i| i.id.as_str()).collect();
    assert_eq!(ids, vec!["3", "1", "2"]);
    check(list_keys(Err("boom".to_string())).unwrap_err(), 500, "internal_error", "boom");
}

#[test]
fn only_the_owner_removes_a_key() {
    let mut table = KeyTable::new();
    let key = NewKey {
        uid: "alice",
        domain: "example.com",
        address: "alice@example.com",
        wkd_hash: "somehash",
        fingerprint: "ABCD1234",
        key_data: b"key",
        revoked: false,
        expires_at: None,
    };
    let rec = insert_key(&mut table, &key, None, Timestamp::from_unix(0).unwrap()).unwrap();

    let other = remove_key(&mut table, "bob", rec.id);
    assert!(other.is_none());
    check(delete_key(&Ok(other)).unwrap_err(), 404, "not_found", "not found");
    assert_eq!(table.rows().len(), 1);
    assert!(remove_key(&mut table, "alice", rec.id + 1).is_none());

    let removed = remove_key(&mut table, "alice", rec.id);
    assert_eq!(removed.as_ref().unwrap().address, "alice@example.com");
    assert_eq!(delete_key(&Ok(removed)).unwrap(), 204);
    assert!(table.rows().is_empty());
    check(delete_key(&Err("boom".to_string())).unwrap_err(), 500, "internal_error", "boom");
}
