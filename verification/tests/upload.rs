use sequoia_openpgp::armor;
use sequoia_openpgp::cert::CertBuilder;
use sequoia_openpgp::packet::signature::SignatureBuilder;
use sequoia_openpgp::packet::{Packet, UserID};
use sequoia_openpgp::serialize::Serialize;
use sequoia_openpgp::types::{ReasonForRevocation, SignatureType};
use std::time::{Duration, SystemTime, UNIX_EPOCH};
use wkdmgr::api::{delete_key, get_me, list_keys, remove_key, AuthenticatedUid};
use wkdmgr::openpgp::{parse_cert, KeyError};
use wkdmgr::query::{
    advanced_policy, direct_policy, domain_from_host_header, lookup_and_respond,
};
use wkdmgr::storage::{existing_owner, list_keys_for_uid, InsertError, KeyTable};
use wkdmgr::timestamp::Timestamp;
use wkdmgr::upload::{
    accept_upload, check_claim, check_upload, inspect_key, upload_key, CheckedUpload,
    InspectedKey, OwnerDecision, UploadRequest,
};
use wkdmgr::userdb::flatfile::UserMap;
use wkdmgr::userdb::{FlatFileUserDb, UserDb};
use wkdmgr::wkd_hash::wkd_hash_for_address;

fn now() -> Timestamp {
    let secs = SystemTime::now().duration_since(UNIX_EPOCH).unwrap().as_secs();
    Timestamp::from_unix(secs as i64 + 5).unwrap()
}

fn later(secs: i64) -> Timestamp {
    Timestamp::from_unix(now().unix_secs() + secs).unwrap()
}

fn uid(name: &str) -> AuthenticatedUid {
    AuthenticatedUid(name.to_string())
}

fn directory(users: &[(&str, &[&str])]) -> FlatFileUserDb {
    let mut map = UserMap::new();
    for (name, addresses) in users {
        map.insert(name.to_string(), addresses.iter().map(|a| a.to_string()).collect());
    }
    FlatFileUserDb::from_map(map)
}

fn request(address: &str, key: &str) -> UploadRequest {
    UploadRequest { address: address.to_string(), key: key.to_string() }
}

fn served() -> Vec<String> {
    vec!["example.com".to_string()]
}

fn armored(cert: &sequoia_openpgp::Cert) -> String {
    let mut buf = Vec::new();
    {
        let mut writer = armor::Writer::new(&mut buf, armor::Kind::PublicKey).unwrap();
        cert.serialize(&mut writer).unwrap();
        writer.finalize().unwrap();
    }
    String::from_utf8(buf).unwrap()
}

fn generate_armored_cert(uids: &[&str]) -> (String, sequoia_openpgp::Cert) {
    let mut builder = CertBuilder::new().add_signing_subkey();
    for uid in uids {
        builder = builder.add_userid(*uid);
    }
    let (cert, _revocation) = builder.generate().unwrap();
    (armored(&cert), cert)
}

fn generate_armored_cert_with_uid_revoked(uid_str: &str) -> String {
    let uid: UserID = uid_str.into();
    let (cert, _revocation) =
        CertBuilder::new().add_signing_subkey().add_userid(uid_str).generate().unwrap();
    let mut signer = cert
        .primary_key()
        .key()
        .clone()
        .parts_into_secret()
        .unwrap()
        .into_keypair()
        .unwrap();
    let target = cert.userids().find(|u| u.userid() == &uid).unwrap();
    let uid_revocation = target
        .userid()
        .bind(
            &mut signer,
            &cert,
            SignatureBuilder::new(SignatureType::CertificationRevocation)
                .set_reason_for_revocation(ReasonForRevocation::UIDRetired, b"testing")
                .unwrap(),
        )
        .unwrap();
    armored(&cert.insert_packets(vec![Packet::from(uid_revocation)]).unwrap().0)
}

#[test]
fn end_to_end_upload_then_query_direct_and_advanced() {
    let db = directory(&[("alice", &["alice@example.com"])]);
    let mut table = KeyTable::new();
    let (armored, _cert) = generate_armored_cert(&[
        "Alice <alice@example.com>",
        "Other Name <other@example.com>",
    ]);

    let upload = request("alice@example.com", &armored);
    let item =
        upload_key(&db, &mut table, &served(), &uid("alice"), &upload, now()).unwrap();
    assert_eq!(item.address, "alice@example.com");
    assert_eq!(item.domain, "example.com");
    let key_id: i64 = item.id.parse().unwrap();

    let me = get_me(uid("alice"), db.addresses_for_user("alice")).unwrap();
    assert_eq!(me.uid, "alice");
    assert_eq!(me.addresses[0], "alice@example.com");

    let listed = list_keys(Ok(list_keys_for_uid(&table, "alice"))).unwrap();
    assert_eq!(listed.len(), 1);

    assert_eq!(AuthenticatedUid::from_header(None).unwrap_err().status, 401);

    let dup = upload_key(&db, &mut table, &served(), &uid("alice"), &upload, now()).unwrap_err();
    assert_eq!(dup.status, 409);
    assert_eq!(dup.error, "already_exists");

    let (other_armored, _) = generate_armored_cert(&["Mallory <mallory@example.com>"]);
    let bad_owner = request("mallory@example.com", &other_armored);
    let bad =
        upload_key(&db, &mut table, &served(), &uid("alice"), &bad_owner, now()).unwrap_err();
    assert_eq!(bad.status, 400);
    assert_eq!(bad.error, "address_not_owned");

    let (wkd_hash, domain) = wkd_hash_for_address("alice@example.com").unwrap();
    assert_eq!(domain, "example.com");

    // Direct: the host names the domain.
    let host = domain_from_host_header(Some(b"example.com")).unwrap();
    let direct = lookup_and_respond(&table, &served(), &host, &wkd_hash, now());
    assert_eq!(direct.status, 200);
    assert_eq!(direct.content_type, Some("application/octet-stream"));

    let minimized = parse_cert(&direct.body).unwrap();
    let uids = minimized.userids().unwrap();
    assert_eq!(uids.len(), 1, "minimized cert must contain exactly one UID");
    assert_eq!(uids[0].email.as_deref().unwrap(), "alice@example.com");

    // Advanced: the path names the domain.
    let advanced = lookup_and_respond(&table, &served(), "example.com", &wkd_hash, now());
    assert_eq!(advanced.status, 200);
    assert_eq!(advanced.body, direct.body);

    let policy = direct_policy();
    assert_eq!(policy.status, 200);
    assert_eq!(policy.content_type, Some("text/plain"));
    assert!(policy.body.is_empty());
    assert_eq!(advanced_policy("example.com").status, 200);

    let missing = lookup_and_respond(
        &table,
        &served(),
        "example.com",
        "doesnotexist00000000000000000000",
        now(),
    );
    assert_eq!(missing.status, 404);
    let unknown = lookup_and_respond(&table, &served(), "not-served.example", &wkd_hash, now());
    assert_eq!(unknown.status, 404);

    let removed = remove_key(&mut table, "alice", key_id);
    assert_eq!(delete_key(&Ok(removed)).unwrap(), 204);
    let again = remove_key(&mut table, "alice", key_id);
    assert_eq!(delete_key(&Ok(again)).unwrap_err().status, 404);
    let after = lookup_and_respond(&table, &served(), &host, &wkd_hash, now());
    assert_eq!(after.status, 404);
}

#[test]
fn revoked_key_upload_succeeds_but_query_never_serves_it() {
    let db = directory(&[("alice", &["alice@example.com"])]);
    let mut table = KeyTable::new();
    let armored = generate_armored_cert_with_uid_revoked("Alice <alice@example.com>");

    let upload = request("alice@example.com", &armored);
    let item = upload_key(&db, &mut table, &served(), &uid("alice"), &upload, now())
        .expect("publishing an owner's own revocation must succeed");
    assert!(item.revoked);

    let listed = list_keys(Ok(list_keys_for_uid(&table, "alice"))).unwrap();
    assert!(listed[0].revoked);

    let (wkd_hash, domain) = wkd_hash_for_address("alice@example.com").unwrap();
    assert_eq!(domain, "example.com");
    let answer = lookup_and_respond(&table, &served(), &domain, &wkd_hash, now());
    assert_eq!(answer.status, 404, "a revoked key must never be served over WKD");
}

#[test]
fn reassigned_address_is_published_over() {
    let before = directory(&[("alice", &["role@example.com"])]);
    let after = directory(&[("bob", &["role@example.com"]), ("alice", &["alice@example.com"])]);
    let mut table = KeyTable::new();
    let (first, _) = generate_armored_cert(&["Role <role@example.com>"]);
    let (second, cert) = generate_armored_cert(&["Role <role@example.com>"]);

    let upload = request("role@example.com", &first);
    upload_key(&before, &mut table, &served(), &uid("alice"), &upload, now()).unwrap();
    let upload = request("Role@Example.com", &second);
    let item = upload_key(&after, &mut table, &served(), &uid("bob"), &upload, now()).unwrap();
    assert_eq!(item.fingerprint, cert.fingerprint().to_hex());
    assert!(list_keys_for_uid(&table, "alice").is_empty());
    let (hash, domain) = wkd_hash_for_address("role@example.com").unwrap();
    assert_eq!(existing_owner(&table, &domain, &hash).as_deref(), Some("bob"));
}

#[test]
fn shared_address_is_not_taken_over() {
    let db = directory(&[("alice", &["role@example.com"]), ("bob", &["ROLE@example.com"])]);
    let mut table = KeyTable::new();
    let (first, _) = generate_armored_cert(&["Role <role@example.com>"]);
    let upload = request("role@example.com", &first);
    upload_key(&db, &mut table, &served(), &uid("alice"), &upload, now()).unwrap();
    let e = upload_key(&db, &mut table, &served(), &uid("bob"), &upload, now()).unwrap_err();
    assert_eq!((e.status, e.error), (409, "already_exists"));
    assert!(e.message.contains("published by another owner"));
    assert_eq!(list_keys_for_uid(&table, "alice").len(), 1);
    assert!(list_keys_for_uid(&table, "bob").is_empty());
}

#[test]
fn key_is_served_until_its_expiry() {
    let db = directory(&[("alice", &["alice@example.com"])]);
    let mut table = KeyTable::new();
    let (cert, _) = CertBuilder::new()
        .add_userid("Alice <alice@example.com>")
        .set_validity_period(Duration::from_secs(3600))
        .generate()
        .unwrap();
    let upload = request("alice@example.com", &armored(&cert));
    let item = upload_key(&db, &mut table, &served(), &uid("alice"), &upload, now()).unwrap();
    assert!(item.expires_at.is_some());
    let (hash, domain) = wkd_hash_for_address("alice@example.com").unwrap();
    assert_eq!(lookup_and_respond(&table, &served(), &domain, &hash, later(60)).status, 200);
    assert_eq!(lookup_and_respond(&table, &served(), &domain, &hash, later(3600)).status, 404);

    let mut empty = KeyTable::new();
    let e = upload_key(&db, &mut empty, &served(), &uid("alice"), &upload, later(3600));
    let e = e.unwrap_err();
    assert_eq!((e.status, e.error), (400, "expired"));
    assert!(empty.rows().is_empty());
}

#[test]
fn claims_are_checked() {
    let own = |list: &[&str]| -> Result<Vec<String>, String> {
        Ok(list.iter().map(|a| a.to_string()).collect())
    };
    let (hash, domain) =
        check_claim("Alice@Example.COM", &own(&["alice@example.com"]), &served()).unwrap();
    assert_eq!((hash, domain), wkd_hash_for_address("alice@example.com").unwrap());

    let e = check_claim("a@example.com", &Err("down".to_string()), &served()).unwrap_err();
    assert_eq!((e.status, e.error, e.message.as_str()), (502, "userdb_unavailable", "down"));
    let e = check_claim("a@example.com", &own(&["b@example.com"]), &served()).unwrap_err();
    assert_eq!((e.status, e.error), (400, "address_not_owned"));
    let e = check_claim("nonsense", &own(&["nonsense"]), &served()).unwrap_err();
    assert_eq!((e.status, e.error), (400, "address_not_owned"));
    let e = check_claim("a@Other.com", &own(&["a@other.com"]), &served()).unwrap_err();
    assert_eq!(
        (e.status, e.error, e.message.as_str()),
        (400, "domain_not_served", "other.com is not a domain served by this instance")
    );
}

#[test]
fn inspection_minimizes() {
    let (text, cert) =
        generate_armored_cert(&["Alice <alice@example.com>", "Other <other@example.com>"]);
    let key = inspect_key(&text, "alice@example.com", now()).unwrap();
    assert_eq!(key.fingerprint, cert.fingerprint().to_hex());
    assert!(!key.revoked);
    assert_eq!(parse_cert(&key.key_data).unwrap().userids().unwrap().len(), 1);
    assert!(matches!(
        inspect_key("no key at all!", "alice@example.com", now()).unwrap_err(),
        KeyError::ParseFailed(_)
    ));
    assert!(matches!(
        inspect_key(&text, "nobody@example.com", now()).unwrap_err(),
        KeyError::NoMatchingUserId(_)
    ));
    assert!(matches!(
        inspect_key(&text, "alice@example.com", Timestamp::from_unix(0).unwrap()).unwrap_err(),
        KeyError::InvalidPrimaryKey(_)
    ));
}

fn accepted(name: &str) -> CheckedUpload {
    let key = InspectedKey {
        fingerprint: "ABCD".to_string(),
        key_data: vec![1, 2, 3],
        revoked: false,
        expires_at: None,
    };
    accept_upload(name, "role@example.com", "hash".to_string(), "example.com".to_string(), Ok(key))
        .unwrap()
}

#[test]
fn refused_key_is_not_accepted() {
    let e = accept_upload(
        "alice",
        "a@example.com",
        "hash".to_string(),
        "example.com".to_string(),
        Err(KeyError::Expired("old".to_string())),
    )
    .unwrap_err();
    assert_eq!((e.status, e.error, e.message.as_str()), (400, "expired", "old"));
}

#[test]
fn owner_decides_whether_another_is_asked() {
    let found = |owner: Option<&str>| accepted("bob").owner_found(Ok(owner.map(String::from)));
    assert!(matches!(found(None), Ok(OwnerDecision::Store(_))));
    assert!(matches!(found(Some("bob")), Ok(OwnerDecision::Store(_))));
    match found(Some("alice")) {
        Ok(OwnerDecision::Ask(contest)) => assert_eq!(contest.owner(), "alice"),
        _ => panic!("expected a contested upload"),
    }
    let e = accepted("bob").owner_found(Err("boom".to_string())).unwrap_err();
    assert_eq!((e.status, e.error, e.message.as_str()), (500, "internal_error", "boom"));
}

#[test]
fn storing_follows_the_authorization() {
    let mut table = KeyTable::new();
    let store = |upload: CheckedUpload, table: &mut KeyTable| {
        let owner = existing_owner(table, upload.domain(), upload.wkd_hash());
        match upload.owner_found(Ok(owner)).unwrap() {
            OwnerDecision::Store(a) => a,
            OwnerDecision::Ask(c) => c.owner_asked(&Ok(vec![])).unwrap(),
        }
    };
    let first = store(accepted("alice"), &mut table);
    assert_eq!(first.key_data(), &[1, 2, 3]);
    assert_eq!((first.domain(), first.wkd_hash()), ("example.com", "hash"));
    let record = first.store(&mut table, now()).unwrap();
    assert_eq!(first.stored(Ok(record)).unwrap().id, "1");

    // Authorized over alice's key, but carol is faster.
    let bob = store(accepted("bob"), &mut table);
    let carol = store(accepted("carol"), &mut table);
    assert!(carol.store(&mut table, now()).is_ok());
    let lost = bob.store(&mut table, now()).unwrap_err();
    assert!(matches!(lost, InsertError::OwnedByOther));
    let e = bob.stored(Err(lost)).unwrap_err();
    assert_eq!((e.status, e.error), (409, "already_exists"));
    assert!(e.message.contains("published by another owner"));

    let e = bob.stored(Err(InsertError::Duplicate)).unwrap_err();
    assert_eq!(e.message, "a key already exists for role@example.com; delete it first");
    let e = bob.stored(Err(InsertError::Sqlite("disk".to_string()))).unwrap_err();
    assert_eq!((e.status, e.message.as_str()), (500, "disk"));
}

#[test]
fn failing_directory_stops_a_contested_upload() {
    let contest = || match accepted("bob").owner_found(Ok(Some("alice".to_string()))) {
        Ok(OwnerDecision::Ask(contest)) => contest,
        _ => panic!("expected a contested upload"),
    };
    let e = contest().owner_asked(&Err("down".to_string())).unwrap_err();
    assert_eq!((e.status, e.error, e.message.as_str()), (502, "userdb_unavailable", "down"));
    let e = contest().owner_asked(&Ok(vec!["ROLE@example.com".to_string()])).unwrap_err();
    assert_eq!((e.status, e.error), (409, "already_exists"));
    assert!(contest().owner_asked(&Ok(vec![])).is_ok());
}

#[test]
fn upload_is_checked_before_it_is_stored() {
    let (text, _) = generate_armored_cert(&["Alice <alice@example.com>"]);
    let owned = Ok(vec!["alice@example.com".to_string()]);
    let upload =
        check_upload(&uid("alice"), &request("alice@example.com", &text), &owned, &served(), now())
            .unwrap();
    let (hash, domain) = wkd_hash_for_address("alice@example.com").unwrap();
    assert_eq!((upload.wkd_hash(), upload.domain()), (hash.as_str(), domain.as_str()));
    let e = check_upload(
        &uid("alice"),
        &request("alice@example.com", "garbage"),
        &owned,
        &served(),
        now(),
    )
    .unwrap_err();
    assert_eq!((e.status, e.error), (400, "parse_failed"));
}
