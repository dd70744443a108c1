use wkdmgr::query::{
    admit_lookup, advanced_policy, direct_policy, domain_from_host_header, found, not_found, Handle,
};
use wkdmgr::query::lookup_and_respond;
use wkdmgr::storage::{insert_key, lookup_key_data, KeyTable, NewKey};
use wkdmgr::timestamp::Timestamp;

fn at(secs: i64) -> Timestamp {
    Timestamp::from_unix(secs).unwrap()
}

fn seeded() -> KeyTable {
    let mut table = KeyTable::new();
    let key = NewKey {
        uid: "alice",
        domain: "example.com",
        address: "alice@example.com",
        wkd_hash: "somehash",
        fingerprint: "ABCD1234",
        key_data: b"key bytes",
        revoked: false,
        expires_at: None,
    };
    insert_key(&mut table, &key, None, at(0)).unwrap();
    table
}

/// A lookup through a handle, which may point to nothing that can be read.
fn look_up(handle: &mut Handle<Option<KeyTable>>, domain: &str, hash: &str) -> u16 {
    let allowed = vec!["example.com".to_string()];
    let Some(lookup) = admit_lookup(domain, hash, &allowed) else {
        return not_found().status;
    };
    if handle.connection().is_none() {
        handle.reopened(Ok(Some(seeded())));
    }
    let outcome = match handle.connection() {
        Some(Some(table)) => Ok(lookup_key_data(table, &lookup.domain, &lookup.hash, at(0))),
        _ => Err("no such table: keys".to_string()),
    };
    handle.looked_up(outcome).status
}

#[test]
fn cached_connection_is_invalidated_on_error_and_recovers() {
    let mut handle = Handle::new(Ok(Some(seeded())));

    assert_eq!(look_up(&mut handle, "example.com", "somehash"), 200);
    assert!(handle.connection().is_some());

    handle.reopened(Ok(None));
    assert_eq!(look_up(&mut handle, "example.com", "somehash"), 404);
    assert!(handle.connection().is_none());

    assert_eq!(look_up(&mut handle, "example.com", "somehash"), 200);
}

#[test]
fn handle_starts_without_a_database() {
    let mut handle: Handle<u8> = Handle::new(Err("no such file".to_string()));
    assert!(handle.connection().is_none());
    handle.reopened(Err("no such file".to_string()));
    assert!(handle.connection().is_none());
    handle.reopened(Ok(7));
    assert_eq!(handle.connection(), Some(&7));
    let found = handle.looked_up(Ok(None));
    assert_eq!(found.status, 404);
    assert_eq!(handle.connection(), Some(&7));
}

#[test]
fn host_names_the_domain() {
    let domain = |host: &[u8]| domain_from_host_header(Some(host));
    assert_eq!(domain(b"example.com").as_deref(), Some("example.com"));
    assert_eq!(domain(b"example.com:8443").as_deref(), Some("example.com"));
    assert_eq!(domain(b"a:b:c").as_deref(), Some("a:b"));
    assert_eq!(domain(b"example.com:").as_deref(), Some("example.com"));
    assert_eq!(domain(b""), None);
    assert_eq!(domain(b":443"), None);
    assert_eq!(domain(b"ex\xe4mple.com"), None);
    assert_eq!(domain_from_host_header(None), None);
}

#[test]
fn policies_are_empty_texts() {
    for policy in [direct_policy(), advanced_policy("example.com")] {
        assert_eq!(policy.status, 200);
        assert_eq!(policy.content_type, Some("text/plain"));
        assert!(policy.body.is_empty());
    }
}

#[test]
fn responses_carry_the_key_or_nothing() {
    let yes = found(Some(vec![1, 2, 3]));
    assert_eq!(yes.status, 200);
    assert_eq!(yes.content_type, Some("application/octet-stream"));
    assert_eq!(yes.body, vec![1, 2, 3]);
    for no in [found(None), not_found()] {
        assert_eq!(no.status, 404);
        assert_eq!(no.content_type, None);
        assert!(no.body.is_empty());
    }
}

#[test]
fn domain_is_admitted_in_any_case() {
    let allowed = vec!["Example.com".to_string()];
    let lookup = admit_lookup("EXAMPLE.Com", "h", &allowed).unwrap();
    assert_eq!(lookup.domain, "example.com");
    assert_eq!(lookup.hash, "h");
    assert!(admit_lookup("other.com", "h", &allowed).is_none());
    assert!(admit_lookup("example.com", "h", &vec![]).is_none());
}

#[test]
fn refusals_look_alike() {
    let table = seeded();
    let allowed = vec!["example.com".to_string()];
    let ok = lookup_and_respond(&table, &allowed, "EXAMPLE.COM", "somehash", at(0));
    assert_eq!(ok.status, 200);
    assert_eq!(ok.body, b"key bytes");
    for (domain, hash) in [("example.com", "nope"), ("not-served.example", "somehash")] {
        let no = lookup_and_respond(&table, &allowed, domain, hash, at(0));
        assert_eq!((no.status, no.content_type, no.body), (404, None, vec![]));
    }
}
