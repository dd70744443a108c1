use base64::Engine;
use sequoia_openpgp::armor;
use sequoia_openpgp::cert::CertBuilder;
use sequoia_openpgp::packet::signature::subpacket::{
    NotationData, Subpacket, SubpacketTag, SubpacketValue,
};
use sequoia_openpgp::packet::signature::SignatureBuilder;
use sequoia_openpgp::packet::{Packet, UserID};
use sequoia_openpgp::parse::Parse;
use sequoia_openpgp::serialize::Serialize;
use sequoia_openpgp::serialize::SerializeInto;
use sequoia_openpgp::types::{KeyFlags, ReasonForRevocation, SignatureType};
use std::time::{Duration, SystemTime, UNIX_EPOCH};
use wkdmgr::openpgp::{
    check_for_address, counts_as_revoked, expiration_time, find_user_id, fingerprint_hex,
    is_revoked, minimize_for_address, parse_cert, parse_decoded, parse_key_material,
    select_for_publication, select_packets, select_user_id, userid_matches, validate_for_address,
    Cert, KeyError, OwnSignatures, PrimaryPart, Revocation, SubkeyPart, UserId,
};
use wkdmgr::timestamp::{Timestamp, MAX_UNIX_SECS, MIN_UNIX_SECS};

type Pgp = sequoia_openpgp::Cert;

fn now() -> Timestamp {
    let secs = SystemTime::now().duration_since(UNIX_EPOCH).unwrap().as_secs();
    Timestamp::from_unix(secs as i64).unwrap()
}

fn later(secs: i64) -> Timestamp {
    Timestamp::from_unix(now().unix_secs() + secs).unwrap()
}

fn cert_with_uids(uids: &[&str]) -> Pgp {
    let mut builder = CertBuilder::new().add_signing_subkey();
    for uid in uids {
        builder = builder.add_userid(*uid);
    }
    let (cert, _revocation) = builder.generate().unwrap();
    cert
}

fn library_cert(cert: &Pgp) -> Cert {
    parse_cert(&cert.to_vec().unwrap()).unwrap()
}

fn armored(cert: &Pgp) -> String {
    let mut buf = Vec::new();
    {
        let mut writer = armor::Writer::new(&mut buf, armor::Kind::PublicKey).unwrap();
        cert.serialize(&mut writer).unwrap();
        writer.finalize().unwrap();
    }
    String::from_utf8(buf).unwrap()
}

fn revoke_uid(cert: Pgp, uid_str: &str) -> Pgp {
    let uid: UserID = uid_str.into();
    let mut signer = cert
        .primary_key()
        .key()
        .clone()
        .parts_into_secret()
        .unwrap()
        .into_keypair()
        .unwrap();
    let target = cert.userids().find(|u| u.userid() == &uid).unwrap();
    let revocation = target
        .userid()
        .bind(
            &mut signer,
            &cert,
            SignatureBuilder::new(SignatureType::CertificationRevocation)
                .set_reason_for_revocation(ReasonForRevocation::UIDRetired, b"testing")
                .unwrap(),
        )
        .unwrap();
    cert.insert_packets(vec![Packet::from(revocation)]).unwrap().0
}

#[test]
fn parses_valid_generated_cert() {
    let cert = cert_with_uids(&["Alice <alice@example.com>"]);
    let mut buf = Vec::new();
    cert.serialize(&mut buf).unwrap();
    let parsed = parse_cert(&buf).unwrap();
    assert_eq!(fingerprint_hex(&parsed), cert.fingerprint().to_hex());
}

#[test]
fn rejects_garbage_bytes() {
    let err = parse_cert(b"this is not an openpgp key").unwrap_err();
    assert!(matches!(err, KeyError::ParseFailed(_)));
}

#[test]
fn validates_matching_address() {
    let cert = library_cert(&cert_with_uids(&["Alice <alice@example.com>"]));
    assert!(validate_for_address(&cert, "alice@example.com", now()).is_ok());
    assert!(validate_for_address(&cert, "ALICE@EXAMPLE.COM", now()).is_ok());
}

#[test]
fn rejects_non_matching_address() {
    let cert = library_cert(&cert_with_uids(&["Alice <alice@example.com>"]));
    let err = validate_for_address(&cert, "mallory@example.com", now()).unwrap_err();
    assert!(matches!(err, KeyError::NoMatchingUserId(_)));
    assert_eq!(err.to_string(), "key has no valid User ID matching mallory@example.com");
}

#[test]
fn minimization_strips_all_but_target_uid() {
    let cert = cert_with_uids(&[
        "Alice <alice@example.com>",
        "Alice Smith <alice.smith@example.org>",
        "Al <al@example.net>",
    ]);

    let minimized_bytes =
        minimize_for_address(&library_cert(&cert), "alice.smith@example.org", now()).unwrap();
    let minimized = parse_cert(&minimized_bytes).unwrap();

    let uids = minimized.userids().unwrap();
    assert_eq!(uids.len(), 1, "expected exactly one UID after minimization");
    assert_eq!(uids[0].email.as_deref().unwrap(), "alice.smith@example.org");

    assert!(validate_for_address(&minimized, "alice.smith@example.org", now()).is_ok());
    assert_eq!(fingerprint_hex(&minimized), cert.fingerprint().to_hex());
    assert!(!minimized.is_tsk());
}

#[test]
fn minimization_preserves_subkeys() {
    let cert = cert_with_uids(&["Alice <alice@example.com>", "Other <other@example.com>"]);
    let minimized_bytes =
        minimize_for_address(&library_cert(&cert), "alice@example.com", now()).unwrap();
    assert!(parse_cert(&minimized_bytes).is_ok());
    let minimized = Pgp::from_bytes(&minimized_bytes).unwrap();

    let original_subkey_count = cert.keys().subkeys().count();
    let minimized_subkey_count = minimized.keys().subkeys().count();
    assert_eq!(original_subkey_count, minimized_subkey_count);
    assert!(minimized_subkey_count > 0);
}

#[test]
fn minimize_fails_for_address_without_uid() {
    let cert = library_cert(&cert_with_uids(&["Alice <alice@example.com>"]));
    let err = minimize_for_address(&cert, "nobody@example.com", now()).unwrap_err();
    assert!(matches!(err, KeyError::NoMatchingUserId(_)));
}

#[test]
fn secret_key_material_is_dropped() {
    let cert = cert_with_uids(&["Alice <alice@example.com>"]);
    let with_secrets = parse_cert(&cert.as_tsk().to_vec().unwrap()).unwrap();
    assert!(with_secrets.is_tsk());
    let minimized = minimize_for_address(&with_secrets, "alice@example.com", now()).unwrap();
    assert!(!parse_cert(&minimized).unwrap().is_tsk());
}

#[test]
fn certifications_by_others_are_dropped() {
    let alice = cert_with_uids(&["Alice <alice@example.com>"]);
    let bob = cert_with_uids(&["Bob <bob@example.com>"]);
    let mut signer = bob
        .primary_key()
        .key()
        .clone()
        .parts_into_secret()
        .unwrap()
        .into_keypair()
        .unwrap();
    let certification = alice
        .userids()
        .next()
        .unwrap()
        .userid()
        .bind(&mut signer, &alice, SignatureBuilder::new(SignatureType::GenericCertification))
        .unwrap();
    let certified = alice.insert_packets(vec![Packet::from(certification)]).unwrap().0;
    assert_eq!(certified.userids().next().unwrap().certifications().count(), 1);

    let bytes =
        minimize_for_address(&library_cert(&certified), "alice@example.com", now()).unwrap();
    let minimized = Pgp::from_bytes(&bytes).unwrap();
    assert_eq!(minimized.userids().next().unwrap().certifications().count(), 0);
}

#[test]
fn key_material_comes_armored_or_in_base64() {
    let cert = cert_with_uids(&["Alice <alice@example.com>"]);
    let hex = cert.fingerprint().to_hex();

    let from_armor = parse_key_material(&format!("\n  {}\n\n", armored(&cert))).unwrap();
    assert_eq!(fingerprint_hex(&from_armor), hex);

    let text = base64::engine::general_purpose::STANDARD.encode(cert.to_vec().unwrap());
    let from_base64 = parse_key_material(&format!(" {text} ")).unwrap();
    assert_eq!(fingerprint_hex(&from_base64), hex);
}

#[test]
fn key_material_that_is_neither_is_refused() {
    let err = parse_key_material("!!! no key !!!").unwrap_err();
    match err {
        KeyError::ParseFailed(m) => {
            assert!(m.starts_with("key is neither valid OpenPGP armor nor valid base64: "))
        }
        _ => panic!("expected a parse error"),
    }
    assert!(matches!(parse_key_material("AAAA").unwrap_err(), KeyError::ParseFailed(_)));
    let err = parse_decoded(Err("bad symbol".to_string())).unwrap_err();
    assert_eq!(
        err.to_string(),
        "failed to parse key material: key is neither valid OpenPGP armor nor valid base64: bad \
         symbol"
    );
}

#[test]
fn expired_key_is_refused() {
    let (cert, _) = CertBuilder::new()
        .add_userid("Alice <alice@example.com>")
        .set_validity_period(Duration::from_secs(3600))
        .generate()
        .unwrap();
    let key = library_cert(&cert);
    assert!(validate_for_address(&key, "alice@example.com", now()).is_ok());

    let expiry = expiration_time(&key, now()).unwrap().unwrap();
    let age = expiry.unix_secs() - now().unix_secs();
    assert!(3500 <= age && age <= 3600);

    let err = validate_for_address(&key, "alice@example.com", later(7200)).unwrap_err();
    match &err {
        KeyError::Expired(m) => assert!(m.starts_with("the key expired at 20")),
        _ => panic!("expected an expired key"),
    }
    assert!(err.to_string().starts_with("key has expired: the key expired at 20"));
    let last = Timestamp::from_unix(expiry.unix_secs() - 1).unwrap();
    assert!(validate_for_address(&key, "alice@example.com", last).is_ok());
    assert!(validate_for_address(&key, "alice@example.com", expiry).is_err());
}

#[test]
fn key_without_expiry_has_none() {
    let (cert, _) =
        CertBuilder::new().add_userid("Alice <alice@example.com>").generate().unwrap();
    assert!(expiration_time(&library_cert(&cert), now()).unwrap().is_none());
}

#[test]
fn key_is_not_valid_before_its_time() {
    let cert = library_cert(&cert_with_uids(&["Alice <alice@example.com>"]));
    let past = Timestamp::from_unix(-1).unwrap();
    assert!(matches!(
        validate_for_address(&cert, "alice@example.com", past).unwrap_err(),
        KeyError::InvalidPrimaryKey(_)
    ));
    assert!(matches!(
        minimize_for_address(&cert, "alice@example.com", past).unwrap_err(),
        KeyError::InvalidPrimaryKey(_)
    ));
    assert!(matches!(expiration_time(&cert, past).unwrap_err(), KeyError::InvalidPrimaryKey(_)));
}

#[test]
fn revoked_user_id_survives_minimization() {
    let cert = revoke_uid(
        cert_with_uids(&["Alice <alice@example.com>", "Al <al@example.net>"]),
        "Alice <alice@example.com>",
    );
    let key = library_cert(&cert);
    assert!(validate_for_address(&key, "alice@example.com", later(5)).is_ok());

    let revoked = minimize_for_address(&key, "alice@example.com", later(5)).unwrap();
    assert!(is_revoked(&revoked, later(5)));
    let other = minimize_for_address(&key, "al@example.net", later(5)).unwrap();
    assert!(!is_revoked(&other, later(5)));
}

#[test]
fn revoked_primary_key_survives_minimization() {
    let (cert, revocation) =
        CertBuilder::new().add_userid("Alice <alice@example.com>").generate().unwrap();
    let fresh = minimize_for_address(&library_cert(&cert), "alice@example.com", now()).unwrap();
    assert!(!is_revoked(&fresh, now()));

    let revoked = cert.insert_packets(vec![Packet::from(revocation)]).unwrap().0;
    let bytes =
        minimize_for_address(&library_cert(&revoked), "alice@example.com", later(5)).unwrap();
    assert!(is_revoked(&bytes, later(5)));
}

#[test]
fn what_cannot_be_read_counts_as_revoked() {
    assert!(is_revoked(b"no key", now()));
    assert!(counts_as_revoked(&Err("unreadable".to_string())));
    let state = |primary: bool, user_ids: &[bool]| -> Result<Revocation, String> {
        Ok(Revocation { primary, user_ids: user_ids.to_vec() })
    };
    assert!(!counts_as_revoked(&state(false, &[])));
    assert!(!counts_as_revoked(&state(false, &[false, false])));
    assert!(counts_as_revoked(&state(false, &[false, true])));
    assert!(counts_as_revoked(&state(true, &[false])));
}

fn primary(expires_at: Option<i64>) -> PrimaryPart {
    PrimaryPart {
        fingerprint: "AB".to_string(),
        packet: vec![1],
        expires_at,
    }
}

fn user_id(email: Option<&str>, mark: u8) -> UserId {
    UserId { packet: vec![mark], email: email.map(String::from) }
}

fn signatures(mark: u8, revocations: &[&[u8]]) -> OwnSignatures {
    OwnSignatures {
        binding: vec![mark],
        revocations: revocations.iter().map(|r| r.to_vec()).collect(),
    }
}

#[test]
fn first_matching_user_id_is_taken() {
    let ids = vec![
        user_id(None, 10),
        user_id(Some("bob@x"), 11),
        user_id(Some("Alice@X"), 12),
        user_id(Some("alice@x"), 13),
    ];
    assert_eq!(find_user_id(&ids, "alice@x"), Some(2));
    assert_eq!(find_user_id(&ids, "carol@x"), None);
    assert!(userid_matches(&Some("A@x".to_string()), "a@X"));
    assert!(!userid_matches(&None, ""));
}

#[test]
fn packets_come_in_the_order_of_a_certificate() {
    let subkeys = vec![
        SubkeyPart { packet: vec![20], signatures: signatures(21, &[]) },
        SubkeyPart { packet: vec![30], signatures: signatures(31, &[&[32], &[33]]) },
    ];
    let bytes = select_packets(
        &primary(None),
        &vec![vec![2], vec![3, 3]],
        &user_id(None, 9),
        &signatures(8, &[&[7, 0]]),
        &subkeys,
    );
    assert_eq!(bytes, vec![1, 2, 3, 3, 9, 8, 7, 0, 20, 21, 30, 31, 32, 33]);
}

#[test]
fn selection_says_why_not() {
    let ids = || Ok(vec![user_id(None, 8), user_id(Some("alice@x"), 9)]);
    let e = |m: &str| m.to_string();
    let (key, list) = (Ok(primary(None)), ids());
    let (key, id, i) = select_user_id(&key, &list, "Alice@x").unwrap();
    assert_eq!((key.packet.as_slice(), id.packet.as_slice(), i), (&[1][..], &[9][..], 1));
    match select_user_id(&Err(e("p")), &ids(), "alice@x").unwrap_err() {
        KeyError::InvalidPrimaryKey(m) => assert_eq!(m, "p"),
        _ => panic!("expected an invalid primary key"),
    }
    match select_user_id(&Ok(primary(None)), &Err(e("u")), "alice@x").unwrap_err() {
        KeyError::InvalidPrimaryKey(m) => assert_eq!(m, "u"),
        _ => panic!("expected an invalid primary key"),
    }
    match select_user_id(&Ok(primary(None)), &ids(), "bob@x").unwrap_err() {
        KeyError::NoMatchingUserId(m) => assert_eq!(m, "bob@x"),
        _ => panic!("expected no matching User ID"),
    }
}

#[test]
fn signature_that_cannot_be_written_is_named() {
    let e = |m: &str| m.to_string();
    let key = primary(None);
    let id = user_id(None, 9);
    let own = || Ok(signatures(8, &[]));
    let bytes = select_for_publication(&key, &id, &Ok(vec![]), &own(), &Ok(vec![])).unwrap();
    assert_eq!(bytes, vec![1, 9, 8]);
    for (r, m) in [
        (select_for_publication(&key, &id, &Err(e("r")), &Err(e("s")), &Ok(vec![])), "r"),
        (select_for_publication(&key, &id, &Ok(vec![]), &Err(e("s")), &Err(e("k"))), "s"),
        (select_for_publication(&key, &id, &Ok(vec![]), &own(), &Err(e("k"))), "k"),
    ] {
        match r.unwrap_err() {
            KeyError::ParseFailed(text) => {
                assert_eq!(text, format!("failed to serialize minimized cert: {m}"))
            }
            _ => panic!("expected a failure to write"),
        }
    }
}

/// The packet of a version 4 signature with more unhashed subpackets.
fn with_unhashed(sig: &Packet, subpackets: &[u8]) -> Vec<u8> {
    let packet = sig.to_vec().unwrap();
    let start = if packet[1] < 192 { 2 } else { 3 };
    let mut body = packet[start..].to_vec();
    assert_eq!(body[0], 4);
    let hashed = u16::from_be_bytes([body[4], body[5]]) as usize;
    let at = 6 + hashed;
    let old = u16::from_be_bytes([body[at], body[at + 1]]) as usize;
    let new = ((old + subpackets.len()) as u16).to_be_bytes();
    body[at] = new[0];
    body[at + 1] = new[1];
    let end = at + 2 + old;
    body.splice(end..end, subpackets.iter().cloned());
    let mut out = vec![packet[0], 255];
    out.extend((body.len() as u32).to_be_bytes());
    out.extend(body);
    out
}

fn with_changed_binding(cert: &Pgp, uid: &str, subpackets: &[u8]) -> Vec<u8> {
    let mut bytes = Vec::new();
    let mut under = false;
    for packet in cert.clone().strip_secret_key_material().into_packets() {
        if let Packet::UserID(u) = &packet {
            under = u.value() == uid.as_bytes();
        }
        match &packet {
            Packet::Signature(sig) if under && sig.typ() == SignatureType::PositiveCertification => {
                bytes.extend(with_unhashed(&packet, subpackets))
            }
            _ => packet.serialize(&mut bytes).unwrap(),
        }
    }
    bytes
}

#[test]
fn only_the_signatures_of_the_chosen_user_id_are_written() {
    let cert = cert_with_uids(&["Alice <alice@example.com>", "Other <other@example.com>"]);
    // The fingerprint of a signer, of a version that can be read but not written.
    let unknown_issuer = [12, 33, 5, 1, 2, 3, 4, 5, 6, 7, 8, 9, 10];
    let bytes = with_changed_binding(&cert, "Other <other@example.com>", &unknown_issuer);
    let parsed = parse_cert(&bytes).unwrap();
    for address in ["alice@example.com", "other@example.com"] {
        assert!(validate_for_address(&parsed, address, now()).is_ok());
    }
    let minimized = minimize_for_address(&parsed, "alice@example.com", now()).unwrap();
    let minimized = parse_cert(&minimized).unwrap();
    assert!(validate_for_address(&minimized, "alice@example.com", now()).is_ok());
    let err = minimize_for_address(&parsed, "other@example.com", now()).unwrap_err().to_string();
    assert!(err.contains("failed to serialize minimized cert: "), "{err}");
}

#[test]
fn long_signatures_are_read_back() {
    let cert = cert_with_uids(&["Alice <alice@example.com>"]);
    let bytes =
        with_changed_binding(&cert, "Alice <alice@example.com>", &notation_of(60_000));
    let once =
        minimize_for_address(&parse_cert(&bytes).unwrap(), "alice@example.com", now()).unwrap();
    assert!(once.len() > 60_000);
    let again = parse_cert(&once).unwrap();
    assert!(validate_for_address(&again, "alice@example.com", now()).is_ok());
    assert_eq!(minimize_for_address(&again, "alice@example.com", now()).unwrap(), once);
}

#[test]
fn check_says_why_not() {
    let ids = || Ok(vec![user_id(Some("alice@x"), 9)]);
    let at = |secs: i64| Timestamp::from_unix(secs).unwrap();
    let expiring = Ok(primary(Some(100)));
    assert!(check_for_address(&expiring, &ids(), "alice@x", at(99)).is_ok());
    match check_for_address(&expiring, &ids(), "alice@x", at(100)).unwrap_err() {
        KeyError::Expired(m) => assert_eq!(m, "the key expired at 1970-01-01T00:01:40Z"),
        _ => panic!("expected an expired key"),
    }
    let e = check_for_address(&Err("p".to_string()), &ids(), "alice@x", at(0)).unwrap_err();
    assert_eq!(
        e.to_string(),
        "key has no valid, non-expired self-signature on its primary key: p"
    );
    let e = check_for_address(&Ok(primary(None)), &Err("u".to_string()), "alice@x", at(0));
    assert!(matches!(e.unwrap_err(), KeyError::InvalidPrimaryKey(_)));
    let e = check_for_address(&Ok(primary(None)), &ids(), "bob@x", at(0));
    assert!(matches!(e.unwrap_err(), KeyError::NoMatchingUserId(_)));
}

#[test]
fn white_space_around_key_material_is_ignored() {
    let cert = cert_with_uids(&["Alice <alice@example.com>"]);
    let encoded = base64::engine::general_purpose::STANDARD.encode(cert.to_vec().unwrap());
    for text in [armored(&cert), encoded] {
        let plain = parse_key_material(&text).unwrap();
        assert_eq!(fingerprint_hex(&plain), cert.fingerprint().to_hex());
        let spaced = format!("\u{a0}\n \t{text}\r\n\u{3000}");
        let parsed = parse_key_material(&spaced).unwrap();
        assert_eq!(fingerprint_hex(&parsed), cert.fingerprint().to_hex());
    }
}

#[test]
fn armor_may_have_headers_and_no_checksum() {
    let cert = cert_with_uids(&["Alice <alice@example.com>"]);
    let with_headers = String::from_utf8(cert.armored().to_vec().unwrap()).unwrap();
    assert!(with_headers.contains("Comment: "));
    let data = base64::engine::general_purpose::STANDARD.encode(cert.to_vec().unwrap());
    let mut texts = vec![with_headers];
    for width in [1, 3, 7, 64, 10_000] {
        let lines: Vec<String> =
            data.as_bytes().chunks(width).map(|c| String::from_utf8(c.to_vec()).unwrap()).collect();
        texts.push(format!(
            "-----BEGIN PGP PUBLIC KEY BLOCK-----\nVersion: 1\n: \n\n{}\n\
             -----END PGP PUBLIC KEY BLOCK-----",
            lines.join("\n")
        ));
    }
    for text in texts {
        let parsed = parse_key_material(&text).unwrap();
        assert_eq!(fingerprint_hex(&parsed), cert.fingerprint().to_hex());
    }
}

#[test]
fn base64_without_armor_is_no_key_by_itself() {
    let cert = cert_with_uids(&["Alice <alice@example.com>"]);
    let encoded = base64::engine::general_purpose::STANDARD.encode(cert.to_vec().unwrap());
    for text in [encoded.as_str(), "", "BEGINPGP", "B", "===="] {
        assert!(parse_cert(text.as_bytes()).is_err());
    }
    // Padding and stray bits count.
    for text in ["Zg", "Zh==", "Zg=", "Z g==", "Zg==Zg=="] {
        let err = parse_key_material(text).unwrap_err().to_string();
        assert!(err.contains("neither valid OpenPGP armor nor valid base64"), "{text}: {err}");
    }
    for text in ["", "Zg==", "Zm8=", "Zm9v", "++//"] {
        let err = parse_key_material(text).unwrap_err().to_string();
        assert!(!err.contains("nor valid base64"), "{text}: {err}");
    }
}

#[test]
fn minimizing_again_gives_the_same_bytes() {
    let (cert, revocation) = CertBuilder::new()
        .add_userid("Alice <alice@example.com>")
        .add_userid("Alice Smith <alice.smith@example.org>")
        .add_signing_subkey()
        .add_transport_encryption_subkey()
        .generate()
        .unwrap();
    let revoked_uid = revoke_uid(cert.clone(), "Alice <alice@example.com>");
    let revoked_key = cert.clone().insert_packets(vec![Packet::from(revocation)]).unwrap().0;
    for cert in [cert, revoked_uid, revoked_key] {
        for address in ["alice@example.com", "alice.smith@example.org"] {
            let once = minimize_for_address(&library_cert(&cert), address, now()).unwrap();
            let again = parse_cert(&once).unwrap();
            assert!(validate_for_address(&again, address, now()).is_ok());
            assert_eq!(minimize_for_address(&again, address, now()).unwrap(), once);
        }
    }
}

#[test]
fn subkeys_and_revocations_are_read_back() {
    let (cert, revocation) = CertBuilder::new()
        .add_userid("Alice <alice@example.com>")
        .add_signing_subkey()
        .add_transport_encryption_subkey()
        .generate()
        .unwrap();
    let cert = revoke_uid(cert, "Alice <alice@example.com>");
    let cert = cert.insert_packets(vec![Packet::from(revocation)]).unwrap().0;
    let bytes = minimize_for_address(&library_cert(&cert), "alice@example.com", now()).unwrap();
    let minimized = Pgp::from_bytes(&bytes).unwrap();

    let own = |c: &Pgp| -> Vec<Vec<u8>> {
        let primary: Vec<_> = c.primary_key().self_revocations().cloned().collect();
        let user_id: Vec<_> =
            c.userids().next().unwrap().self_revocations().cloned().collect();
        assert_eq!((primary.len(), user_id.len()), (1, 1));
        let mut packets: Vec<Vec<u8>> = Vec::new();
        for sig in primary.into_iter().chain(user_id) {
            packets.push(Packet::from(sig).to_vec().unwrap());
        }
        for key in c.keys().subkeys() {
            packets.push(Packet::from(key.key().clone()).to_vec().unwrap());
            for sig in key.self_signatures() {
                packets.push(Packet::from(sig.clone()).to_vec().unwrap());
            }
        }
        packets
    };
    assert_eq!(own(&minimized), own(&cert.strip_secret_key_material()));
}

fn notation(name: &str) -> Subpacket {
    let value = NotationData::new(format!("{name}@example.com"), b"x", None);
    Subpacket::new(SubpacketValue::NotationData(value), false).unwrap()
}

#[test]
fn signature_that_is_there_twice_is_published_once() {
    let cert = cert_with_uids(&["Alice <alice@example.com>"]).strip_secret_key_material();
    let mut doubled: Vec<Packet> = Vec::new();
    for packet in cert.clone().into_packets() {
        match packet {
            Packet::Signature(sig) if sig.typ() == SignatureType::PositiveCertification => {
                for name in ["first", "second", "third"] {
                    let mut copy = sig.clone();
                    copy.unhashed_area_mut().add(notation(name)).unwrap();
                    doubled.push(Packet::from(copy));
                }
            }
            other => doubled.push(other),
        }
    }
    let mut bytes = Vec::new();
    for packet in &doubled {
        packet.serialize(&mut bytes).unwrap();
    }
    let once =
        minimize_for_address(&parse_cert(&bytes).unwrap(), "alice@example.com", now()).unwrap();
    let minimized = Pgp::from_bytes(&once).unwrap();
    let binding = minimized.userids().next().unwrap().self_signatures().next().unwrap().clone();
    assert_eq!(minimized.userids().next().unwrap().self_signatures().count(), 1);
    assert_eq!(binding.unhashed_area().subpackets(SubpacketTag::NotationData).count(), 3);
    let again = parse_cert(&once).unwrap();
    assert!(validate_for_address(&again, "alice@example.com", now()).is_ok());
    assert_eq!(minimize_for_address(&again, "alice@example.com", now()).unwrap(), once);
}

#[test]
fn times_out_of_range_are_judged_at_its_ends() {
    let cert = library_cert(&cert_with_uids(&["Alice <alice@example.com>"]));
    let last = Timestamp::from_unix(253402300799).unwrap();
    for secs in [253402300800, 3_093_527_980_800, MAX_UNIX_SECS] {
        let far = Timestamp::from_unix(secs).unwrap();
        assert_eq!(
            validate_for_address(&cert, "alice@example.com", far).is_ok(),
            validate_for_address(&cert, "alice@example.com", last).is_ok()
        );
    }
    let first = Timestamp::from_unix(0).unwrap();
    let early = Timestamp::from_unix(MIN_UNIX_SECS).unwrap();
    assert_eq!(
        validate_for_address(&cert, "alice@example.com", early).unwrap_err().to_string(),
        validate_for_address(&cert, "alice@example.com", first).unwrap_err().to_string()
    );
}

#[test]
fn key_without_self_signature_is_invalid_at_any_time() {
    let cert = cert_with_uids(&["Alice <alice@example.com>"]);
    let bare = Packet::from(cert.primary_key().key().clone()).to_vec().unwrap();
    let bare = parse_cert(&bare).unwrap();
    let mut messages = Vec::new();
    for secs in [MIN_UNIX_SECS, 0, 253402300799, 253402300800, MAX_UNIX_SECS] {
        let at = Timestamp::from_unix(secs).unwrap();
        let err = validate_for_address(&bare, "alice@example.com", at).unwrap_err();
        assert!(matches!(err, KeyError::InvalidPrimaryKey(_)));
        let err = minimize_for_address(&bare, "alice@example.com", at).unwrap_err();
        assert!(matches!(err, KeyError::InvalidPrimaryKey(_)));
        messages.push(err.to_string());
    }
    assert_eq!(messages[0], messages[1]);
    assert_eq!(messages[2], messages[3]);
    assert_eq!(messages[2], messages[4]);
    assert!(messages[2].contains("9999-12-31T23:59:59Z"), "{}", messages[2]);
}

fn subpacket(tag: u8, body: &[u8]) -> Vec<u8> {
    let mut out = vec![255];
    out.extend((1 + body.len() as u32).to_be_bytes());
    out.push(tag);
    out.extend(body);
    out
}

fn notation_of(len: usize) -> Vec<u8> {
    let mut body = vec![128, 0, 0, 0, 0, 3];
    body.extend((len as u16).to_be_bytes());
    body.extend(b"a@b");
    body.extend(vec![b'x'; len]);
    subpacket(20, &body)
}

#[test]
fn copies_out_of_place_leave_a_minimized_key_that_reads_back() {
    let cert = cert_with_uids(&["Alice <alice@example.com>"]);
    let subkey = cert.keys().subkeys().next().unwrap();
    let back =
        subkey.self_signatures().next().unwrap().embedded_signatures().next().unwrap().clone();
    let mut signer =
        cert.primary_key().key().clone().parts_into_secret().unwrap().into_keypair().unwrap();
    let builder = SignatureBuilder::new(SignatureType::SubkeyBinding)
        .set_key_flags(KeyFlags::empty().set_signing())
        .unwrap();
    let bare = Packet::from(subkey.key().bind(&mut signer, &cert, builder).unwrap());
    let cert = cert.clone().strip_secret_key_material();

    // Signatures by which the subkey would accept its primary key, padded; one
    // of them is good, the others are not.
    let padded = |len: usize, good: bool| {
        let packet = with_unhashed(&Packet::from(back.clone()), &notation_of(len));
        let mut body = packet[6..].to_vec();
        if !good {
            let last = body.len() - 1;
            body[last] ^= 1;
        }
        subpacket(32, &body)
    };
    let in_place = with_unhashed(&bare, &padded(40_000, false));
    let mut copies = with_unhashed(&bare, &padded(20_000, false));
    copies.extend(with_unhashed(&bare, &padded(20_000, true)));

    let mut bytes = Vec::new();
    for packet in cert.clone().into_packets() {
        match &packet {
            Packet::Signature(sig) if sig.typ() == SignatureType::SubkeyBinding => {
                bytes.extend(&in_place)
            }
            _ => packet.serialize(&mut bytes).unwrap(),
        }
        if let Packet::UserID(_) = &packet {
            bytes.extend(&copies);
        }
    }
    let parsed = parse_cert(&bytes).unwrap();
    let mut seen = Vec::new();
    for _ in 0..8 {
        let once = minimize_for_address(&parsed, "alice@example.com", now()).unwrap();
        let minimized = Pgp::from_bytes(&once).unwrap();
        seen.push(minimized.keys().subkeys().count());
        let again = parse_cert(&once).unwrap();
        assert!(validate_for_address(&again, "alice@example.com", now()).is_ok());
        assert_eq!(minimize_for_address(&again, "alice@example.com", now()).unwrap(), once);
    }
    // Which of the copies' subpackets are kept is left to chance.
    assert!(seen.iter().all(|n| *n <= 1));
}
