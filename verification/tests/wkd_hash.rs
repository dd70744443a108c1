use sha1::Digest;
use sha1::Sha1;
use wkdmgr::wkd_hash::{
    split_address, wkd_hash_for_address, wkd_hash_local_part, zbase32_encode, AddressError,
};

/// A well-known address and its hash.
#[test]
fn spec_example_joe_doe() {
    let (hash, domain) = wkd_hash_for_address("Joe.Doe@Example.ORG").unwrap();
    assert_eq!(hash, "iy9q119eutrkn8s1mk4r39qejnbu3n5q");
    assert_eq!(domain, "example.org");
}

#[test]
fn local_part_is_only_ascii_lowercased() {
    let mixed = wkd_hash_local_part("ÀBC");
    let expected = {
        let digest = Sha1::digest("Àbc".as_bytes());
        zbase32_encode(&digest)
    };
    assert_eq!(mixed, expected);
}

#[test]
fn hash_is_32_chars() {
    let (hash, _) = wkd_hash_for_address("test@example.com").unwrap();
    assert_eq!(hash.len(), 32);
}

#[test]
fn rejects_missing_at() {
    assert!(wkd_hash_for_address("not-an-email").is_err());
}

#[test]
fn domain_lowercased_local_part_case_preserved_before_hash() {
    let (h1, _) = wkd_hash_for_address("Alice@Example.com").unwrap();
    let (h2, _) = wkd_hash_for_address("alice@EXAMPLE.COM").unwrap();
    assert_eq!(h1, h2);
}

#[test]
fn zbase32_takes_five_bits_at_a_time() {
    assert_eq!(zbase32_encode(&[]), "");
    assert_eq!(zbase32_encode(&[0]), "yy");
    assert_eq!(zbase32_encode(&[0xff]), "9h");
    assert_eq!(zbase32_encode(&[0xd4, 0x7a, 0x04]), "4t7ye");
    assert_eq!(zbase32_encode(&[0xf0, 0xbf, 0xc7]), "6n9hq");
    assert_eq!(zbase32_encode(&[0, 0, 0, 0, 0]), "yyyyyyyy");
    assert_eq!(zbase32_encode(&[0xff, 0xff, 0xff, 0xff, 0xff]), "99999999");
}

#[test]
fn zbase32_tells_inputs_apart() {
    let inputs: Vec<Vec<u8>> = vec![vec![], vec![0], vec![0, 0], vec![1], vec![0, 1], vec![128]];
    for a in &inputs {
        for b in &inputs {
            assert_eq!(a == b, zbase32_encode(a) == zbase32_encode(b));
        }
    }
}

#[test]
fn split_keeps_local_part_and_lowers_domain() {
    let (local, domain) = split_address("Joe.Doe@Example.ORG").unwrap();
    assert_eq!(local, "Joe.Doe");
    assert_eq!(domain, "example.org");
}

#[test]
fn split_says_why_not() {
    let missing = split_address("not-an-email").unwrap_err();
    assert!(matches!(missing, AddressError::MissingAt(_)));
    assert_eq!(missing.to_string(), "address 'not-an-email' is missing '@'");
    for bad in ["@example.com", "alice@", "a@b@c", "@"] {
        let e = split_address(bad).unwrap_err();
        assert!(matches!(e, AddressError::Malformed(_)));
        assert_eq!(e.to_string(), format!("address '{bad}' is not a valid email address"));
    }
}
