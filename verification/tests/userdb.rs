use wkdmgr::config::{
    FlatfileUserDbConfig, FlatfileUserRecord, LdapUserDbConfig, UserDbConfig,
};
use wkdmgr::userdb::flatfile::{read_users, UserMap};
use wkdmgr::userdb::ldap::{find_attr_ci, LdapAttribute, LdapEntry};
use wkdmgr::userdb::{build_userdb, Backend, FlatFileUserDb, LdapUserDb, UserDb};

fn texts(list: &[&str]) -> Vec<String> {
    list.iter().map(|s| s.to_string()).collect()
}

fn cfg_with_timeout(timeout_secs: u64) -> LdapUserDbConfig {
    LdapUserDbConfig {
        uri: "ldap://localhost".to_string(),
        bind_dn: "cn=admin,dc=example,dc=com".to_string(),
        bind_password: "secret".to_string(),
        base_dn: "dc=example,dc=com".to_string(),
        uid_attr: "uid".to_string(),
        mail_attr: "mail".to_string(),
        alias_attr: "mailAlternateAddress".to_string(),
        timeout_secs,
    }
}

fn file_with(users: &[(&str, &[&str])]) -> UserDbConfig {
    UserDbConfig::Flatfile(FlatfileUserDbConfig {
        users: users
            .iter()
            .map(|(uid, list)| {
                (uid.to_string(), FlatfileUserRecord { addresses: texts(list) })
            })
            .collect(),
    })
}

fn attribute(name: &str, values: &[&str]) -> LdapAttribute {
    LdapAttribute { name: name.to_string(), values: texts(values) }
}

#[test]
fn new_rejects_zero_timeout() {
    let Err(err) = LdapUserDb::new(cfg_with_timeout(0)) else {
        panic!("expected LdapUserDb::new to reject timeout_secs = 0");
    };
    assert!(err.to_string().contains("timeout_secs"));
    assert_eq!(
        err,
        "ldap.timeout_secs must be greater than zero (0 would make every lookup time out immediately)"
    );
}

#[test]
fn new_accepts_nonzero_timeout() {
    assert!(LdapUserDb::new(cfg_with_timeout(10)).is_ok());
}

#[test]
fn find_attr_ci_matches_regardless_of_case() {
    let attrs = vec![attribute("Mail", &["alice@example.com"])];

    assert_eq!(find_attr_ci(&attrs, "mail"), Some(&vec!["alice@example.com".to_string()]));
    assert_eq!(find_attr_ci(&attrs, "MAIL"), Some(&vec!["alice@example.com".to_string()]));
    assert_eq!(find_attr_ci(&attrs, "mailAlternateAddress"), None);
}

#[test]
fn returns_addresses_for_known_user() {
    let mut users = UserMap::new();
    users.insert("alice".to_string(), texts(&["alice@example.com", "a@example.org"]));
    let db = FlatFileUserDb::from_map(users);
    let addrs = db.addresses_for_user("alice").unwrap();
    assert_eq!(addrs.len(), 2);
    assert_eq!(addrs, texts(&["alice@example.com", "a@example.org"]));
}

#[test]
fn returns_empty_vec_for_unknown_user() {
    let db = FlatFileUserDb::from_map(UserMap::new());
    let addrs = db.addresses_for_user("nobody").unwrap();
    assert!(addrs.is_empty());
}

#[test]
fn reload_takes_over_new_users() {
    let first = file_with(&[("alice", &["alice@example.com"])]);
    let mut db = FlatFileUserDb::from_config(&first, "userdb.yaml").unwrap();
    assert_eq!(db.addresses_for_user("alice").unwrap(), texts(&["alice@example.com"]));
    assert!(db.addresses_for_user("bob").unwrap().is_empty());

    let second =
        file_with(&[("alice", &["alice@example.com"]), ("bob", &["bob@example.com"])]);
    assert_eq!(db.reload(&Ok(second), "userdb.yaml"), Ok(()));
    assert_eq!(db.addresses_for_user("bob").unwrap(), texts(&["bob@example.com"]));
}

#[test]
fn failed_reload_keeps_previous_users() {
    let first = file_with(&[("alice", &["alice@example.com"])]);
    let mut db = FlatFileUserDb::from_config(&first, "userdb.yaml").unwrap();

    assert_eq!(db.reload(&Err("unreadable".to_string()), "p"), Err("unreadable".to_string()));
    assert_eq!(db.addresses_for_user("alice").unwrap(), texts(&["alice@example.com"]));

    let e = db.reload(&Ok(UserDbConfig::Ldap(cfg_with_timeout(10))), "/etc/userdb.yaml");
    assert_eq!(
        e,
        Err("userdb config at /etc/userdb.yaml switched to backend: ldap; FlatFileUserDb cannot \
             reload it (restart with the correct backend)"
            .to_string())
    );
    assert_eq!(db.addresses_for_user("alice").unwrap(), texts(&["alice@example.com"]));
}

#[test]
fn later_record_of_a_uid_counts() {
    let users = read_users(&file_with(&[("a", &["1"]), ("b", &["2"]), ("a", &["3"])]), "p");
    let users = users.ok().unwrap();
    assert_eq!(users.get("a"), Some(&texts(&["3"])));
    assert_eq!(users.get("b"), Some(&texts(&["2"])));
    assert_eq!(users.get("c"), None);
}

#[test]
fn backend_follows_configuration() {
    let flat = build_userdb(file_with(&[("alice", &["alice@example.com"])]), "p");
    match flat {
        Ok(Backend::Flatfile(db)) => {
            assert_eq!(db.addresses_for_user("alice").unwrap(), texts(&["alice@example.com"]))
        }
        _ => panic!("expected flatfile"),
    }
    assert!(matches!(
        build_userdb(UserDbConfig::Ldap(cfg_with_timeout(10)), "p"),
        Ok(Backend::Ldap(_))
    ));
    assert!(build_userdb(UserDbConfig::Ldap(cfg_with_timeout(0)), "p").is_err());
}

#[test]
fn search_selects_one_uid() {
    let db = LdapUserDb::new(cfg_with_timeout(7)).ok().unwrap();
    let search = db.search_for("alice");
    assert_eq!(search.filter, "(uid=alice)");
    assert_eq!(search.uri, "ldap://localhost");
    assert_eq!(search.bind_dn, "cn=admin,dc=example,dc=com");
    assert_eq!(search.bind_password, "secret");
    assert_eq!(search.base_dn, "dc=example,dc=com");
    assert_eq!(search.attributes, texts(&["mail", "mailAlternateAddress"]));
    assert_eq!(search.timeout_secs, 7);
}

#[test]
fn search_escapes_the_uid() {
    let db = LdapUserDb::new(cfg_with_timeout(7)).ok().unwrap();
    assert_eq!(db.search_for("*)(uid=*").filter, "(uid=\\2a\\29\\28uid=\\2a)");
    assert_eq!(db.search_for("a\\b\0é").filter, "(uid=a\\5cb\\00é)");
}

#[test]
fn addresses_come_in_order() {
    let db = LdapUserDb::new(cfg_with_timeout(7)).ok().unwrap();
    let entries = vec![
        LdapEntry {
            attributes: vec![
                attribute("mailalternateaddress", &["b@x", "c@x"]),
                attribute("Mail", &["a@x"]),
            ],
        },
        LdapEntry { attributes: vec![attribute("mail", &["d@x"]), attribute("other", &["e@x"])] },
    ];
    let answer = db.collect_addresses(&entries);
    assert_eq!(answer.addresses, texts(&["a@x", "b@x", "c@x", "d@x"]));
    assert!(!answer.suspicious);
}

#[test]
fn entry_without_address_is_suspicious() {
    let db = LdapUserDb::new(cfg_with_timeout(7)).ok().unwrap();
    let none = db.collect_addresses(&vec![]);
    assert!(none.addresses.is_empty() && !none.suspicious);
    let odd = db.collect_addresses(&vec![LdapEntry { attributes: vec![attribute("cn", &["A"])] }]);
    assert!(odd.addresses.is_empty() && odd.suspicious);
}

#[test]
fn timeout_error_names_uid_and_limit() {
    let db = LdapUserDb::new(cfg_with_timeout(10)).ok().unwrap();
    assert_eq!(db.timed_out("ali\"ce"), "LDAP lookup for uid \"ali\\\"ce\" timed out after 10s");
    for secs in [1, 59, 3600, u64::MAX] {
        let db = LdapUserDb::new(cfg_with_timeout(secs)).ok().unwrap();
        let limit = std::time::Duration::from_secs(secs);
        assert_eq!(
            db.timed_out("bob"),
            format!("LDAP lookup for uid {:?} timed out after {:?}", "bob", limit)
        );
    }
}
