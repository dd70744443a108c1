use wkdmgr::config::{
    default_mail_attr, default_socket_mode, default_sso_header_name, default_timeout_secs,
    default_uid_attr, Config, SocketConfig,
};

fn socket(mode: &str) -> SocketConfig {
    SocketConfig { path: "/run/wkdmgr/query.sock".to_string(), mode: mode.to_string() }
}

#[test]
fn main_config_parses() {
    let cfg = Config {
        allowed_domains: vec!["example-1.tld".to_string(), "example-2.tld".to_string()],
        db_path: "/var/lib/wkdmgr/meta.sqlite3".to_string(),
        sso_header_name: "Remote-User".to_string(),
        userdb_config: "/etc/wkdmgr/userdb.yaml".to_string(),
        query_socket: SocketConfig {
            path: "/run/wkdmgr/query.sock".to_string(),
            mode: "0660".to_string(),
        },
        mgmt_socket: SocketConfig {
            path: "/run/wkdmgr/mgmt.sock".to_string(),
            mode: "0660".to_string(),
        },
        frontend_dist_dir: None,
    };
    assert_eq!(cfg.allowed_domains.len(), 2);
    assert!(cfg.is_domain_allowed("EXAMPLE-1.TLD"));
    assert!(!cfg.is_domain_allowed("example-3.tld"));
    assert_eq!(cfg.query_socket.mode_bits().unwrap(), 0o660);
}

#[test]
fn mode_is_read_as_an_octal_number_is() {
    for text in [
        "0", "7", "8", "660", "+660", "++1", "-1", "+", "-", "", " 7", "7 ", "0x7", "\u{663}", "é",
        "37777777777", "40000000000", "40000000000x", "4000000000x0", "00000000000000000017",
        "777777777777777777777777777777", "7777777777777777777777777777z7", "+40000000000",
    ] {
        match (socket(text).mode_bits(), u32::from_str_radix(text, 8)) {
            (Ok(a), Ok(b)) => assert_eq!(a, b, "{text}"),
            (Err(a), Err(b)) => assert_eq!(a, format!("invalid socket mode '{text}': {b}")),
            (a, b) => panic!("{text}: {a:?} {b:?}"),
        }
    }
}

#[test]
fn mode_is_octal() {
    assert_eq!(socket("0660").mode_bits(), Ok(0o660));
    assert_eq!(socket("0o660").mode_bits(), Ok(0o660));
    assert_eq!(socket("0o0o17").mode_bits(), Ok(0o17));
    assert_eq!(socket("+7").mode_bits(), Ok(7));
    assert_eq!(socket("37777777777").mode_bits(), Ok(u32::MAX));
}

#[test]
fn bad_modes_are_refused() {
    assert_eq!(
        socket("0689").mode_bits(),
        Err("invalid socket mode '0689': invalid digit found in string".to_string())
    );
    assert_eq!(
        socket("0o").mode_bits(),
        Err("invalid socket mode '0o': cannot parse integer from empty string".to_string())
    );
    assert_eq!(
        socket("40000000000").mode_bits(),
        Err("invalid socket mode '40000000000': number too large to fit in target type"
            .to_string())
    );
    for bad in ["", "+", "-7", " 7", "rw"] {
        assert!(socket(bad).mode_bits().is_err());
    }
}

#[test]
fn defaults_are_the_documented_ones() {
    assert_eq!(default_sso_header_name(), "Remote-User");
    assert_eq!(default_socket_mode(), "0660");
    assert_eq!(default_uid_attr(), "uid");
    assert_eq!(default_mail_attr(), "mail");
    assert_eq!(default_timeout_secs(), 10);
}
