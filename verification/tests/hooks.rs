use wkdmgr::hooks::{
    follow_up, is_executable_file, list_executable_scripts, on_key_add, on_key_remove, HookEnd,
    HookEntry,
};

fn entry(name: &str, is_file: bool, mode: u32) -> HookEntry {
    HookEntry { name: name.as_bytes().to_vec(), is_file, mode }
}

#[test]
fn runs_executables_in_name_order() {
    let names = list_executable_scripts(&vec![
        entry("10-second.sh", true, 0o755),
        entry("readme", true, 0o644),
        entry("subdir", false, 0o755),
        entry("01-first.sh", true, 0o755),
        entry("1", true, 0o100),
        entry("", true, 0o001),
    ]);
    let names: Vec<String> =
        names.into_iter().map(|n| String::from_utf8(n).unwrap()).collect();
    assert_eq!(names, vec!["", "01-first.sh", "1", "10-second.sh"]);
}

#[test]
fn names_are_ordered_by_bytes() {
    let names: Vec<&str> = vec!["b", "a", "é", "Z", "ab", "a b", "a"];
    let entries = names.iter().map(|n| entry(n, true, 0o755)).collect();
    let ours = list_executable_scripts(&entries);
    let mut theirs: Vec<Vec<u8>> = names.iter().map(|n| n.as_bytes().to_vec()).collect();
    theirs.sort();
    assert_eq!(ours, theirs);
}

#[test]
fn any_execute_bit_counts() {
    for bit in 0..12 {
        let mode = 1 << bit;
        assert_eq!(is_executable_file(&entry("x", true, mode)), bit == 0 || bit == 3 || bit == 6);
        assert!(!is_executable_file(&entry("x", false, mode)));
    }
}

#[test]
fn added_key_is_piped_and_removed_key_is_not() {
    let add = on_key_add("alice@example.com", "example.com", b"key bytes");
    assert_eq!(add.subdir, "on_key_add");
    assert_eq!((add.address.as_str(), add.domain.as_str()), ("alice@example.com", "example.com"));
    assert_eq!(add.stdin, Some(b"key bytes".to_vec()));

    let remove = on_key_remove("alice@example.com", "example.com");
    assert_eq!(remove.subdir, "on_key_remove");
    assert_eq!(remove.address, "alice@example.com");
    assert_eq!(remove.domain, "example.com");
    assert_eq!(remove.stdin, None);
}

#[test]
fn only_a_hanging_hook_is_killed() {
    let ended = |end: HookEnd| {
        let f = follow_up(&end);
        (f.kill, f.warn)
    };
    assert_eq!(ended(HookEnd::Exited { success: true }), (false, false));
    assert_eq!(ended(HookEnd::Exited { success: false }), (false, true));
    assert_eq!(ended(HookEnd::NotStarted), (false, true));
    assert_eq!(ended(HookEnd::Lost), (false, true));
    assert_eq!(ended(HookEnd::TimedOut), (true, true));
}
