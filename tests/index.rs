use rash::index::{map_executables, DirEntryInfo};

fn file(dir: &str, name: &str) -> DirEntryInfo {
    DirEntryInfo {
        name: name.to_string(),
        path: format!("{}/{}", dir, name),
        is_file: true,
    }
}

fn subdir(dir: &str, name: &str) -> DirEntryInfo {
    DirEntryInfo {
        name: name.to_string(),
        path: format!("{}/{}", dir, name),
        is_file: false,
    }
}

#[test]
fn earlier_directory_wins_for_a_shared_name() {
    let dirs = vec![
        Some(vec![file("/usr/local/bin", "ls"), file("/usr/local/bin", "vim")]),
        Some(vec![file("/bin", "ls"), file("/bin", "cat")]),
    ];
    let index = map_executables(&dirs);
    assert_eq!(index.resolve("ls"), Some("/usr/local/bin/ls".to_string()));
    assert_eq!(index.resolve("cat"), Some("/bin/cat".to_string()));
    assert_eq!(index.resolve("vim"), Some("/usr/local/bin/vim".to_string()));

    let reordered = vec![
        Some(vec![file("/bin", "ls"), file("/bin", "cat")]),
        Some(vec![file("/usr/local/bin", "ls"), file("/usr/local/bin", "vim")]),
    ];
    let index = map_executables(&reordered);
    assert_eq!(index.resolve("ls"), Some("/bin/ls".to_string()));
}

#[test]
fn missing_directory_adds_nothing_and_does_not_stop_indexing() {
    let dirs = vec![None, Some(vec![file("/bin", "ls")]), None, Some(vec![file("/sbin", "ip")])];
    let index = map_executables(&dirs);
    assert_eq!(index.resolve("ls"), Some("/bin/ls".to_string()));
    assert_eq!(index.resolve("ip"), Some("/sbin/ip".to_string()));
    assert_eq!(index.resolve("missing"), None);
}

#[test]
fn entries_that_are_not_regular_files_are_left_out() {
    let dirs = vec![
        Some(vec![subdir("/a", "tool")]),
        Some(vec![file("/b", "tool")]),
    ];
    let index = map_executables(&dirs);
    assert_eq!(index.resolve("tool"), Some("/b/tool".to_string()));
    assert_eq!(map_executables(&vec![Some(vec![subdir("/a", "x")])]).resolve("x"), None);
}

#[test]
fn names_are_case_sensitive_and_empty_index_resolves_nothing() {
    let index = map_executables(&vec![Some(vec![file("/bin", "Make")])]);
    assert_eq!(index.resolve("make"), None);
    assert_eq!(index.resolve("Make"), Some("/bin/Make".to_string()));
    assert_eq!(map_executables(&vec![]).resolve("ls"), None);
}
