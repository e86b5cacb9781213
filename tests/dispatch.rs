use rash::dispatch::{exit_code_of, resolve_command, Action, Outcome, Shell};
use rash::index::{map_executables, DirEntryInfo, ExecutableIndex};

fn index() -> ExecutableIndex {
    map_executables(&vec![Some(vec![DirEntryInfo {
        name: "ls".to_string(),
        path: "/bin/ls".to_string(),
        is_file: true,
    }])])
}

fn words(v: &[&str]) -> Vec<String> {
    v.iter().map(|s| s.to_string()).collect()
}

#[test]
fn builtins_come_before_the_index() {
    let idx = map_executables(&vec![Some(vec![DirEntryInfo {
        name: "cd".to_string(),
        path: "/bin/cd".to_string(),
        is_file: true,
    }])]);
    match resolve_command(&words(&["cd", "/tmp"]), &idx) {
        Action::ChangeDirectory { path } => assert_eq!(path, "/tmp"),
        _ => panic!("expected ChangeDirectory"),
    }
}

#[test]
fn indexed_program_is_launched_with_its_arguments() {
    match resolve_command(&words(&["ls", "-la", "/"]), &index()) {
        Action::Launch { program, args } => {
            assert_eq!(program, "/bin/ls");
            assert_eq!(args, words(&["-la", "/"]));
        }
        _ => panic!("expected Launch"),
    }
}

#[test]
fn cd_without_exactly_one_argument_is_a_usage_error() {
    assert!(matches!(resolve_command(&words(&["cd"]), &index()), Action::ChangeDirectoryUsage));
    assert!(matches!(
        resolve_command(&words(&["cd", "a", "b"]), &index()),
        Action::ChangeDirectoryUsage
    ));
}

#[test]
fn export_gets_all_its_words() {
    match resolve_command(&words(&["export", "A=1", "B=2"]), &index()) {
        Action::Export { argv } => assert_eq!(argv, words(&["export", "A=1", "B=2"])),
        _ => panic!("expected Export"),
    }
}

#[test]
fn unknown_command_is_reported_and_the_loop_goes_on() {
    let idx = index();
    let mut shell = Shell::new("/home".to_string());
    let actions = shell.handle_line("purrpurr now", &idx);
    assert_eq!(actions.len(), 1);
    match &actions[0] {
        Action::Unknown { message } => assert_eq!(message, "rash: Unknown command: purrpurr"),
        _ => panic!("expected Unknown"),
    }
    shell.record(Outcome::Reported);
    assert!(shell.running);
    let actions = shell.handle_line("ls", &idx);
    assert_eq!(actions.len(), 1);
    assert!(matches!(&actions[0], Action::Launch { program, .. } if program == "/bin/ls"));
}

#[test]
fn failed_cd_leaves_directory_and_loop_unchanged() {
    let mut shell = Shell::new("/home".to_string());
    let actions = shell.handle_line("cd /no/such/dir", &index());
    assert!(matches!(&actions[0], Action::ChangeDirectory { path } if path == "/no/such/dir"));
    shell.record(Outcome::DirectoryUnchanged);
    assert_eq!(shell.cwd, "/home");
    assert!(shell.running);
    shell.record(Outcome::DirectoryChanged { dir: "/tmp".to_string() });
    assert_eq!(shell.cwd, "/tmp");
}

#[test]
fn exit_stops_the_line_and_the_loop() {
    let mut shell = Shell::new("/".to_string());
    let actions = shell.handle_line("ls; exit; ls; nope", &index());
    assert_eq!(actions.len(), 2);
    assert!(matches!(actions[1], Action::Exit));
    assert!(!shell.running);
}

#[test]
fn every_command_of_a_line_runs_in_order() {
    let mut shell = Shell::new("/".to_string());
    let actions = shell.handle_line("nope; ls x;cd", &index());
    assert_eq!(actions.len(), 3);
    assert!(matches!(&actions[0], Action::Unknown { .. }));
    assert!(matches!(&actions[1], Action::Launch { .. }));
    assert!(matches!(&actions[2], Action::ChangeDirectoryUsage));
    assert!(shell.running);
    assert!(shell.handle_line("   ", &index()).is_empty());
}

#[test]
fn exit_codes_map_to_status_bytes() {
    assert_eq!(exit_code_of(Some(0)), 0);
    assert_eq!(exit_code_of(Some(3)), 3);
    assert_eq!(exit_code_of(Some(256)), 0);
    assert_eq!(exit_code_of(Some(-1)), 255);
    assert_eq!(exit_code_of(None), 1);
    let mut shell = Shell::new("/".to_string());
    shell.record(Outcome::ProcessEnded { code: Some(300) });
    assert_eq!(shell.last_status, 44);
    shell.record(Outcome::NotStarted);
    assert_eq!(shell.last_status, 44);
}
