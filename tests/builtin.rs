use rash::builtin::{Builtin, RashError};
use std::str::FromStr;

#[test]
fn test_builtin_from_str_valid() {
    assert_eq!(Builtin::from_str("cd").unwrap(), Builtin::CD);
    assert_eq!(Builtin::from_str("exit").unwrap(), Builtin::Exit);
}

#[test]
fn test_builtin_from_str_invalid() {
    match Builtin::from_str("purrpurr") {
        Err(RashError::InvalidVariant { input }) => {
            assert_eq!(input, "purrpurr".to_string());
        }
        other => panic!("expected InvalidVariant, got {:?}", other),
    }
}

#[test]
fn classify_names_each_builtin() {
    assert_eq!(Builtin::classify("cd").unwrap(), Builtin::CD);
    assert_eq!(Builtin::classify("exit").unwrap(), Builtin::Exit);
    assert_eq!(Builtin::classify("export").unwrap(), Builtin::Export);
}

#[test]
fn classify_is_exact_and_case_sensitive() {
    for name in ["CD", "Exit", "exports", "c", "", " cd"] {
        match Builtin::classify(name) {
            Err(RashError::InvalidVariant { input }) => assert_eq!(input, name),
            other => panic!("expected InvalidVariant, got {:?}", other),
        }
    }
}

#[test]
fn io_errors_convert_into_rash_errors() {
    let e = std::io::Error::new(std::io::ErrorKind::NotFound, "gone");
    assert!(matches!(RashError::from(e), RashError::Io(_)));
}

#[test]
fn from_str_names_export_and_rejects_near_misses() {
    assert_eq!(Builtin::from_str("export").unwrap(), Builtin::Export);
    for name in ["CD", "Exit", " cd", "exit "] {
        match Builtin::from_str(name) {
            Err(RashError::InvalidVariant { input }) => assert_eq!(input, name),
            other => panic!("expected InvalidVariant, got {:?}", other),
        }
    }
}
