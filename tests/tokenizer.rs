use rash::tokenizer::parse_to_command_store;

fn words(v: &[&str]) -> Vec<String> {
    v.iter().map(|s| s.to_string()).collect()
}

#[test]
fn test_parse_command_store_single_command() {
    let input = "crackle";
    let expected = vec![vec!["crackle".to_string()]];
    assert_eq!(parse_to_command_store(input), expected);
}

#[test]
fn test_parse_command_store_with_args() {
    let input = "echo why hello kitty cat!! hi hi!!";
    let expected = vec![vec![
        "echo".to_string(),
        "why".to_string(),
        "hello".to_string(),
        "kitty".to_string(),
        "cat!!".to_string(),
        "hi".to_string(),
        "hi!!".to_string(),
    ]];
    assert_eq!(parse_to_command_store(input), expected);
}

#[test]
fn test_parse_command_store_multiple_commands() {
    let input = "ls -la;   pwd;echo bello recurse  ";
    let expected = vec![
        vec!["ls".to_string(), "-la".to_string()],
        vec!["pwd".to_string()],
        vec![
            "echo".to_string(),
            "bello".to_string(),
            "recurse".to_string(),
        ],
    ];
    assert_eq!(parse_to_command_store(input), expected);
}

#[test]
fn test_parse_command_store_ignores_empty() {
    let input = ";  ;crackle  ; ; pop;";
    let expected = vec![vec!["crackle".to_string()], vec!["pop".to_string()]];
    assert_eq!(parse_to_command_store(input), expected);
}

#[test]
fn parse_double_separator_gives_two_commands() {
    assert_eq!(
        parse_to_command_store("a;;b"),
        vec![words(&["a"]), words(&["b"])]
    );
}

#[test]
fn parse_only_separators_and_spaces_gives_nothing() {
    assert!(parse_to_command_store("  ;  ").is_empty());
    assert!(parse_to_command_store("").is_empty());
    assert!(parse_to_command_store(" \t  \n").is_empty());
}

#[test]
fn parse_splits_on_every_kind_of_whitespace() {
    assert_eq!(
        parse_to_command_store("a\tb\u{3000}c\u{a0}d;\re"),
        vec![words(&["a", "b", "c", "d"]), words(&["e"])]
    );
}

#[test]
fn parse_keeps_non_ascii_words_whole() {
    assert_eq!(
        parse_to_command_store("  échø  ünï;"),
        vec![words(&["échø", "ünï"])]
    );
}

#[test]
fn parse_never_gives_an_empty_command_or_word() {
    let inputs = [";", " ; ; ", "x; ;y ;; z ", "\t;\u{2028};a\u{2029}", "a b;c"];
    for input in inputs {
        for command in parse_to_command_store(input) {
            assert!(!command.is_empty());
            for word in command {
                assert!(!word.is_empty());
            }
        }
    }
}
