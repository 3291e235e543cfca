use dirjump::command::{parse_command, parse_number, Command, DEFAULT_LIST};

fn args(parts: &[&str]) -> Vec<String> {
    parts.iter().map(|s| s.to_string()).collect()
}

#[test]
fn no_argument_means_home() {
    assert_eq!(parse_command(&args(&[])), Command::Home);
}

#[test]
fn control_tokens() {
    assert_eq!(parse_command(&args(&["-c"])), Command::Record);
    assert_eq!(parse_command(&args(&["-x"])), Command::Forget);
    assert_eq!(parse_command(&args(&["-xa"])), Command::Clear);
    assert_eq!(parse_command(&args(&["-"])), Command::Undo);
    assert_eq!(parse_command(&args(&["+"])), Command::Redo);
    assert_eq!(parse_command(&args(&["."])), Command::Last);
    assert_eq!(parse_command(&args(&["-al"])), Command::AliasList);
    assert_eq!(parse_command(&args(&["-V"])), Command::Version);
    assert_eq!(parse_command(&args(&["--version"])), Command::Version);
    assert_eq!(parse_command(&args(&["-h"])), Command::Help);
    assert_eq!(parse_command(&args(&["--help"])), Command::Help);
}

#[test]
fn list_takes_an_optional_limit() {
    assert_eq!(DEFAULT_LIST, 20);
    assert_eq!(parse_command(&args(&["-l"])), Command::List { limit: 20 });
    assert_eq!(parse_command(&args(&["--list"])), Command::List { limit: 20 });
    assert_eq!(parse_command(&args(&["-l", "7"])), Command::List { limit: 7 });
    assert_eq!(parse_command(&args(&["-l", "0"])), Command::List { limit: 0 });
    assert_eq!(parse_command(&args(&["-l", "x"])), Command::List { limit: 20 });
    assert_eq!(parse_command(&args(&["--list", "+3"])), Command::List { limit: 3 });
}

#[test]
fn alias_commands_carry_the_name() {
    assert_eq!(
        parse_command(&args(&["-a", "work"])),
        Command::AliasAdd { name: Some("work".to_string()) }
    );
    assert_eq!(parse_command(&args(&["-a"])), Command::AliasAdd { name: None });
    assert_eq!(
        parse_command(&args(&["-ar", "work"])),
        Command::AliasRemove { name: Some("work".to_string()) }
    );
    assert_eq!(parse_command(&args(&["-ar"])), Command::AliasRemove { name: None });
}

#[test]
fn signed_index() {
    assert_eq!(parse_command(&args(&["-1"])), Command::Index { rank: 1 });
    assert_eq!(parse_command(&args(&["-25"])), Command::Index { rank: 25 });
    assert_eq!(parse_command(&args(&["-007"])), Command::Index { rank: 7 });
    assert_eq!(parse_command(&args(&["-+3"])), Command::Index { rank: 3 });
}

#[test]
fn what_is_no_index_is_a_keyword() {
    assert_eq!(parse_command(&args(&["-0"])), Command::Jump { keyword: "-0".to_string() });
    assert_eq!(parse_command(&args(&["-1a"])), Command::Jump { keyword: "-1a".to_string() });
    assert_eq!(parse_command(&args(&["--1"])), Command::Jump { keyword: "--1".to_string() });
    assert_eq!(
        parse_command(&args(&["-99999999999999999999999999"])),
        Command::Jump { keyword: "-99999999999999999999999999".to_string() }
    );
    assert_eq!(parse_command(&args(&["src"])), Command::Jump { keyword: "src".to_string() });
    assert_eq!(parse_command(&args(&["!work"])), Command::Jump { keyword: "!work".to_string() });
    assert_eq!(parse_command(&args(&["-C"])), Command::Jump { keyword: "-C".to_string() });
    assert_eq!(parse_command(&args(&[""])), Command::Jump { keyword: "".to_string() });
}

#[test]
fn numbers() {
    assert_eq!(parse_number("0"), Some(0));
    assert_eq!(parse_number("42"), Some(42));
    assert_eq!(parse_number("+42"), Some(42));
    assert_eq!(parse_number("0042"), Some(42));
    assert_eq!(parse_number(""), None);
    assert_eq!(parse_number("+"), None);
    assert_eq!(parse_number("-1"), None);
    assert_eq!(parse_number("4 2"), None);
    assert_eq!(parse_number("++1"), None);
    assert_eq!(parse_number("1+"), None);
    assert_eq!(parse_number("٣"), None);
    assert_eq!(parse_number(&usize::MAX.to_string()), Some(usize::MAX));
    assert_eq!(parse_number(&format!("{}0", usize::MAX)), None);
    assert_eq!(parse_number("18446744073709551616"), "18446744073709551616".parse::<usize>().ok());
}

#[test]
fn numbers_agree_with_the_standard_parser() {
    for text in ["7", "+7", "007", "", "+", "-", "-7", "7x", "x7", " 7", "7 ", "1_000", "0x10"] {
        assert_eq!(parse_number(text), text.parse::<usize>().ok(), "{:?}", text);
    }
}
