use xs_file_transfer::command_resolver::{
    check_command, parse_command, Command, CommandCheck, CommandResolver,
};

fn as_send(c: Option<Command>) -> Option<(String, String)> {
    match c {
        Some(Command::Send([a, b])) => Some((a, b)),
        _ => None,
    }
}

fn as_receive(c: Option<Command>) -> Option<String> {
    match c {
        Some(Command::Receive(d)) => Some(d),
        _ => None,
    }
}

#[test]
fn send_command_with_line_break() {
    let mut r = CommandResolver::new();
    let c = Some(r.read_next_command("send C:/files a.txt\n"));
    assert_eq!(as_send(c), Some(("C:/files".to_string(), "a.txt".to_string())));
}

#[test]
fn receive_command() {
    let mut r = CommandResolver::new();
    assert_eq!(as_receive(Some(r.read_next_command("receive downloads\r\n"))), Some("downloads".to_string()));
}

#[test]
fn unknown_command_is_none() {
    let r = CommandResolver::new();
    assert!(r.check_next("exit\n") == CommandCheck::UnknownCommand);
}

#[test]
fn missing_arguments_are_none() {
    assert!(parse_command("send onlyone\n").is_none());
    assert!(parse_command("receive\n").is_none());
    assert!(parse_command("").is_none());
}

#[test]
fn extra_spaces_give_empty_arguments() {
    assert_eq!(as_send(parse_command("send  a b")), Some((String::new(), "a".to_string())));
    assert!(parse_command(" send a b").is_none());
}

#[test]
fn arguments_are_trimmed_of_unicode_white_space() {
    assert_eq!(as_receive(parse_command("receive \u{3000}dir\t\u{a0}")), Some("dir".to_string()));
    assert_eq!(as_receive(parse_command("receive dir\u{3000}\t")), Some("dir".to_string()));
    assert_eq!(as_receive(parse_command("\treceive\n dir")), Some("dir".to_string()));
}

#[test]
fn tabs_do_not_separate_arguments() {
    assert!(parse_command("send\ta b").is_none());
}

#[test]
fn buffer_keeps_earlier_lines() {
    let mut r = CommandResolver::new();
    assert_eq!(as_receive(Some(r.read_next_command("receive first\n"))), Some("first".to_string()));
    // the buffer still starts with the first line, whose last piece now
    // runs into the second line
    assert_eq!(as_receive(Some(r.read_next_command("send a b\n"))), Some("first\nsend".to_string()));
}

#[test]
fn checks_tell_why_a_command_is_refused() {
    assert!(check_command("send dir a.txt") == CommandCheck::Valid);
    assert!(check_command("receive dir") == CommandCheck::Valid);
    assert!(check_command("send onlyone\n") == CommandCheck::MissingArguments);
    assert!(check_command("receive\n") == CommandCheck::MissingArguments);
    assert!(check_command("exit\n") == CommandCheck::UnknownCommand);
    assert!(check_command("") == CommandCheck::UnknownCommand);
}

#[test]
fn check_next_reads_nothing() {
    let mut r = CommandResolver::new();
    assert!(r.check_next("receive\n") == CommandCheck::MissingArguments);
    assert!(r.check_next("receive dir\n") == CommandCheck::Valid);
    assert_eq!(as_receive(Some(r.read_next_command("receive dir\n"))), Some("dir".to_string()));
}
