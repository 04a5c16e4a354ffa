//! Command parser tests.

use pop_mail_server::protocol::{Command, CommandParser};

#[test]
fn test_parse_user() {
    assert_eq!(
        CommandParser::parse("USER alice").unwrap(),
        Command::User("alice".to_string())
    );
}

#[test]
fn test_parse_pass() {
    assert_eq!(
        CommandParser::parse("PASS secret").unwrap(),
        Command::Pass("secret".to_string())
    );
}

#[test]
fn test_parse_stat() {
    assert_eq!(CommandParser::parse("STAT").unwrap(), Command::Stat);
}

#[test]
fn test_parse_list() {
    assert_eq!(CommandParser::parse("LIST").unwrap(), Command::List(None));
    assert_eq!(
        CommandParser::parse("LIST 1").unwrap(),
        Command::List(Some(1))
    );
}

#[test]
fn test_parse_retr() {
    assert_eq!(CommandParser::parse("RETR 1").unwrap(), Command::Retr(1));
}

#[test]
fn test_parse_dele() {
    assert_eq!(CommandParser::parse("DELE 1").unwrap(), Command::Dele(1));
}

#[test]
fn test_parse_quit() {
    assert_eq!(CommandParser::parse("QUIT").unwrap(), Command::Quit);
}

#[test]
fn test_parse_top() {
    assert_eq!(
        CommandParser::parse("TOP 1 10").unwrap(),
        Command::Top(1, 10)
    );
}

#[test]
fn test_parse_case_insensitive() {
    assert_eq!(CommandParser::parse("quit").unwrap(), Command::Quit);
    assert_eq!(CommandParser::parse("Quit").unwrap(), Command::Quit);
}

#[test]
fn test_parse_invalid() {
    assert!(CommandParser::parse("").is_err());
    assert!(CommandParser::parse("INVALID").is_err());
    assert!(CommandParser::parse("RETR").is_err());
    assert!(CommandParser::parse("RETR abc").is_err());
}

#[test]
fn parse_error_messages() {
    let e = CommandParser::parse("").unwrap_err();
    assert_eq!(e.message(), "Empty command");
    let e = CommandParser::parse("FOO").unwrap_err();
    assert_eq!(e.message(), "Unknown command: FOO");
    let e = CommandParser::parse("USER").unwrap_err();
    assert_eq!(e.message(), "Missing argument");
    let e = CommandParser::parse("RETR 0").unwrap_err();
    assert_eq!(e.message(), "Invalid argument: Message number must be positive");
}

#[test]
fn parse_other_commands() {
    assert_eq!(CommandParser::parse("  noop  ").unwrap(), Command::Noop);
    assert_eq!(CommandParser::parse("RSET").unwrap(), Command::Rset);
    assert_eq!(CommandParser::parse("CAPA").unwrap(), Command::Capa);
    assert_eq!(CommandParser::parse("UIDL").unwrap(), Command::Uidl(None));
    assert_eq!(CommandParser::parse("uidl 3").unwrap(), Command::Uidl(Some(3)));
    assert_eq!(
        CommandParser::parse("APOP bob c4c9334bac560ecc979e58001b3e22fb").unwrap(),
        Command::Apop("bob".to_string(), "c4c9334bac560ecc979e58001b3e22fb".to_string())
    );
    assert_eq!(
        CommandParser::parse("PASS two words").unwrap(),
        Command::Pass("two words".to_string())
    );
    assert!(CommandParser::parse("TOP 1").is_err());
    assert!(CommandParser::parse("LIST x").is_err());
}

#[test]
fn surrounding_white_space_and_keyword_case_do_not_matter() {
    for line in ["USER alice", "list 2", "Top 1 5", "NOOP", "BOGUS x"] {
        let plain = format!("{:?}", CommandParser::parse(line));
        let padded = format!("{:?}", CommandParser::parse(&format!(" \t{}\r\n", line)));
        assert_eq!(plain, padded);
    }
    assert_eq!(CommandParser::parse("uSeR Bob").unwrap(), CommandParser::parse("USER Bob").unwrap());
    assert_eq!(CommandParser::parse("retr 3").unwrap(), CommandParser::parse("RETR 3").unwrap());
    assert_eq!(CommandParser::parse("uSeR Bob").unwrap(), Command::User("Bob".to_string()));
}

#[test]
fn keyword_case_does_not_matter_for_unknown_commands_either() {
    let a = format!("{:?}", CommandParser::parse("bogus x"));
    let b = format!("{:?}", CommandParser::parse("BoGuS x"));
    assert_eq!(a, b);
    assert_eq!(
        CommandParser::parse("top 1 2").unwrap(),
        CommandParser::parse("TOP 1 2").unwrap()
    );
}
