//! Session decision tests: a whole exchange, with the outside work done by
//! hand.

use pop_mail_server::protocol::{Command, Response, SessionState};
use pop_mail_server::server::session::{Action, MailboxAction};
use pop_mail_server::server::SessionCore;
use pop_mail_server::storage::MessageInfo;
use pop_mail_server::webhook::WebhookEvent;

fn msgs() -> Vec<MessageInfo> {
    vec![
        MessageInfo { id: "a".to_string(), size: 120, uidl: "u1".to_string() },
        MessageInfo { id: "b".to_string(), size: 30, uidl: "u2".to_string() },
    ]
}

fn reply_text(a: Action) -> String {
    match a {
        Action::Reply(r) => r.response.to_string(),
        _ => panic!("expected a reply"),
    }
}

fn mailbox_text(a: MailboxAction) -> String {
    match a {
        MailboxAction::Reply(r) => r.response.to_string(),
        _ => panic!("expected a reply"),
    }
}

fn logged_in() -> SessionCore {
    let mut s = SessionCore::new(3, 1000, "127.0.0.1:5555");
    reply_text(s.begin(Command::User("alice".to_string())));
    match s.begin(Command::Pass("secret".to_string())) {
        Action::Authenticate { username, password } => {
            assert_eq!(username, "alice");
            assert_eq!(password, "secret");
        }
        _ => panic!("expected authentication"),
    }
    let r = s.finish_login("alice", Some("alice".to_string()));
    assert_eq!(r.response.to_string(), "+OK Authentication successful\r\n");
    assert!(matches!(r.event, Some(WebhookEvent::SessionStart { .. })));
    s
}

#[test]
fn greeting_and_guards() {
    assert_eq!(SessionCore::greeting().to_string(), "+OK POP3 server ready\r\n");
    let mut s = SessionCore::new(3, 10, "peer");
    assert_eq!(
        reply_text(s.begin(Command::Stat)),
        "-ERR Command not valid in current state\r\n"
    );
    assert_eq!(reply_text(s.begin(Command::Pass("x".to_string()))), "-ERR No username provided\r\n");
    match s.check_line("USER a-name-that-is-long") {
        Err(r) => assert_eq!(r.to_string(), "-ERR Command too long\r\n"),
        Ok(_) => panic!("expected a refusal"),
    }
    match s.check_line("BOGUS") {
        Err(r) => assert_eq!(r.to_string(), "-ERR Invalid command: Unknown command: BOGUS\r\n"),
        Ok(_) => panic!("expected a refusal"),
    }
    assert_eq!(s.check_line("stat").unwrap(), Command::Stat);
}

#[test]
fn failed_logins_run_out() {
    let mut s = SessionCore::new(1, 1000, "peer");
    reply_text(s.begin(Command::User("alice".to_string())));
    assert!(matches!(s.begin(Command::Pass("a".to_string())), Action::Authenticate { .. }));
    let r = s.finish_login("alice", None);
    assert_eq!(r.response.to_string(), "-ERR Authentication failed\r\n");
    reply_text(s.begin(Command::User("alice".to_string())));
    match s.begin(Command::Pass("b".to_string())) {
        Action::Reply(r) => {
            assert!(r.quit);
            assert_eq!(r.response.to_string(), "-ERR Too many authentication attempts\r\n");
        }
        _ => panic!("expected a refusal"),
    }
}

#[test]
fn mailbox_commands() {
    let mut s = logged_in();
    assert_eq!(s.state(), SessionState::Transaction);
    assert!(matches!(s.begin(Command::Stat), Action::ListMessages));
    assert!(s.stat_fits(&msgs()));
    assert_eq!(mailbox_text(s.on_messages(&Command::Stat, &msgs())), "+OK 2 150\r\n");
    assert_eq!(
        mailbox_text(s.on_messages(&Command::List(None), &msgs())),
        "+OK Message list follows\r\n1 120\r\n2 30\r\n.\r\n"
    );
    assert_eq!(mailbox_text(s.on_messages(&Command::Uidl(Some(2)), &msgs())), "+OK 2 u2\r\n");
    assert_eq!(
        mailbox_text(s.on_messages(&Command::Dele(1), &msgs())),
        "+OK Message marked for deletion\r\n"
    );
    assert_eq!(
        mailbox_text(s.on_messages(&Command::Dele(1), &msgs())),
        "-ERR Message already marked for deletion\r\n"
    );
    assert_eq!(
        mailbox_text(s.on_messages(&Command::List(None), &msgs())),
        "+OK Message list follows\r\n2 30\r\n.\r\n"
    );
    assert_eq!(mailbox_text(s.on_messages(&Command::Retr(1), &msgs())), "-ERR No such message\r\n");
    match s.on_messages(&Command::Retr(2), &msgs()) {
        MailboxAction::Fetch { id, size } => {
            assert_eq!(id, "b");
            assert_eq!(size, 30);
        }
        _ => panic!("expected a fetch"),
    }
    let r = s.render_message(&Command::Retr(2), 30, b"Subject: x\r\n\r\n.body\r\n");
    assert_eq!(r.response.to_string(), "+OK 30 octets\r\nSubject: x\r\n\r\n..body\r\n.\r\n");
    let r = s.render_message(&Command::Top(2, 0), 30, b"Subject: x\r\n\r\nbody\r\n");
    assert_eq!(r.response.to_string(), "+OK Top of message follows\r\nSubject: x\r\n\r\n.\r\n");
}

#[test]
fn quit_commits_marked_messages() {
    let mut s = logged_in();
    mailbox_text(s.on_messages(&Command::Dele(2), &msgs()));
    assert!(s.commit().is_empty());
    match s.begin(Command::Quit) {
        Action::Reply(r) => {
            assert!(r.quit);
            assert_eq!(r.response.to_string(), "+OK Bye\r\n");
            assert!(matches!(r.event, Some(WebhookEvent::SessionEnd { .. })));
        }
        _ => panic!("expected a reply"),
    }
    assert_eq!(s.commit(), vec!["b".to_string()]);
    assert!(s.commit().is_empty());
}

#[test]
fn reset_unmarks() {
    let mut s = logged_in();
    mailbox_text(s.on_messages(&Command::Dele(2), &msgs()));
    assert_eq!(reply_text(s.begin(Command::Rset)), "+OK Deletions reset\r\n");
    assert_eq!(
        mailbox_text(s.on_messages(&Command::List(None), &msgs())),
        "+OK Message list follows\r\n1 120\r\n2 30\r\n.\r\n"
    );
    assert_eq!(
        SessionCore::failure("disk").to_string(),
        Response::err("Error: disk").to_string()
    );
}

#[test]
fn stat_leaves_out_marked_messages() {
    let mut s = logged_in();
    assert!(s.stat_fits(&msgs()));
    mailbox_text(s.on_messages(&Command::Dele(1), &msgs()));
    assert!(s.stat_fits(&msgs()));
    assert_eq!(mailbox_text(s.on_messages(&Command::Stat, &msgs())), "+OK 1 30\r\n");
    mailbox_text(s.on_messages(&Command::Dele(2), &msgs()));
    assert_eq!(mailbox_text(s.on_messages(&Command::Stat, &msgs())), "+OK 0 0\r\n");
    assert_eq!(reply_text(s.begin(Command::Rset)), "+OK Deletions reset\r\n");
    assert_eq!(mailbox_text(s.on_messages(&Command::Stat, &msgs())), "+OK 2 150\r\n");
}

#[test]
fn commands_over_the_rate_are_refused() {
    let s = logged_in();
    assert_eq!(SessionCore::rate_limited().to_string(), "-ERR Rate limit exceeded\r\n");
    match s.check_request(false, "STAT") {
        Err(r) => assert_eq!(r.to_string(), "-ERR Rate limit exceeded\r\n"),
        Ok(_) => panic!("expected a refusal"),
    }
    assert_eq!(s.check_request(true, "STAT").unwrap(), Command::Stat);
    match s.check_request(true, "BOGUS") {
        Err(r) => assert_eq!(r.to_string(), "-ERR Invalid command: Unknown command: BOGUS\r\n"),
        Ok(_) => panic!("expected a refusal"),
    }
}

#[test]
fn quit_hands_out_each_marked_message_once() {
    let mut s = logged_in();
    mailbox_text(s.on_messages(&Command::Dele(2), &msgs()));
    mailbox_text(s.on_messages(&Command::Dele(2), &msgs()));
    mailbox_text(s.on_messages(&Command::Dele(1), &msgs()));
    match s.begin(Command::Quit) {
        Action::Reply(r) => assert!(r.quit),
        _ => panic!("expected a reply"),
    }
    assert_eq!(s.commit(), vec!["b".to_string(), "a".to_string()]);
}
