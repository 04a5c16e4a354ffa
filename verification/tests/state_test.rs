//! Session state machine tests.

use pop_mail_server::protocol::{Command, SessionState, StateMachine};

#[test]
fn test_initial_state() {
    let sm = StateMachine::new();
    assert_eq!(sm.state(), SessionState::Authorization);
}

#[test]
fn test_authorization_commands() {
    let sm = StateMachine::new();
    assert!(sm.is_valid_command(&Command::User("alice".to_string())));
    assert!(sm.is_valid_command(&Command::Pass("secret".to_string())));
    assert!(sm.is_valid_command(&Command::Quit));
    assert!(!sm.is_valid_command(&Command::Stat));
    assert!(!sm.is_valid_command(&Command::Retr(1)));
}

#[test]
fn test_transaction_commands() {
    let mut sm = StateMachine::new();
    sm.transition_to(SessionState::Transaction);
    assert!(sm.is_valid_command(&Command::Stat));
    assert!(sm.is_valid_command(&Command::List(None)));
    assert!(sm.is_valid_command(&Command::Retr(1)));
    assert!(sm.is_valid_command(&Command::Dele(1)));
    assert!(sm.is_valid_command(&Command::Quit));
    assert!(!sm.is_valid_command(&Command::User("alice".to_string())));
    assert!(!sm.is_valid_command(&Command::Pass("secret".to_string())));
}

#[test]
fn test_state_transition() {
    let mut sm = StateMachine::new();
    assert_eq!(sm.state(), SessionState::Authorization);

    sm.transition_to(SessionState::Transaction);
    assert_eq!(sm.state(), SessionState::Transaction);

    sm.transition_to(SessionState::Update);
    assert_eq!(sm.state(), SessionState::Update);
}

#[test]
fn apop_allowed_before_login_only() {
    let mut sm = StateMachine::default();
    let apop = Command::Apop("bob".to_string(), "digest".to_string());
    assert!(sm.is_valid_command(&apop));
    sm.transition_to(SessionState::Transaction);
    assert!(!sm.is_valid_command(&apop));
}
