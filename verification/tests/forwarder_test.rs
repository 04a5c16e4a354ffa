//! IMAP forwarder tests.

use pop_mail_server::auth::ImapForwardConfig;
use pop_mail_server::imap_forward::forwarder::ForwardError;
use pop_mail_server::imap_forward::ImapForwarder;

fn enabled_config() -> ImapForwardConfig {
    ImapForwardConfig {
        enabled: true,
        host: "imap.example.com".to_string(),
        port: 993,
        tls: true,
        username: "user@example.com".to_string(),
        password_env: "IMAP_PASSWORD".to_string(),
        target_folder: "INBOX".to_string(),
        delete_after_forward: false,
    }
}

#[test]
fn test_forwarder_disabled() {
    let config = ImapForwardConfig::default();
    let forwarder = ImapForwarder::new(config);
    assert!(!forwarder.is_enabled());
}

#[test]
fn test_forwarder_enabled() {
    let config = ImapForwardConfig {
        enabled: true,
        host: "imap.example.com".to_string(),
        port: 993,
        tls: true,
        username: "user@example.com".to_string(),
        password_env: "IMAP_PASSWORD".to_string(),
        target_folder: "INBOX".to_string(),
        delete_after_forward: false,
    };
    let forwarder = ImapForwarder::new(config);
    assert!(forwarder.is_enabled());
}

#[test]
fn disabled_forwarder_has_no_target() {
    let forwarder = ImapForwarder::new(ImapForwardConfig::default());
    assert!(matches!(forwarder.forward_target(None), Ok(None)));
}

#[test]
fn target_of_enabled_forwarder() {
    let forwarder = ImapForwarder::new(enabled_config());
    let target = forwarder.forward_target(Some("pw".to_string())).unwrap().unwrap();
    assert_eq!(target.address, "imap.example.com:993");
    assert_eq!(target.host, "imap.example.com");
    assert!(target.tls);
    assert_eq!(target.username, "user@example.com");
    assert_eq!(target.password, "pw");
    assert_eq!(target.folder, "INBOX");
}

#[test]
fn missing_password_errors() {
    let forwarder = ImapForwarder::new(enabled_config());
    match forwarder.forward_target(None) {
        Err(e @ ForwardError::Config(_)) => {
            assert_eq!(e.message(), "Configuration error: Environment variable IMAP_PASSWORD not set")
        }
        other => panic!("unexpected {:?}", other),
    }
    let mut config = enabled_config();
    config.password_env = String::new();
    let forwarder = ImapForwarder::new(config);
    match forwarder.password(Some("ignored".to_string())) {
        Err(ForwardError::Config(m)) => assert_eq!(m, "Password environment variable not configured"),
        other => panic!("unexpected {:?}", other),
    }
}
