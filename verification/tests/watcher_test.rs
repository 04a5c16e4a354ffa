//! Mail watcher tests.

use pop_mail_server::auth::ImapForwardConfig;
use pop_mail_server::imap_forward::watcher::AfterForward;
use pop_mail_server::imap_forward::MailWatcher;
use tempfile::TempDir;

#[test]
fn test_watcher_creation() {
    let temp_dir = TempDir::new().unwrap();
    let config = ImapForwardConfig::default();
    let watcher = MailWatcher::new(temp_dir.path().to_string_lossy().to_string(), config);
    assert!(!watcher.forwarder().is_enabled());
}

#[test]
fn forwarded_message_is_moved_or_deleted() {
    let watcher = MailWatcher::new("/var/mail/alice".to_string(), ImapForwardConfig::default());
    assert_eq!(watcher.new_dir(), "/var/mail/alice/new");
    match watcher.after_forward("1.msg") {
        AfterForward::MoveTo(p) => assert_eq!(p, "/var/mail/alice/cur/1.msg"),
        other => panic!("unexpected {:?}", other),
    }
    let mut config = ImapForwardConfig::default();
    config.delete_after_forward = true;
    config.enabled = true;
    let watcher = MailWatcher::new("/var/mail/alice/".to_string(), config);
    assert!(watcher.is_active());
    assert!(matches!(watcher.after_forward("1.msg"), AfterForward::Delete));
}
