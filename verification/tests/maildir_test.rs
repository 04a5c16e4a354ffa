//! Maildir naming and listing tests.

use pop_mail_server::auth::{ImapForwardConfig, User};
use pop_mail_server::config::{S3Config, StorageConfig};
use pop_mail_server::storage::adapter::{StorageError, StorageFactory};
use pop_mail_server::storage::maildir::join;
use pop_mail_server::storage::MaildirAdapter;

#[test]
fn maildir_directories() {
    let adapter = MaildirAdapter::new("/var/mail/alice");
    assert_eq!(adapter.base_path(), "/var/mail/alice");
    assert_eq!(adapter.cur_dir(), "/var/mail/alice/cur");
    assert_eq!(adapter.new_dir(), "/var/mail/alice/new");
    assert_eq!(
        adapter.structure(),
        vec![
            "/var/mail/alice/new".to_string(),
            "/var/mail/alice/cur".to_string(),
            "/var/mail/alice/tmp".to_string(),
        ]
    );
    assert_eq!(adapter.message_path("1.msg"), "/var/mail/alice/cur/1.msg");
}

#[test]
fn path_joining() {
    assert_eq!(join("a/", "b"), "a/b");
    assert_eq!(join("", "b"), "b");
    assert_eq!(join("a", "/b"), "/b");
    assert_eq!(join("a", "b"), "a/b");
}

#[test]
fn uidl_is_md5_of_base_name() {
    assert_eq!(
        MaildirAdapter::generate_uidl("abc"),
        "900150983cd24fb0d6963f7d28e17f72"
    );
    assert_eq!(MaildirAdapter::base_filename("123.host:2,S"), "123.host");
    assert_eq!(MaildirAdapter::base_filename("123.host"), "123.host");
    let a = MaildirAdapter::message_info("abc:2,S", 7);
    assert_eq!(a.id, "abc:2,S");
    assert_eq!(a.size, 7);
    assert_eq!(a.uidl, "900150983cd24fb0d6963f7d28e17f72");
}

#[test]
fn listing_is_sorted_by_name() {
    let entries = vec![
        ("b.msg".to_string(), 2usize),
        ("a.msg".to_string(), 1usize),
        ("c.msg:2,S".to_string(), 3usize),
    ];
    let listed = MaildirAdapter::listing(&entries);
    let ids: Vec<&str> = listed.iter().map(|m| m.id.as_str()).collect();
    assert_eq!(ids, vec!["a.msg", "b.msg", "c.msg:2,S"]);
    assert_eq!(listed[0].size, 1);
    assert_eq!(listed[2].uidl, MaildirAdapter::generate_uidl("c.msg"));
    assert!(MaildirAdapter::listing(&Vec::new()).is_empty());
}

fn user(storage: &str, maildir: &str) -> User {
    User {
        username: "alice".to_string(),
        domain: "example.com".to_string(),
        password_hash: String::new(),
        maildir: maildir.to_string(),
        storage: storage.to_string(),
        s3_bucket: String::new(),
        s3_prefix: String::new(),
        webhook_url: String::new(),
        webhook_events: vec![],
        enabled: true,
        imap_forward: ImapForwardConfig::default(),
    }
}

#[test]
fn storage_locations() {
    let factory = StorageFactory::new(&StorageConfig {
        default_type: "maildir".to_string(),
        maildir_base: "/var/mail".to_string(),
        s3: S3Config::default(),
    });
    assert_eq!(
        factory.mail_location(&user("maildir", "")).unwrap(),
        "/var/mail/example.com/alice"
    );
    let mut bare = user("maildir", "");
    bare.domain = String::new();
    assert_eq!(factory.mail_location(&bare).unwrap(), "/var/mail/alice");
    let mut other = user("maildir", "");
    other.domain = "company.jp".to_string();
    assert_eq!(factory.mail_location(&other).unwrap(), "/var/mail/company.jp/alice");
    assert_eq!(factory.mail_location(&user("maildir", "/home/a/Mail")).unwrap(), "/home/a/Mail");
    match factory.mail_location(&user("s3", "")) {
        Err(StorageError::Config(m)) => {
            assert_eq!(m, "S3 storage support not enabled. Compile with --features s3")
        }
        other => panic!("unexpected {:?}", other),
    }
    match factory.mail_location(&user("tape", "")) {
        Err(StorageError::Config(m)) => assert_eq!(m, "Unknown storage type: tape"),
        other => panic!("unexpected {:?}", other),
    }
}

#[test]
fn uidl_survives_flag_changes() {
    let a = MaildirAdapter::message_info("1700000000.M1.host:2,", 5);
    let b = MaildirAdapter::message_info("1700000000.M1.host:2,RS", 5);
    let c = MaildirAdapter::message_info("1700000000.M1.host", 5);
    assert_eq!(a.uidl, b.uidl);
    assert_eq!(a.uidl, c.uidl);
    assert_eq!(a.uidl.len(), 32);
}
