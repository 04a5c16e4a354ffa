//! User store tests.

use pop_mail_server::auth::store::{reload_wanted, AuthError, AuthStore};
use pop_mail_server::auth::{ImapForwardConfig, PasswordHasher, User};

fn alice(hash: String) -> User {
    User {
        username: "alice".to_string(),
        domain: "example.com".to_string(),
        password_hash: hash,
        maildir: "/var/mail/alice".to_string(),
        storage: "maildir".to_string(),
        s3_bucket: String::new(),
        s3_prefix: String::new(),
        webhook_url: String::new(),
        webhook_events: vec![],
        enabled: true,
        imap_forward: ImapForwardConfig::default(),
    }
}

#[test]
fn test_make_key() {
    assert_eq!(AuthStore::make_key("alice", ""), "alice");
    assert_eq!(
        AuthStore::make_key("alice", "example.com"),
        "alice@example.com"
    );
    assert_eq!(
        AuthStore::make_key("Alice", "Example.COM"),
        "alice@example.com"
    );
}

#[test]
fn test_parse_username() {
    assert_eq!(
        AuthStore::parse_username("alice"),
        ("alice".to_string(), String::new())
    );
    assert_eq!(
        AuthStore::parse_username("alice@example.com"),
        ("alice".to_string(), "example.com".to_string())
    );
}

#[test]
fn test_upsert_and_get() {
    let mut store = AuthStore::new();
    let hasher = PasswordHasher::new();
    let hash = hasher.hash("secret").unwrap();

    let user = alice(hash);

    store.upsert_user(user.clone());

    let found = store.get_user("alice@example.com");
    assert!(found.is_some());
    assert_eq!(found.unwrap().username, "alice");
}

#[test]
fn test_authenticate() {
    let mut store = AuthStore::new();
    let hash = store.hash_password("secret").unwrap();

    let user = alice(hash);

    store.upsert_user(user);

    // Valid authentication
    let result = store.authenticate("alice@example.com", "secret");
    assert!(result.is_ok());

    // Invalid password
    let result = store.authenticate("alice@example.com", "wrong");
    assert!(matches!(result, Err(AuthError::InvalidPassword)));

    // Unknown user
    let result = store.authenticate("bob@example.com", "secret");
    assert!(matches!(result, Err(AuthError::UserNotFound)));
}

#[test]
fn disabled_user_is_refused() {
    let mut store = AuthStore::default();
    let hash = store.hash_password("secret").unwrap();
    let mut user = alice(hash);
    user.enabled = false;
    store.upsert_user(user);
    assert!(matches!(
        store.authenticate("ALICE@Example.com", "secret"),
        Err(AuthError::UserDisabled)
    ));
}

#[test]
fn broken_hash_is_a_password_error() {
    let mut store = AuthStore::new();
    store.upsert_user(alice("not a hash".to_string()));
    match store.authenticate("alice@example.com", "secret") {
        Err(AuthError::PasswordError(m)) => assert_eq!(m, "Invalid hash format"),
        other => panic!("unexpected {:?}", other),
    }
}

#[test]
fn upsert_replaces_and_remove_removes() {
    let mut store = AuthStore::new();
    store.upsert_user(alice("h1".to_string()));
    let mut second = alice("h2".to_string());
    second.username = "Alice".to_string();
    store.upsert_user(second);
    assert_eq!(store.len(), 1);
    assert_eq!(store.get_user("alice@example.com").unwrap().password_hash, "h2");
    let removed = store.remove_user("ALICE", "example.com").unwrap();
    assert_eq!(removed.password_hash, "h2");
    assert!(store.get_user("alice@example.com").is_none());
    assert!(store.remove_user("alice", "example.com").is_none());
    assert_eq!(store.len(), 0);
}

#[test]
fn listing_by_domain_and_save_order() {
    let mut bob = alice("h".to_string());
    bob.username = "bob".to_string();
    let mut carol = alice("h".to_string());
    carol.username = "carol".to_string();
    carol.domain = "Other.org".to_string();
    let store = AuthStore::from_users(&vec![carol.clone(), bob.clone(), alice("h".to_string())]);
    assert_eq!(store.len(), 3);
    let mut names: Vec<String> = store
        .list_users_by_domain("EXAMPLE.COM")
        .into_iter()
        .map(|u| u.username)
        .collect();
    names.sort();
    assert_eq!(names, vec!["alice".to_string(), "bob".to_string()]);
    assert_eq!(store.list_users().len(), 3);
    let saved: Vec<(String, String)> = store
        .users_for_save()
        .into_iter()
        .map(|u| (u.domain, u.username))
        .collect();
    assert_eq!(
        saved,
        vec![
            ("Other.org".to_string(), "carol".to_string()),
            ("example.com".to_string(), "alice".to_string()),
            ("example.com".to_string(), "bob".to_string()),
        ]
    );
}

#[test]
fn saved_users_reload_to_the_same_store() {
    let mut store = AuthStore::new();
    store.upsert_user(alice("h1".to_string()));
    let mut bob = alice("h2".to_string());
    bob.username = "Bob".to_string();
    bob.domain = "Other.org".to_string();
    store.upsert_user(bob);
    let saved = store.users_for_save();
    let reloaded = AuthStore::from_users(&saved);
    assert_eq!(reloaded.len(), store.len());
    for login in ["alice@example.com", "bob@other.org"] {
        let a = store.get_user(login).unwrap();
        let b = reloaded.get_user(login).unwrap();
        assert_eq!(a.password_hash, b.password_hash);
        assert_eq!(a.username, b.username);
    }
}

#[test]
fn own_save_is_not_reloaded() {
    assert!(reload_wanted(None));
    assert!(!reload_wanted(Some(10)));
    assert!(!reload_wanted(Some(499)));
    assert!(reload_wanted(Some(500)));
}

#[test]
fn join_key_puts_an_at_between() {
    assert_eq!(AuthStore::join_key("bob".to_string(), "mail.jp"), "bob@mail.jp");
    assert_eq!(AuthStore::join_key("Bob".to_string(), "Mail.JP"), "Bob@Mail.JP");
}

#[test]
fn logins_ignore_the_case_of_letters() {
    let mut store = AuthStore::new();
    store.upsert_user(alice("h".to_string()));
    for name in ["alice@example.com", "ALICE@EXAMPLE.COM", "Alice@Example.Com"] {
        assert_eq!(store.get_user(name).unwrap().username, "alice");
    }
    assert!(store.get_user("alice@example.org").is_none());
    let hash = store.hash_password("secret").unwrap();
    assert!(hash.starts_with("$argon2id$"));
}
