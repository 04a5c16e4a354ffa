//! Management API tests.

use pop_mail_server::api::handlers::{
    create_domain, create_user, delete_domain, delete_user, get_domain, get_user, health,
    is_authorized, list_domains, list_users, update_user, CreateDomainRequest, CreateUserRequest,
    ErrorResponse, UpdateUserRequest, STATUS_CREATED, STATUS_NOT_FOUND, STATUS_NO_CONTENT,
};
use pop_mail_server::auth::store::AuthStore;
use pop_mail_server::vhost::VirtualHostRouter;
use pop_mail_server::{Config, VERSION};

fn domain_request(name: &str) -> CreateDomainRequest {
    CreateDomainRequest {
        name: name.to_string(),
        enabled: true,
        default_storage: "maildir".to_string(),
        maildir_base: "/var/mail/x".to_string(),
        cert_path: String::new(),
        key_path: String::new(),
    }
}

fn user_request(name: &str) -> CreateUserRequest {
    CreateUserRequest {
        username: name.to_string(),
        password: "secret".to_string(),
        storage: "maildir".to_string(),
        maildir: String::new(),
        s3_bucket: String::new(),
        s3_prefix: String::new(),
        webhook_url: String::new(),
        webhook_events: vec![],
        enabled: true,
    }
}

#[test]
fn health_reports_version() {
    let h = health();
    assert_eq!(h.status, "ok");
    assert_eq!(h.version, VERSION);
    assert_eq!(ErrorResponse::new("x").error, "x");
}

#[test]
fn api_key_checks() {
    assert!(is_authorized("/api/v1/health", None, "key"));
    assert!(is_authorized("/api/v1/domains", Some("key"), "key"));
    assert!(!is_authorized("/api/v1/domains", Some("nope"), "key"));
    assert!(!is_authorized("/api/v1/domains", None, "key"));
}

#[test]
fn domain_routes() {
    let mut router = VirtualHostRouter::new(&Config::default());
    let (status, created) = create_domain(&mut router, domain_request("Example.COM")).unwrap();
    assert_eq!(status, STATUS_CREATED);
    assert_eq!(created.name, "Example.COM");
    let found = get_domain(&router, "example.com").unwrap();
    assert_eq!(found.maildir_base, "/var/mail/x");
    assert_eq!(list_domains(&router).len(), 1);
    assert_eq!(delete_domain(&mut router, "EXAMPLE.com").unwrap(), STATUS_NO_CONTENT);
    let (status, err) = get_domain(&router, "example.com").unwrap_err();
    assert_eq!(status, STATUS_NOT_FOUND);
    assert_eq!(err.error, "Domain not found");
    assert!(delete_domain(&mut router, "example.com").is_err());
}

#[test]
fn user_routes() {
    let mut store = AuthStore::new();
    let (status, created) = create_user(&mut store, "example.com", user_request("alice")).unwrap();
    assert_eq!(status, STATUS_CREATED);
    assert_eq!(created.domain, "example.com");
    assert!(store.authenticate("alice@example.com", "secret").is_ok());

    let shown = get_user(&store, "example.com", "alice").unwrap();
    assert_eq!(shown.storage, "maildir");
    assert_eq!(list_users(&store, "Example.com").len(), 1);

    let update = UpdateUserRequest {
        password: Some("newpass".to_string()),
        storage: None,
        maildir: None,
        webhook_url: Some("http://hook".to_string()),
        enabled: Some(false),
    };
    let updated = update_user(&mut store, "example.com", "alice", update).unwrap();
    assert_eq!(updated.webhook_url, "http://hook");
    assert!(!updated.enabled);
    let stored = store.get_user("alice@example.com").unwrap();
    assert!(!stored.enabled);
    let hasher = pop_mail_server::auth::PasswordHasher::new();
    assert!(hasher.verify("newpass", &stored.password_hash).unwrap());

    let none = UpdateUserRequest {
        password: None,
        storage: None,
        maildir: None,
        webhook_url: None,
        enabled: None,
    };
    let (status, err) = update_user(&mut store, "example.com", "bob", none).unwrap_err();
    assert_eq!(status, STATUS_NOT_FOUND);
    assert_eq!(err.error, "User not found");

    assert_eq!(delete_user(&mut store, "example.com", "alice").unwrap(), STATUS_NO_CONTENT);
    assert!(get_user(&store, "example.com", "alice").is_err());
    assert!(delete_user(&mut store, "example.com", "alice").is_err());
}

#[test]
fn created_user_is_found_by_its_routes() {
    let mut store = AuthStore::new();
    create_user(&mut store, "Example.com", user_request("Carol")).unwrap();
    let shown = get_user(&store, "example.COM", "carol").unwrap();
    assert_eq!(shown.username, "Carol");
    assert_eq!(shown.domain, "Example.com");
}

#[test]
fn listed_domains_show_each_domain() {
    let mut router = VirtualHostRouter::new(&Config::default());
    create_domain(&mut router, domain_request("a.org")).unwrap();
    create_domain(&mut router, domain_request("b.org")).unwrap();
    let mut names: Vec<String> = list_domains(&router).into_iter().map(|d| d.name).collect();
    names.sort();
    assert_eq!(names, vec!["a.org".to_string(), "b.org".to_string()]);
}
