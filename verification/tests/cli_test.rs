//! Management command line tests.

use pop_mail_server::cli::{
    domain_add_request, domain_row, domain_url, health_url, parse_username, password_from_line,
    password_update_request, user_row, user_url, users_url, webhook_update_request,
};

#[test]
fn usernames_split_at_last_at() {
    assert_eq!(
        parse_username("alice@example.com"),
        Some(("alice".to_string(), "example.com".to_string()))
    );
    assert_eq!(
        parse_username("a@b@c"),
        Some(("a@b".to_string(), "c".to_string()))
    );
    assert_eq!(parse_username("alice"), None);
}

#[test]
fn addresses() {
    let e = "http://127.0.0.1:8080";
    assert_eq!(health_url(e), "http://127.0.0.1:8080/api/v1/health");
    assert_eq!(domain_url(e, "x.org"), "http://127.0.0.1:8080/api/v1/domains/x.org");
    assert_eq!(users_url(e, "x.org"), "http://127.0.0.1:8080/api/v1/domains/x.org/users");
    assert_eq!(user_url(e, "x.org", "bob"), "http://127.0.0.1:8080/api/v1/domains/x.org/users/bob");
}

#[test]
fn requests() {
    let r = domain_add_request("x.org", None, Some("k.pem".to_string()), "maildir", None);
    assert_eq!(r.maildir_base, "/var/mail/x.org");
    assert_eq!(r.cert_path, "");
    assert_eq!(r.key_path, "k.pem");
    assert!(r.enabled);
    let w = webhook_update_request("http://h");
    assert_eq!(w.webhook_url.as_deref(), Some("http://h"));
    assert!(w.password.is_none());
    let p = password_update_request("pw".to_string());
    assert_eq!(p.password.as_deref(), Some("pw"));
    assert_eq!(password_from_line("  secret \n"), "secret");
}

#[test]
fn table_rows() {
    assert_eq!(
        domain_row("x.org", true, "maildir"),
        format!("{:<30} {:<10} {:<10}", "x.org", true, "maildir")
    );
    assert_eq!(
        user_row("bob", false, "s3"),
        format!("{:<20} {:<10} {:<10}", "bob", false, "s3")
    );
    let long = "a-very-long-domain-name-that-is-wider.example";
    assert_eq!(
        domain_row(long, false, "maildir"),
        format!("{:<30} {:<10} {:<10}", long, false, "maildir")
    );
}
