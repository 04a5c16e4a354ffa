//! Virtual host router tests.

use pop_mail_server::vhost::domain::{DomainConfig, DomainInfo, DomainTlsConfig};
use pop_mail_server::vhost::VirtualHostRouter;
use pop_mail_server::Config;

fn domain(name: &str, base: &str) -> DomainConfig {
    DomainConfig {
        domain: DomainInfo {
            name: name.to_string(),
            enabled: true,
            default_storage: "maildir".to_string(),
            maildir_base: base.to_string(),
        },
        tls: DomainTlsConfig::default(),
    }
}

#[test]
fn test_add_and_get_domain() {
    let config = Config::default();
    let mut router = VirtualHostRouter::new(&config);

    let domain_config = domain("example.com", "/var/mail/example.com");

    router.add_domain(domain_config);

    let found = router.get_domain("example.com");
    assert!(found.is_some());
    assert_eq!(found.unwrap().domain.name, "example.com");
}

#[test]
fn test_case_insensitive() {
    let config = Config::default();
    let mut router = VirtualHostRouter::new(&config);

    let domain_config = domain("Example.COM", "");

    router.add_domain(domain_config);

    // Should be found regardless of case
    assert!(router.get_domain("example.com").is_some());
    assert!(router.get_domain("EXAMPLE.COM").is_some());
    assert!(router.get_domain("Example.Com").is_some());
}

#[test]
fn test_remove_domain() {
    let config = Config::default();
    let mut router = VirtualHostRouter::new(&config);

    let domain_config = domain("example.com", "");

    router.add_domain(domain_config);
    assert!(router.get_domain("example.com").is_some());

    router.remove_domain("example.com");
    assert!(router.get_domain("example.com").is_none());
}

#[test]
fn enabled_listing_and_replacement() {
    let mut router = VirtualHostRouter::new(&Config::default());
    let mut off = domain("off.org", "");
    off.domain.enabled = false;
    router.add_domain(off);
    router.add_domain(domain("a.com", "/one"));
    router.add_domain(domain("A.COM", "/two"));
    assert!(!router.is_domain_enabled("off.org"));
    assert!(router.is_domain_enabled("a.com"));
    assert!(!router.is_domain_enabled("missing.net"));
    assert_eq!(router.get_domain("a.com").unwrap().domain.maildir_base, "/two");
    let mut names = router.list_domains();
    names.sort();
    assert_eq!(names, vec!["a.com".to_string(), "off.org".to_string()]);
    assert!(router.default_domain().is_none());
    let removed = router.remove_domain("OFF.ORG").unwrap();
    assert_eq!(removed.domain.name, "off.org");
    assert_eq!(router.list_domains(), vec!["a.com".to_string()]);
}

#[test]
fn keyed_lookups_are_exact() {
    let config = Config::default();
    let mut router = VirtualHostRouter::new(&config);
    router.add_under_key("example.com".to_string(), domain("Example.com", ""));
    assert_eq!(router.get_by_key("example.com").unwrap().domain.name, "Example.com");
    assert!(router.get_by_key("Example.com").is_none());
    assert!(router.get_domain("EXAMPLE.com").is_some());
    assert!(router.remove_by_key("EXAMPLE.COM").is_none());
    assert_eq!(router.remove_by_key("example.com").unwrap().domain.name, "Example.com");
    assert!(router.get_domain("example.com").is_none());
}

#[test]
fn domain_names_ignore_the_case_of_letters() {
    let config = Config::default();
    let mut router = VirtualHostRouter::new(&config);
    router.add_domain(domain("mail.example.jp", ""));
    for name in ["MAIL.EXAMPLE.JP", "Mail.Example.Jp", "mail.example.jp"] {
        assert!(router.is_domain_enabled(name));
        assert_eq!(router.get_domain(name).unwrap().domain.name, "mail.example.jp");
    }
}
