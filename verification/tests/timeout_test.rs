//! Timeout manager tests.

use std::time::Duration;

use pop_mail_server::security::TimeoutManager;
use pop_mail_server::security::effective_rate;

#[test]
fn test_timeout_manager() {
    let tm = TimeoutManager::new(30, 300);
    assert_eq!(tm.command_timeout, Duration::from_secs(30));
    assert_eq!(tm.idle_timeout, Duration::from_secs(300));
}

#[test]
fn test_default() {
    let tm = TimeoutManager::default();
    assert_eq!(tm.command_timeout, Duration::from_secs(30));
    assert_eq!(tm.idle_timeout, Duration::from_secs(300));
}

#[test]
fn rate_of_zero_counts_as_one() {
    assert_eq!(effective_rate(0), 1);
    assert_eq!(effective_rate(2), 2);
}
