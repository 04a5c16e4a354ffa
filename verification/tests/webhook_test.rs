//! Webhook event and delivery tests.

use std::time::Duration;

use pop_mail_server::config::WebhookConfig;
use pop_mail_server::webhook::dispatcher::{DeliveryStep, WebhookDispatcher};
use pop_mail_server::webhook::WebhookEvent;

#[test]
fn event_names() {
    let e = WebhookEvent::SessionStart {
        username: "alice".to_string(),
        peer_addr: "127.0.0.1:12345".to_string(),
    };
    assert_eq!(e.event_name(), "session_start");
    assert_eq!(e.username(), "alice");
    let e = WebhookEvent::Command {
        username: "bob".to_string(),
        command: "retr".to_string(),
        peer_addr: "127.0.0.1:12345".to_string(),
    };
    assert_eq!(e.event_name(), "command_retr");
}

#[test]
fn delivery_steps() {
    let d = WebhookDispatcher::new(&WebhookConfig { timeout_secs: 5, retry_count: 2 });
    assert_eq!(d.timeout(), Duration::from_secs(5));
    assert_eq!(d.retry_count(), 2);
    assert_eq!(d.start(""), DeliveryStep::Done(true));
    assert_eq!(d.start("http://x"), DeliveryStep::Send(0));
    assert_eq!(d.after_send(0, false), DeliveryStep::Send(1));
    assert_eq!(d.after_send(1, false), DeliveryStep::Send(2));
    assert_eq!(d.after_send(2, false), DeliveryStep::Done(false));
    assert_eq!(d.after_send(1, true), DeliveryStep::Done(true));
    let def = WebhookDispatcher::default();
    assert_eq!(def.retry_count(), 3);
    assert_eq!(def.timeout(), Duration::from_secs(10));
}

#[test]
fn retry_delays_double() {
    assert_eq!(WebhookDispatcher::retry_delay_ms(0), Some(0));
    assert_eq!(WebhookDispatcher::retry_delay_ms(1), Some(200));
    assert_eq!(WebhookDispatcher::retry_delay_ms(3), Some(800));
    assert_eq!(WebhookDispatcher::retry_delay_ms(57), Some(100u64 << 57));
    assert_eq!(WebhookDispatcher::retry_delay_ms(58), None);
}

#[test]
fn listed_events_or_all_go_to_a_set_address() {
    let events = vec!["session_start".to_string(), "command_retr".to_string()];
    let start = WebhookEvent::SessionStart {
        username: "alice".to_string(),
        peer_addr: "p".to_string(),
    };
    let end = WebhookEvent::SessionEnd { username: "alice".to_string(), peer_addr: "p".to_string() };
    let retr = WebhookEvent::Command {
        username: "alice".to_string(),
        command: "retr".to_string(),
        peer_addr: "p".to_string(),
    };
    let dele = WebhookEvent::Command {
        username: "alice".to_string(),
        command: "dele".to_string(),
        peer_addr: "p".to_string(),
    };
    let url = "https://example.com/webhook/alice";
    assert!(start.is_wanted(url, &events));
    assert!(retr.is_wanted(url, &events));
    assert!(!end.is_wanted(url, &events));
    assert!(!dele.is_wanted(url, &events));
    assert!(!start.is_wanted("", &events));
    assert!(start.is_wanted(url, &Vec::new()));
    assert!(dele.is_wanted(url, &Vec::new()));
    assert!(!dele.is_wanted("", &Vec::new()));
}
