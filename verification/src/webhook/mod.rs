//! Webhook notifications.

pub mod dispatcher;

pub use dispatcher::{WebhookDispatcher, WebhookEvent};
