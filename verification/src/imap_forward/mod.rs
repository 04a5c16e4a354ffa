//! IMAP forwarding: when and where a message is forwarded, and what happens
//! to it afterwards.

pub mod forwarder;
pub mod watcher;

pub use forwarder::ImapForwarder;
pub use watcher::MailWatcher;
