//! POP3 mail server library: protocol parsing and formatting, session
//! decisions, user and domain stores, and storage naming rules.

pub mod config;
pub mod external;
pub mod protocol;
pub mod storage;
pub mod text;
pub mod webhook;

pub use config::Config;
pub mod server;
pub mod auth;
pub mod vhost;
pub mod api;
pub mod imap_forward;
pub mod security;
pub mod cli;

use vstd::prelude::*;

verus! {

/// Server version
pub const VERSION: &'static str = "0.1.0";

/// Default POP3S port
pub const DEFAULT_POP3S_PORT: u16 = 995;

} // verus!
