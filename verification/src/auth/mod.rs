//! Authentication module

pub mod password;
pub mod store;

pub use password::PasswordHasher;
pub use store::{AuthStore, ImapForwardConfig, User};
