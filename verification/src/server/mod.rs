//! Server module: the decisions of a POP3 session.

pub mod session;

pub use session::SessionCore;
