//! POP3 protocol: command parser, response formatter and session states.

pub mod command;
pub mod response;
pub mod state;

pub use command::{Command, CommandParser};
pub use response::Response;
pub use state::{SessionState, StateMachine};
