//! POP3 session state machine.

use vstd::prelude::*;

use crate::protocol::command::{Command, CommandView};

verus! {

/// POP3 session states
#[derive(Debug, Clone, Copy, PartialEq, Eq, Structural)]
pub enum SessionState {
    /// Initial state, awaiting authentication
    Authorization,
    /// Authenticated, can access messages
    Transaction,
    /// Session ending, committing changes
    Update,
}

/// Whether a command may be issued in a state (RFC 1939): USER, PASS, APOP,
/// QUIT and CAPA before login; the mailbox commands, QUIT and CAPA after
/// it; nothing once the session is ending.
pub open spec fn command_allowed(state: SessionState, command: CommandView) -> bool {
    match state {
        SessionState::Authorization => match command {
            CommandView::User(_) | CommandView::Pass(_) | CommandView::Apop(_, _)
            | CommandView::Quit | CommandView::Capa => true,
            _ => false,
        },
        SessionState::Transaction => match command {
            CommandView::User(_) | CommandView::Pass(_) | CommandView::Apop(_, _) => false,
            _ => true,
        },
        SessionState::Update => false,
    }
}

/// State machine for POP3 session
pub struct StateMachine {
    state: SessionState,
}

impl StateMachine {
    /// The current state, in specifications.
    pub closed spec fn spec_state(&self) -> SessionState {
        self.state
    }

    /// Create a new state machine in AUTHORIZATION state
    pub fn new() -> (sm: Self)
        ensures
            sm.spec_state() == SessionState::Authorization,
    {
        Self { state: SessionState::Authorization }
    }

    /// Get the current state
    pub fn state(&self) -> (s: SessionState)
        ensures
            s == self.spec_state(),
    {
        self.state
    }

    /// Transition to a new state
    pub fn transition_to(&mut self, new_state: SessionState)
        ensures
            final(self).spec_state() == new_state,
        no_unwind
    {
        self.state = new_state;
    }

    /// Check if a command is valid in the current state
    pub fn is_valid_command(&self, command: &Command) -> (b: bool)
        ensures
            b == command_allowed(self.spec_state(), command@),
    {
        match self.state {
            SessionState::Authorization => match command {
                Command::User(_) | Command::Pass(_) | Command::Apop(_, _) | Command::Quit
                | Command::Capa => true,
                _ => false,
            },
            SessionState::Transaction => match command {
                Command::Stat | Command::List(_) | Command::Retr(_) | Command::Dele(_)
                | Command::Noop | Command::Rset | Command::Uidl(_) | Command::Top(_, _)
                | Command::Quit | Command::Capa => true,
                _ => false,
            },
            // No commands valid in UPDATE state
            SessionState::Update => false,
        }
    }
}

impl Default for StateMachine {
    fn default() -> (sm: Self)
        ensures
            sm.spec_state() == SessionState::Authorization,
    {
        Self::new()
    }
}

} // verus!
