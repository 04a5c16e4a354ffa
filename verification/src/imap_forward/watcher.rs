//! The mail watcher's decisions: where new messages arrive, and what
//! becomes of a message once it has been forwarded.

use vstd::prelude::*;

use crate::auth::store::ImapForwardConfig;
use crate::imap_forward::forwarder::ImapForwarder;
use crate::storage::maildir::{join, join_path};

verus! {

/// What becomes of a message file after it has been forwarded.
#[derive(Debug)]
pub enum AfterForward {
    /// The file is removed.
    Delete,
    /// The file is moved to this path (in the maildir's `cur/`).
    MoveTo(String),
}

/// Mail watcher for monitoring and forwarding new messages
pub struct MailWatcher {
    maildir_path: String,
    forwarder: ImapForwarder,
    delete_after_forward: bool,
}

impl MailWatcher {
    /// The watched maildir.
    pub closed spec fn maildir(&self) -> Seq<char> {
        self.maildir_path@
    }

    /// Whether forwarded messages are removed (else moved to `cur/`).
    pub closed spec fn deletes(&self) -> bool {
        self.delete_after_forward
    }

    /// The forwarder's configuration.
    pub closed spec fn forwarding(&self) -> crate::auth::store::ImapForwardConfigView {
        self.forwarder.config()
    }

    /// Create a new mail watcher
    pub fn new(maildir_path: String, config: ImapForwardConfig) -> (r: Self)
        ensures
            r.maildir() == maildir_path@,
            r.forwarding() == config@,
            r.deletes() == config@.delete_after_forward,
    {
        let delete_after_forward = config.delete_after_forward;
        let forwarder = ImapForwarder::new(config);
        Self { maildir_path, forwarder, delete_after_forward }
    }

    /// The forwarder the watcher hands messages to.
    pub fn forwarder(&self) -> (r: &ImapForwarder)
        ensures
            r.config() == self.forwarding(),
    {
        &self.forwarder
    }

    /// Whether the watcher does anything (forwarding is on).
    pub fn is_active(&self) -> (r: bool)
        ensures
            r == self.forwarding().enabled,
    {
        self.forwarder.is_enabled()
    }

    /// The directory new messages arrive in.
    pub fn new_dir(&self) -> (r: String)
        ensures
            r@ == join_path(self.maildir(), "new"@),
    {
        join(self.maildir_path.as_str(), "new")
    }

    /// What becomes of the forwarded message `filename`: removed, or moved
    /// to the maildir's `cur/` under the same name.
    pub fn after_forward(&self, filename: &str) -> (r: AfterForward)
        ensures
            self.deletes() ==> r is Delete,
            !self.deletes() ==> (r matches AfterForward::MoveTo(p) && p@ == join_path(
                join_path(self.maildir(), "cur"@),
                filename@,
            )),
    {
        if self.delete_after_forward {
            AfterForward::Delete
        } else {
            let cur = join(self.maildir_path.as_str(), "cur");
            AfterForward::MoveTo(join(cur.as_str(), filename))
        }
    }
}

} // verus!
