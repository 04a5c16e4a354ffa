//! Stored messages, storage errors and the choice of a user's storage.

use vstd::prelude::*;

use crate::auth::store::User;
use crate::config::{S3Config, StorageConfig};
use crate::storage::maildir::maildir_base_join;
use crate::text::push_str;

verus! {

/// Why a storage operation failed.
#[derive(Debug)]
pub enum StorageError {
    Io(std::io::Error),
    NotFound(String),
    Internal(String),
    Config(String),
}

/// The mathematical value of a [`StorageError`]; I/O errors are only told
/// apart.
pub enum StorageErrorView {
    Io,
    NotFound(Seq<char>),
    Internal(Seq<char>),
    Config(Seq<char>),
}

impl View for StorageError {
    type V = StorageErrorView;

    open spec fn view(&self) -> StorageErrorView {
        match self {
            StorageError::Io(_) => StorageErrorView::Io,
            StorageError::NotFound(m) => StorageErrorView::NotFound(m@),
            StorageError::Internal(m) => StorageErrorView::Internal(m@),
            StorageError::Config(m) => StorageErrorView::Config(m@),
        }
    }
}

/// Information about a stored message
#[derive(Debug, Clone)]
pub struct MessageInfo {
    /// Unique identifier for the message
    pub id: String,
    /// Size in bytes
    pub size: usize,
    /// Unique ID for UIDL command
    pub uidl: String,
}

/// The mathematical value of a [`MessageInfo`].
pub struct MessageInfoView {
    pub id: Seq<char>,
    pub size: usize,
    pub uidl: Seq<char>,
}

impl View for MessageInfo {
    type V = MessageInfoView;

    open spec fn view(&self) -> MessageInfoView {
        MessageInfoView { id: self.id@, size: self.size, uidl: self.uidl@ }
    }
}

impl MessageInfo {
    /// A copy of the message information.
    pub fn clone_info(&self) -> (r: MessageInfo)
        ensures
            r@ == self@,
    {
        MessageInfo { id: self.id.clone(), size: self.size, uidl: self.uidl.clone() }
    }
}

/// The views of a sequence of messages.
pub open spec fn message_views(v: Seq<MessageInfo>) -> Seq<MessageInfoView> {
    v.map_values(|m: MessageInfo| m@)
}

/// The maildir a user without one of its own gets: `domain/username` under
/// the configured base (the virtual-host layout, so that users of one name
/// in two domains keep apart), or `username` under it for a user without a
/// domain.
pub open spec fn default_maildir(maildir_base: Seq<char>, domain: Seq<char>, username: Seq<char>) -> Seq<char> {
    if domain.len() == 0 {
        maildir_base + "/"@ + username
    } else {
        maildir_base + "/"@ + domain + "/"@ + username
    }
}

/// Where a user's mail lives: for `maildir` storage, the user's own maildir,
/// or [`default_maildir`]; `s3` is not built in; any other storage type is
/// unknown.
pub open spec fn spec_mail_location(
    maildir_base: Seq<char>,
    storage: Seq<char>,
    domain: Seq<char>,
    username: Seq<char>,
    maildir: Seq<char>,
) -> Result<Seq<char>, StorageErrorView> {
    if storage == "maildir"@ {
        if maildir.len() == 0 {
            Ok(default_maildir(maildir_base, domain, username))
        } else {
            Ok(maildir)
        }
    } else if storage == "s3"@ {
        Err(StorageErrorView::Config("S3 storage support not enabled. Compile with --features s3"@))
    } else {
        Err(StorageErrorView::Config("Unknown storage type: "@ + storage))
    }
}

/// Factory for creating storage adapters
pub struct StorageFactory {
    config: StorageConfig,
}

impl StorageFactory {
    /// The storage configuration the factory works with.
    pub closed spec fn maildir_base(&self) -> Seq<char> {
        self.config.maildir_base@
    }

    /// Create a new storage factory
    pub fn new(config: &StorageConfig) -> (r: Self)
        ensures
            r.maildir_base() == config.maildir_base@,
    {
        Self {
            config: StorageConfig {
                default_type: config.default_type.clone(),
                maildir_base: config.maildir_base.clone(),
                s3: S3Config { region: config.s3.region.clone(), endpoint: config.s3.endpoint.clone() },
            },
        }
    }

    /// The maildir a user's storage adapter opens, or why the user's storage
    /// cannot be opened.
    pub fn mail_location(&self, user: &User) -> (r: Result<String, StorageError>)
        ensures
            match r {
                Ok(p) => spec_mail_location(
                    self.maildir_base(),
                    user.storage@,
                    user.domain@,
                    user.username@,
                    user.maildir@,
                ) == Ok::<Seq<char>, StorageErrorView>(p@),
                Err(e) => spec_mail_location(
                    self.maildir_base(),
                    user.storage@,
                    user.domain@,
                    user.username@,
                    user.maildir@,
                ) == Err::<Seq<char>, StorageErrorView>(e@),
            },
    {
        proof {
            reveal_strlit("maildir");
            reveal_strlit("s3");
        }
        if crate::text::str_eq(user.storage.as_str(), "maildir") {
            if user.maildir.as_str().is_empty() {
                if user.domain.as_str().is_empty() {
                    Ok(maildir_base_join(self.config.maildir_base.as_str(), user.username.as_str()))
                } else {
                    let base = maildir_base_join(
                        self.config.maildir_base.as_str(),
                        user.domain.as_str(),
                    );
                    Ok(maildir_base_join(base.as_str(), user.username.as_str()))
                }
            } else {
                Ok(user.maildir.clone())
            }
        } else if crate::text::str_eq(user.storage.as_str(), "s3") {
            Err(
                StorageError::Config(
                    "S3 storage support not enabled. Compile with --features s3".to_owned(),
                ),
            )
        } else {
            let mut m = "Unknown storage type: ".to_owned();
            push_str(&mut m, user.storage.as_str());
            Err(StorageError::Config(m))
        }
    }
}

} // verus!
