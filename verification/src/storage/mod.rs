//! Mail storage: stored messages, maildir naming and listing, object naming
//! in an S3 bucket, and the choice of a user's storage.

pub mod adapter;
pub mod maildir;
pub mod s3;

pub use adapter::MessageInfo;
pub use self::maildir::MaildirAdapter;
