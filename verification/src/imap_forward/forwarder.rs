//! The IMAP forwarder's decisions: whether to forward, with which password,
//! and to which server and folder.

use vstd::prelude::*;

use crate::auth::store::{ImapForwardConfig, ImapForwardConfigView};
use crate::text::{decimal, decimal_string, push_str};

verus! {

/// Why a message could not be forwarded.
#[derive(Debug)]
pub enum ForwardError {
    Connection(String),
    Auth(String),
    Imap(String),
    Config(String),
}

/// The mathematical value of a [`ForwardError`].
pub enum ForwardErrorView {
    Connection(Seq<char>),
    Auth(Seq<char>),
    Imap(Seq<char>),
    Config(Seq<char>),
}

impl View for ForwardError {
    type V = ForwardErrorView;

    open spec fn view(&self) -> ForwardErrorView {
        match self {
            ForwardError::Connection(m) => ForwardErrorView::Connection(m@),
            ForwardError::Auth(m) => ForwardErrorView::Auth(m@),
            ForwardError::Imap(m) => ForwardErrorView::Imap(m@),
            ForwardError::Config(m) => ForwardErrorView::Config(m@),
        }
    }
}

/// The message of a forwarding error.
pub open spec fn spec_forward_error_message(e: ForwardErrorView) -> Seq<char> {
    match e {
        ForwardErrorView::Connection(m) => "Connection failed: "@ + m,
        ForwardErrorView::Auth(m) => "Authentication failed: "@ + m,
        ForwardErrorView::Imap(m) => "IMAP error: "@ + m,
        ForwardErrorView::Config(m) => "Configuration error: "@ + m,
    }
}

impl ForwardError {
    /// The error's message.
    pub fn message(&self) -> (r: String)
        ensures
            r@ == spec_forward_error_message(self@),
    {
        let (prefix, m) = match self {
            ForwardError::Connection(m) => ("Connection failed: ", m),
            ForwardError::Auth(m) => ("Authentication failed: ", m),
            ForwardError::Imap(m) => ("IMAP error: ", m),
            ForwardError::Config(m) => ("Configuration error: ", m),
        };
        let mut r = prefix.to_owned();
        push_str(&mut r, m.as_str());
        r
    }
}

/// Where and how a message is to be forwarded.
#[derive(Debug)]
pub struct ForwardTarget {
    /// `host:port`
    pub address: String,
    /// The host name the TLS certificate is checked against.
    pub host: String,
    pub tls: bool,
    pub username: String,
    pub password: String,
    pub folder: String,
}

/// The password of a configuration, given what its environment variable
/// holds (`None` when it is not set): an error when no variable is
/// configured or it is not set.
pub open spec fn spec_password(c: ImapForwardConfigView, value: Option<Seq<char>>) -> Result<
    Seq<char>,
    ForwardErrorView,
> {
    if c.password_env.len() == 0 {
        Err(ForwardErrorView::Config("Password environment variable not configured"@))
    } else {
        match value {
            Some(p) => Ok(p),
            None => Err(
                ForwardErrorView::Config(
                    "Environment variable "@ + c.password_env + " not set"@,
                ),
            ),
        }
    }
}

/// The address a configuration connects to: `host:port`.
pub open spec fn spec_address(c: ImapForwardConfigView) -> Seq<char> {
    c.host + ":"@ + decimal(c.port as nat)
}

/// IMAP forwarder for sending messages to an IMAP server
pub struct ImapForwarder {
    config: ImapForwardConfig,
}

impl ImapForwarder {
    /// The forwarder's configuration.
    pub closed spec fn config(&self) -> ImapForwardConfigView {
        self.config@
    }

    /// Create a new IMAP forwarder
    pub fn new(config: ImapForwardConfig) -> (r: Self)
        ensures
            r.config() == config@,
    {
        Self { config }
    }

    /// Check if forwarding is enabled
    pub fn is_enabled(&self) -> (r: bool)
        ensures
            r == self.config().enabled,
    {
        self.config.enabled
    }

    /// The name of the environment variable that holds the password.
    pub fn password_env(&self) -> (r: &str)
        ensures
            r@ == self.config().password_env,
    {
        self.config.password_env.as_str()
    }

    /// The password, given what the configured environment variable holds.
    pub fn password(&self, value: Option<String>) -> (r: Result<String, ForwardError>)
        ensures
            match r {
                Ok(p) => spec_password(
                    self.config(),
                    match value {
                        Some(v) => Some(v@),
                        None => None,
                    },
                ) == Ok::<Seq<char>, ForwardErrorView>(p@),
                Err(e) => spec_password(
                    self.config(),
                    match value {
                        Some(v) => Some(v@),
                        None => None,
                    },
                ) == Err::<Seq<char>, ForwardErrorView>(e@),
            },
    {
        if self.config.password_env.as_str().is_empty() {
            return Err(
                ForwardError::Config("Password environment variable not configured".to_owned()),
            );
        }
        match value {
            Some(p) => Ok(p),
            None => {
                let mut m = "Environment variable ".to_owned();
                push_str(&mut m, self.config.password_env.as_str());
                push_str(&mut m, " not set");
                Err(ForwardError::Config(m))
            },
        }
    }

    /// What forwarding a message comes to: nothing when forwarding is off;
    /// otherwise the server, account and folder to append it to, or why
    /// there is no password.
    pub fn forward_target(&self, password_value: Option<String>) -> (r: Result<
        Option<ForwardTarget>,
        ForwardError,
    >)
        ensures
            !self.config().enabled ==> (r matches Ok(None)),
            self.config().enabled ==> match spec_password(
                self.config(),
                match password_value {
                    Some(v) => Some(v@),
                    None => None,
                },
            ) {
                Ok(p) => (r matches Ok(Some(t)) && t.address@ == spec_address(self.config())
                    && t.host@ == self.config().host && t.tls == self.config().tls
                    && t.username@ == self.config().username && t.password@ == p
                    && t.folder@ == self.config().target_folder),
                Err(e) => (r matches Err(err) && err@ == e),
            },
    {
        if !self.config.enabled {
            return Ok(None);
        }
        let password = match self.password(password_value) {
            Ok(p) => p,
            Err(e) => {
                return Err(e);
            },
        };
        let mut address = self.config.host.clone();
        push_str(&mut address, ":");
        let port = decimal_string(self.config.port as u64);
        push_str(&mut address, port.as_str());
        Ok(
            Some(
                ForwardTarget {
                    address,
                    host: self.config.host.clone(),
                    tls: self.config.tls,
                    username: self.config.username.clone(),
                    password,
                    folder: self.config.target_folder.clone(),
                },
            ),
        )
    }
}

} // verus!
