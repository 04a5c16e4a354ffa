//! Configuration values, their defaults and their validation.

use vstd::prelude::*;

verus! {

/// Why a configuration could not be used.
#[derive(Debug)]
pub enum ConfigError {
    ReadError(std::io::Error),
    ParseError(toml::de::Error),
    ValidationError(String),
}

/// Main server configuration
#[derive(Debug, Clone)]
pub struct Config {
    pub server: ServerConfig,
    pub tls: TlsConfig,
    pub security: SecurityConfig,
    pub storage: StorageConfig,
    pub webhook: WebhookConfig,
    pub api: ApiConfig,
}

#[derive(Debug, Clone)]
pub struct ServerConfig {
    pub bind_address: String,
    pub max_connections: usize,
}

/// Default for `server.max_connections`.
pub fn default_max_connections() -> (r: usize)
    ensures
        r == 100,
{
    100
}

#[derive(Debug, Clone)]
pub struct TlsConfig {
    pub cert_path: String,
    pub key_path: String,
}

#[derive(Debug, Clone)]
pub struct SecurityConfig {
    pub command_timeout_secs: u64,
    pub idle_timeout_secs: u64,
    pub max_command_length: usize,
    pub rate_limit_per_second: u32,
    pub max_auth_attempts: u32,
}

/// Default for `security.command_timeout_secs`.
pub fn default_command_timeout() -> (r: u64)
    ensures
        r == 30,
{
    30
}

/// Default for `security.idle_timeout_secs`.
pub fn default_idle_timeout() -> (r: u64)
    ensures
        r == 300,
{
    300
}

/// Default for `security.max_command_length`.
pub fn default_max_command_length() -> (r: usize)
    ensures
        r == 1000,
{
    1000
}

/// Default for `security.rate_limit_per_second`.
pub fn default_rate_limit() -> (r: u32)
    ensures
        r == 10,
{
    10
}

/// Default for `security.max_auth_attempts`.
pub fn default_max_auth_attempts() -> (r: u32)
    ensures
        r == 5,
{
    5
}

#[derive(Debug, Clone)]
pub struct StorageConfig {
    pub default_type: String,
    pub maildir_base: String,
    pub s3: S3Config,
}

/// Default for `storage.default_type`.
pub fn default_storage_type() -> (r: String)
    ensures
        r@ == "maildir"@,
{
    "maildir".to_owned()
}

#[derive(Debug, Clone)]
pub struct S3Config {
    pub region: String,
    pub endpoint: String,
}

/// Default for `storage.s3.region` when the `[storage.s3]` table is given.
pub fn default_region() -> (r: String)
    ensures
        r@ == "us-east-1"@,
{
    "us-east-1".to_owned()
}

impl Default for S3Config {
    /// Empty region and endpoint (the values a missing `[storage.s3]` table gives).
    fn default() -> (c: Self)
        ensures
            c.region@ == Seq::<char>::empty(),
            c.endpoint@ == Seq::<char>::empty(),
    {
        S3Config { region: String::new(), endpoint: String::new() }
    }
}

#[derive(Debug, Clone)]
pub struct WebhookConfig {
    pub timeout_secs: u64,
    pub retry_count: u32,
}

/// Default for `webhook.timeout_secs`.
pub fn default_webhook_timeout() -> (r: u64)
    ensures
        r == 10,
{
    10
}

/// Default for `webhook.retry_count`.
pub fn default_retry_count() -> (r: u32)
    ensures
        r == 3,
{
    3
}

#[derive(Debug, Clone)]
pub struct ApiConfig {
    pub enabled: bool,
    pub bind_address: String,
    pub api_key: String,
}

/// Default for `api.bind_address`.
pub fn default_api_bind() -> (r: String)
    ensures
        r@ == "127.0.0.1:8080"@,
{
    "127.0.0.1:8080".to_owned()
}

/// The first rule that `c` breaks, with its message: at least one connection
/// must be allowed, and the rate limit must be positive.
pub open spec fn validation_failure(max_connections: usize, rate_limit_per_second: u32) -> Option<
    Seq<char>,
> {
    if max_connections == 0 {
        Some("max_connections must be greater than 0"@)
    } else if rate_limit_per_second == 0 {
        Some("rate_limit_per_second must be greater than 0"@)
    } else {
        None
    }
}

/// The values `Config::default` holds.
pub open spec fn is_default_config(c: Config) -> bool {
    &&& c.server.bind_address@ == "0.0.0.0:995"@
    &&& c.server.max_connections == 100
    &&& c.tls.cert_path@ == "certs/server.crt"@
    &&& c.tls.key_path@ == "certs/server.key"@
    &&& c.security.command_timeout_secs == 30
    &&& c.security.idle_timeout_secs == 300
    &&& c.security.max_command_length == 1000
    &&& c.security.rate_limit_per_second == 10
    &&& c.security.max_auth_attempts == 5
    &&& c.storage.default_type@ == "maildir"@
    &&& c.storage.maildir_base@ == "/var/mail"@
    &&& c.storage.s3.region@ == Seq::<char>::empty()
    &&& c.storage.s3.endpoint@ == Seq::<char>::empty()
    &&& c.webhook.timeout_secs == 10
    &&& c.webhook.retry_count == 3
    &&& c.api.enabled
    &&& c.api.bind_address@ == "127.0.0.1:8080"@
    &&& c.api.api_key@ == Seq::<char>::empty()
}

impl Config {
    /// Validate configuration values
    pub fn validate(&self) -> (r: Result<(), ConfigError>)
        ensures
            match validation_failure(
                self.server.max_connections,
                self.security.rate_limit_per_second,
            ) {
                None => r is Ok,
                Some(m) => r matches Err(ConfigError::ValidationError(e)) && e@ == m,
            },
    {
        if self.server.max_connections == 0 {
            return Err(
                ConfigError::ValidationError("max_connections must be greater than 0".to_owned()),
            );
        }
        if self.security.rate_limit_per_second == 0 {
            return Err(
                ConfigError::ValidationError(
                    "rate_limit_per_second must be greater than 0".to_owned(),
                ),
            );
        }
        Ok(())
    }
}

impl Default for Config {
    fn default() -> (c: Self)
        ensures
            is_default_config(c),
    {
        Self {
            server: ServerConfig { bind_address: "0.0.0.0:995".to_owned(), max_connections: 100 },
            tls: TlsConfig {
                cert_path: "certs/server.crt".to_owned(),
                key_path: "certs/server.key".to_owned(),
            },
            security: SecurityConfig {
                command_timeout_secs: 30,
                idle_timeout_secs: 300,
                max_command_length: 1000,
                rate_limit_per_second: 10,
                max_auth_attempts: 5,
            },
            storage: StorageConfig {
                default_type: "maildir".to_owned(),
                maildir_base: "/var/mail".to_owned(),
                s3: S3Config::default(),
            },
            webhook: WebhookConfig { timeout_secs: 10, retry_count: 3 },
            api: ApiConfig {
                enabled: true,
                bind_address: "127.0.0.1:8080".to_owned(),
                api_key: String::new(),
            },
        }
    }
}

/// The default configuration passes validation.
pub proof fn lemma_default_config_valid(c: Config)
    requires
        is_default_config(c),
    ensures
        validation_failure(c.server.max_connections, c.security.rate_limit_per_second) is None,
{
}

} // verus!
