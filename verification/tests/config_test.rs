//! Configuration tests.

use pop_mail_server::config::{default_max_connections, default_region, ConfigError};
use pop_mail_server::Config;

#[test]
fn test_default_config() {
    let config = Config::default();
    assert_eq!(config.server.bind_address, "0.0.0.0:995");
    assert_eq!(config.server.max_connections, 100);
}

#[test]
fn default_config_is_valid() {
    assert!(Config::default().validate().is_ok());
    assert_eq!(default_max_connections(), 100);
    assert_eq!(default_region(), "us-east-1");
}

#[test]
fn validation_errors() {
    let mut config = Config::default();
    config.server.max_connections = 0;
    match config.validate() {
        Err(ConfigError::ValidationError(m)) => assert_eq!(m, "max_connections must be greater than 0"),
        other => panic!("unexpected {:?}", other),
    }
    let mut config = Config::default();
    config.security.rate_limit_per_second = 0;
    match config.validate() {
        Err(ConfigError::ValidationError(m)) => {
            assert_eq!(m, "rate_limit_per_second must be greater than 0")
        }
        other => panic!("unexpected {:?}", other),
    }
}
