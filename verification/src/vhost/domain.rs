//! Domain configuration values.

use vstd::prelude::*;

verus! {

/// Why a domain file could not be used.
#[derive(Debug)]
pub enum DomainError {
    ReadError(std::io::Error),
    ParseError(toml::de::Error),
}

/// Domain configuration
#[derive(Debug)]
pub struct DomainConfig {
    pub domain: DomainInfo,
    pub tls: DomainTlsConfig,
}

#[derive(Debug)]
pub struct DomainInfo {
    pub name: String,
    pub enabled: bool,
    pub default_storage: String,
    pub maildir_base: String,
}

#[derive(Debug)]
pub struct DomainTlsConfig {
    pub cert_path: String,
    pub key_path: String,
}

/// The mathematical value of a [`DomainConfig`].
pub struct DomainConfigView {
    pub name: Seq<char>,
    pub enabled: bool,
    pub default_storage: Seq<char>,
    pub maildir_base: Seq<char>,
    pub cert_path: Seq<char>,
    pub key_path: Seq<char>,
}

impl View for DomainConfig {
    type V = DomainConfigView;

    open spec fn view(&self) -> DomainConfigView {
        DomainConfigView {
            name: self.domain.name@,
            enabled: self.domain.enabled,
            default_storage: self.domain.default_storage@,
            maildir_base: self.domain.maildir_base@,
            cert_path: self.tls.cert_path@,
            key_path: self.tls.key_path@,
        }
    }
}

impl Clone for DomainTlsConfig {
    fn clone(&self) -> (r: Self)
        ensures
            r.cert_path@ == self.cert_path@,
            r.key_path@ == self.key_path@,
    {
        DomainTlsConfig { cert_path: self.cert_path.clone(), key_path: self.key_path.clone() }
    }
}

impl Default for DomainTlsConfig {
    /// No certificate and no key.
    fn default() -> (c: Self)
        ensures
            c.cert_path@ == Seq::<char>::empty(),
            c.key_path@ == Seq::<char>::empty(),
    {
        DomainTlsConfig { cert_path: String::new(), key_path: String::new() }
    }
}

impl Clone for DomainInfo {
    fn clone(&self) -> (r: Self)
        ensures
            r.name@ == self.name@,
            r.enabled == self.enabled,
            r.default_storage@ == self.default_storage@,
            r.maildir_base@ == self.maildir_base@,
    {
        DomainInfo {
            name: self.name.clone(),
            enabled: self.enabled,
            default_storage: self.default_storage.clone(),
            maildir_base: self.maildir_base.clone(),
        }
    }
}

impl Clone for DomainConfig {
    fn clone(&self) -> (r: Self)
        ensures
            r@ == self@,
    {
        DomainConfig { domain: self.domain.clone(), tls: self.tls.clone() }
    }
}

/// The views of a sequence of domain configurations.
pub open spec fn domain_views(v: Seq<DomainConfig>) -> Seq<DomainConfigView> {
    v.map_values(|d: DomainConfig| d@)
}

/// The view of an optional domain configuration.
pub open spec fn opt_domain_view(d: Option<DomainConfig>) -> Option<DomainConfigView> {
    match d {
        Some(d) => Some(d@),
        None => None,
    }
}

} // verus!
