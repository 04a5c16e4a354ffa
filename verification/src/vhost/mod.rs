//! Virtual hosts: the domains the server answers for.

pub mod domain;
pub mod router;

pub use domain::DomainConfig;
pub use router::VirtualHostRouter;
