//! Outside types that the library's error types carry.

use vstd::prelude::*;

verus! {

/// `std::io::Error`, carried by the I/O variants of the error types.
#[verifier::external_type_specification]
#[verifier::external_body]
pub struct ExIoError(std::io::Error);

/// `toml::de::Error`, carried by the parse variants of the error types.
#[verifier::external_type_specification]
#[verifier::external_body]
pub struct ExTomlDeError(toml::de::Error);

} // verus!
