//! Configuration of an OCI registry.

use vstd::prelude::*;

verus! {

/// The protocol by which a registry is reached.
#[derive(Clone, Copy, Debug, PartialEq, Eq, Structural)]
pub enum OciProtocol {
    Http,
    Https,
}

/// A user name and a password.
pub struct BasicCredentials {
    pub username: String,
    pub password: String,
}

} // verus!
