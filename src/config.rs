//! The settings record a burrow is configured with.
use vstd::prelude::*;

verus! {

/// Identity and storage settings.
#[derive(Debug, Clone)]
pub struct IdentitySection {
    /// A human-friendly name for the burrow.
    pub name: String,
    /// Directory for persistent state: trust cache and event logs.
    pub storage: String,
    /// Directory for certificates and keys.
    pub certs: String,
}

/// Network settings.
#[derive(Debug, Clone)]
pub struct NetworkSection {
    /// The TCP port to listen on.
    pub port: u16,
    /// Peers to connect to on startup, as `host:port`.
    pub peers: Vec<String>,
}

/// Federation settings.
#[derive(Debug, Clone)]
pub struct FederationSection {
    /// Ids of the anchors the burrow trusts.
    pub anchors: Vec<String>,
}

/// A burrow's settings.
#[derive(Debug, Clone)]
pub struct Config {
    pub identity: IdentitySection,
    pub network: NetworkSection,
    pub federation: Option<FederationSection>,
}

} // verus!
