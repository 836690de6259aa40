use vstd::prelude::*;

verus! {

/// The default discovery port.
pub const DISCOVERY_PORT: u16 = 30150;

/// The default game port.
pub const GAME_PORT: u16 = 30105;

/// Network ports and discoverability of a server.
#[derive(Debug, Clone, PartialEq, Eq, Structural)]
pub struct NetworkingSettings {
    /// Game port (default: 30105).
    pub port: u16,
    /// Discovery port (default: 30150).
    pub discovery_port: u16,
    /// Whether the server answers discovery requests.
    pub can_be_discovered: bool,
}

impl NetworkingSettings {
    /// Settings with the given game port and discoverability, on the default discovery port.
    pub fn new(port: u16, can_be_discovered: bool) -> (r: Self)
        ensures
            r.port == port,
            r.discovery_port == DISCOVERY_PORT,
            r.can_be_discovered == can_be_discovered,
    {
        NetworkingSettings { port, discovery_port: DISCOVERY_PORT, can_be_discovered }
    }

    /// The defaults: the default ports, and discoverable exactly in debug builds.
    pub fn default_for_build(debug_build: bool) -> (r: Self)
        ensures
            r.port == GAME_PORT,
            r.discovery_port == DISCOVERY_PORT,
            r.can_be_discovered == debug_build,
    {
        NetworkingSettings { port: GAME_PORT, discovery_port: DISCOVERY_PORT, can_be_discovered: debug_build }
    }
}

} // verus!
