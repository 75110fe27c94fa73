//! The entity model: pure data carriers for devices, fleets, key pairs and
//! VPN tunnel configurations.
pub mod device;
pub mod fleet;
pub mod interface;
pub mod keypair;
pub mod peer;
pub mod wireguard;

pub use device::Device;
pub use fleet::Fleet;
pub use interface::Interface;
pub use keypair::KeyPair;
pub use peer::Peer;
pub use wireguard::WireGuard;
