//! Typed configuration entities for a small VPN fleet: the entity model, the
//! per-entity validation contract, and the codec between the tunnel model and
//! its INI-style textual form.
pub mod errors;
pub mod ini;
pub mod laws;
pub mod text;
pub mod traits;
pub mod types;
