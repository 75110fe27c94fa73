//! Error types of the library: the validation tags, the codec's format
//! error, and the opaque lifecycle-port failures.
use vstd::prelude::*;

verus! {

/// One tag per required field that a validator can find missing; `validate`
/// reports the first unmet requirement in field order.
#[derive(Clone, Copy, Debug, PartialEq, Eq, Structural)]
pub enum NotSetError {
    CreatedAt,
    Uuid,
    Fleet,
    PrivateKey,
    Address,
    Peers,
    ApiUrl,
    File,
    WireguardFile,
}

/// The codec's document-format error: the text could not be tokenized as an
/// INI-style document (malformed section or key syntax).
#[derive(Clone, Copy, Debug, PartialEq, Eq, Structural)]
pub enum IniError {
    Malformed,
}

/// Opaque failure of the snapshot store: an I/O fault or a document that did
/// not deserialize.
#[derive(Clone, Copy, Debug, PartialEq, Eq, Structural)]
pub enum StoreError {
    Io,
    Format,
}

/// Opaque failure of the remote sync exchange.
#[derive(Clone, Copy, Debug, PartialEq, Eq, Structural)]
pub enum SyncError {
    Remote,
}

} // verus!
