//! A standalone private/public key pair: a pure data carrier for
//! key-generation collaborators outside this library.
use vstd::prelude::*;

verus! {

#[derive(Debug, Clone)]
pub struct KeyPair {
    pub private_key: String,
    pub public_key: String,
}

} // verus!
