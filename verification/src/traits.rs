//! The lifecycle ports and the validation contract, expressed as traits.
//!
//! Remote sync and the snapshot store are external collaborators: their
//! methods are declared here so that callers share one contract shape, and
//! they are implemented outside the verified library, next to the I/O they
//! perform. Validation and parsing are this library's own logic and are
//! implemented here, with their behaviour pinned by `ensures` clauses.
use vstd::prelude::*;
use crate::errors::IniError;
use crate::errors::NotSetError;
use crate::errors::StoreError;
use crate::errors::SyncError;

verus! {

/// Replace-by-fetch against a remote service: the entity is sent to its own
/// configured target and the whole local value is replaced by the response.
/// Implementations live with the network code, outside this library.
pub trait Fetchable: Sized {
    fn fetch(&self) -> Result<Self, SyncError>;
}

/// Structured snapshot load/save keyed by a path the entity carries.
/// Implementations live with the storage code, outside this library.
pub trait Storeable: Sized {
    fn load(file_path: &str) -> Result<Self, StoreError>;

    fn save(&self) -> Result<(), StoreError>;
}

/// A read-only presence check over the entity's required fields, reporting
/// the first missing one in field order.
pub trait Validatable: Sized {
    /// The first unmet requirement in check order, if any.
    spec fn validation(&self) -> Option<NotSetError>;

    fn validate(&self) -> (r: Result<&Self, NotSetError>)
        ensures
            match self.validation() {
                Option::None => r == Result::<&Self, NotSetError>::Ok(self),
                Option::Some(e) => r == Result::<&Self, NotSetError>::Err(e),
            },
    ;
}

/// Construction of a fresh entity from configuration text, using the
/// receiver as the template for every field the text does not carry.
pub trait Parsable: Sized + View {
    /// What parsing this text against `self` as the template yields, or
    /// `None` when the document is malformed.
    spec fn parse_result(&self, text: Seq<char>) -> Option<Self::V>;

    fn parse(&self, text: &str) -> (r: Result<Self, IniError>)
        ensures
            match self.parse_result(text@) {
                Option::Some(v) => r is Ok && r->Ok_0@ == v,
                Option::None => r is Err && r->Err_0 == IniError::Malformed,
            },
    ;
}

} // verus!
