//! A managed device and its presence validation.
use vstd::prelude::*;
use vstd::string::StringExecFns;
use crate::errors::NotSetError;
use crate::traits::Validatable;

verus! {

/// The one-line human-readable form of a device.
pub open spec fn device_summary(d: &Device) -> Seq<char> {
    "uuid: "@ + d.uuid@ + ", fleet: "@ + d.fleet_uuid@ + ", api_url: "@ + d.api_url@
}

#[derive(Debug, Clone)]
pub struct Device {
    pub created_at: u64,
    pub uuid: String,
    pub wireguard_uuid: String,
    pub fleet_uuid: String,
    pub api_url: String,
    pub file: String,
}

impl Device {
    /// Short human-readable description: uuid, fleet and API target.
    pub fn summary(&self) -> (r: String)
        ensures
            r@ == device_summary(self),
    {
        let mut out = String::new();
        out.append("uuid: ");
        out.append(self.uuid.as_str());
        out.append(", fleet: ");
        out.append(self.fleet_uuid.as_str());
        out.append(", api_url: ");
        out.append(self.api_url.as_str());
        proof {
            assert(out@ =~= device_summary(self));
        }
        out
    }
}

impl Validatable for Device {
    /// Check order: created_at, uuid, fleet_uuid, api_url, file; the first
    /// missing field's tag is reported. `wireguard_uuid` is a
    /// cross-reference, not a required field.
    open spec fn validation(&self) -> Option<NotSetError> {
        if self.created_at == 0 {
            Option::Some(NotSetError::CreatedAt)
        } else if self.uuid@.len() == 0 {
            Option::Some(NotSetError::Uuid)
        } else if self.fleet_uuid@.len() == 0 {
            Option::Some(NotSetError::Fleet)
        } else if self.api_url@.len() == 0 {
            Option::Some(NotSetError::ApiUrl)
        } else if self.file@.len() == 0 {
            Option::Some(NotSetError::File)
        } else {
            Option::None
        }
    }

    fn validate(&self) -> (r: Result<&Self, NotSetError>) {
        if self.created_at == 0 {
            return Result::Err(NotSetError::CreatedAt);
        }
        if self.uuid.as_str().is_empty() {
            return Result::Err(NotSetError::Uuid);
        }
        if self.fleet_uuid.as_str().is_empty() {
            return Result::Err(NotSetError::Fleet);
        }
        if self.api_url.as_str().is_empty() {
            return Result::Err(NotSetError::ApiUrl);
        }
        if self.file.as_str().is_empty() {
            return Result::Err(NotSetError::File);
        }
        Result::Ok(self)
    }
}

} // verus!
