//! A fleet of devices: a pure record with no validation or codec logic,
//! plus a human-readable rendering that lists its id collections.
use vstd::prelude::*;
use vstd::string::StringExecFns;
use crate::text::dec_of;
use crate::text::join_seqs;
use crate::text::lemma_join_push;
use crate::text::string_from_chars;
use crate::text::u64_digits;

verus! {

#[derive(Debug, Clone)]
pub struct Fleet {
    pub container_registry: String,
    pub created_at: u64,
    pub description: String,
    pub image: String,
    pub name: String,
    pub platform: String,
    pub device_uuids: Vec<String>,
    pub user_uuids: Vec<String>,
    pub uuid: String,
    pub wireguard_uuids: Vec<String>,
}

/// The one-line human-readable form of a fleet, with each id list
/// comma-joined inside brackets.
pub open spec fn fleet_summary(f: &Fleet) -> Seq<char> {
    "name: "@ + f.name@ + ", platform: "@ + f.platform@ + ", image: "@ + f.image@
        + ", created_at: "@ + dec_of(f.created_at as int) + ", description: "@ + f.description@
        + ", container_registry: "@ + f.container_registry@ + ", uuid: "@ + f.uuid@
        + ", devices: ["@ + join_seqs(f.device_uuids@.map_values(|s: String| s@), ", "@)
        + "], users: ["@ + join_seqs(f.user_uuids@.map_values(|s: String| s@), ", "@)
        + "], wireguards: ["@ + join_seqs(f.wireguard_uuids@.map_values(|s: String| s@), ", "@)
        + "]"@
}

/// The given ids joined by a comma and a space, in list order.
fn join_ids(parts: &Vec<String>) -> (r: String)
    ensures
        r@ == join_seqs(parts@.map_values(|s: String| s@), ", "@),
{
    let ghost views = parts@.map_values(|s: String| s@);
    let mut out = String::new();
    let mut i: usize = 0;
    while i < parts.len()
        invariant
            i <= parts@.len(),
            views == parts@.map_values(|s: String| s@),
            out@ == join_seqs(views.subrange(0, i as int), ", "@),
        decreases parts.len() - i,
    {
        if i > 0 {
            out.append(", ");
        }
        out.append(parts[i].as_str());
        proof {
            lemma_join_push(views.subrange(0, i as int), ", "@, views[i as int]);
            assert(views.subrange(0, i + 1) =~= views.subrange(0, i as int).push(views[i as int]));
        }
        i = i + 1;
    }
    proof {
        assert(views.subrange(0, views.len() as int) =~= views);
    }
    out
}

impl Fleet {
    /// Short human-readable description of the fleet and its id lists.
    pub fn summary(&self) -> (r: String)
        ensures
            r@ == fleet_summary(self),
    {
        let mut out = String::new();
        out.append("name: ");
        out.append(self.name.as_str());
        out.append(", platform: ");
        out.append(self.platform.as_str());
        out.append(", image: ");
        out.append(self.image.as_str());
        out.append(", created_at: ");
        let digits = u64_digits(self.created_at);
        let ds = string_from_chars(&digits);
        out.append(ds.as_str());
        out.append(", description: ");
        out.append(self.description.as_str());
        out.append(", container_registry: ");
        out.append(self.container_registry.as_str());
        out.append(", uuid: ");
        out.append(self.uuid.as_str());
        out.append(", devices: [");
        let devs = join_ids(&self.device_uuids);
        out.append(devs.as_str());
        out.append("], users: [");
        let users = join_ids(&self.user_uuids);
        out.append(users.as_str());
        out.append("], wireguards: [");
        let wgs = join_ids(&self.wireguard_uuids);
        out.append(wgs.as_str());
        out.append("]");
        proof {
            assert(out@ =~= fleet_summary(self));
        }
        out
    }
}

} // verus!
