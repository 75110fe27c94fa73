//! One remote tunnel endpoint: public key, allowed IP ranges in order, and
//! an optional network endpoint. Rendered as one `[Peer]` block.
use vstd::prelude::*;
use vstd::string::StringExecFns;
use crate::text::join_seqs;
use crate::text::lemma_join_push;
use crate::text::lemma_lines_text3;
use crate::text::lemma_lines_text4;
use crate::text::lines_text;

verus! {

/// Specification-level image of a `Peer`.
pub struct PeerView {
    pub public_key: Seq<char>,
    pub allowed_ips: Seq<Seq<char>>,
    pub endpoint: Option<Seq<char>>,
}

#[derive(Debug, Clone)]
pub struct Peer {
    pub public_key: String,
    pub allowed_ips: Vec<String>,
    pub endpoint: Option<String>,
}

impl View for Peer {
    type V = PeerView;

    open spec fn view(&self) -> PeerView {
        PeerView {
            public_key: self.public_key@,
            allowed_ips: self.allowed_ips@.map_values(|s: String| s@),
            endpoint: match self.endpoint {
                Option::Some(e) => Option::Some(e@),
                Option::None => Option::None,
            },
        }
    }
}

/// The lines of the rendered `[Peer]` block: the header, the public key,
/// the comma-joined allowed IPs, and an `Endpoint` line only when present.
pub open spec fn peer_lines(p: PeerView) -> Seq<Seq<char>> {
    let base = seq![
        "[Peer]"@,
        "PublicKey = "@ + p.public_key,
        "AllowedIPs = "@ + join_seqs(p.allowed_ips, seq![',']),
    ];
    match p.endpoint {
        Option::Some(e) => base + seq!["Endpoint = "@ + e],
        Option::None => base,
    }
}

/// The allowed IPs joined by single commas, in list order.
pub fn join_commas(parts: &Vec<String>) -> (r: String)
    ensures
        r@ == join_seqs(parts@.map_values(|s: String| s@), seq![',']),
{
    let ghost views = parts@.map_values(|s: String| s@);
    let mut out = String::new();
    let mut i: usize = 0;
    while i < parts.len()
        invariant
            i <= parts@.len(),
            views == parts@.map_values(|s: String| s@),
            out@ == join_seqs(views.subrange(0, i as int), seq![',']),
        decreases parts.len() - i,
    {
        if i > 0 {
            out.append(",");
        }
        out.append(parts[i].as_str());
        proof {
            reveal_strlit(",");
            assert(","@ =~= seq![',']);
            lemma_join_push(views.subrange(0, i as int), seq![','], views[i as int]);
            assert(views.subrange(0, i + 1) =~= views.subrange(0, i as int).push(views[i as int]));
        }
        i = i + 1;
    }
    proof {
        assert(views.subrange(0, views.len() as int) =~= views);
    }
    out
}

impl Peer {
    /// The textual `[Peer]` block, one key per line, each line ending in a
    /// newline; `Endpoint` is omitted when absent.
    pub fn render(&self) -> (r: String)
        ensures
            r@ == lines_text(peer_lines(self@)),
    {
        let mut out = String::new();
        out.append("[Peer]");
        out.append("\n");
        out.append("PublicKey = ");
        out.append(self.public_key.as_str());
        out.append("\n");
        out.append("AllowedIPs = ");
        let joined = join_commas(&self.allowed_ips);
        out.append(joined.as_str());
        out.append("\n");
        match &self.endpoint {
            Option::Some(e) => {
                out.append("Endpoint = ");
                out.append(e.as_str());
                out.append("\n");
            },
            Option::None => {},
        }
        proof {
            reveal_strlit("\n");
            assert("\n"@ =~= seq!['\n']);
            let l = peer_lines(self@);
            match self@.endpoint {
                Option::None => {
                    let a = "[Peer]"@;
                    let b = "PublicKey = "@ + self@.public_key;
                    let c = "AllowedIPs = "@ + join_seqs(self@.allowed_ips, seq![',']);
                    assert(l =~= seq![a, b, c]);
                    lemma_lines_text3(a, b, c);
                    assert(out@ =~= lines_text(l));
                },
                Option::Some(e) => {
                    let a = "[Peer]"@;
                    let b = "PublicKey = "@ + self@.public_key;
                    let c = "AllowedIPs = "@ + join_seqs(self@.allowed_ips, seq![',']);
                    let d = "Endpoint = "@ + e;
                    assert(l =~= seq![a, b, c, d]);
                    lemma_lines_text4(a, b, c, d);
                    assert(out@ =~= lines_text(l));
                },
            }
        }
        out
    }
}

} // verus!
