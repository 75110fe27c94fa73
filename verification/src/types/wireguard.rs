//! The VPN tunnel configuration entity and the codec between it and its
//! INI-style text form.
use vstd::prelude::*;
use crate::errors::IniError;
use crate::errors::NotSetError;
use crate::ini::parse_ini;
use crate::ini::section_views;
use crate::ini::tokenize;
use crate::ini::IniSection;
use crate::ini::SectionView;
use crate::text::chars_of;
use crate::text::lemma_lines_text_concat;
use crate::text::lines_text;
use crate::text::parse_port;
use crate::text::split_char;
use crate::text::starts_with;
use crate::text::str_eq;
use crate::text::str_starts_with;
use crate::text::string_from_chars;
use crate::traits::Parsable;
use crate::traits::Validatable;
use crate::types::interface::iface_lines;
use crate::types::interface::Interface;
use crate::types::interface::InterfaceView;
use crate::types::peer::peer_lines;
use crate::types::peer::Peer;
use crate::types::peer::PeerView;
use vstd::string::StringExecFns;

verus! {

/// Specification-level image of a `WireGuard` tunnel configuration.
pub struct WireGuardView {
    pub created_at: u64,
    pub uuid: Seq<char>,
    pub device_uuid: Seq<char>,
    pub interface: InterfaceView,
    pub peers: Seq<PeerView>,
    pub api_url: Seq<char>,
    pub file: Seq<char>,
    pub wireguard_file: Seq<char>,
}

#[derive(Debug, Clone)]
pub struct WireGuard {
    pub created_at: u64,
    pub uuid: String,
    pub device_uuid: String,
    pub interface: Interface,
    pub peers: Vec<Peer>,
    pub api_url: String,
    pub file: String,
    pub wireguard_file: String,
}

impl View for WireGuard {
    type V = WireGuardView;

    open spec fn view(&self) -> WireGuardView {
        WireGuardView {
            created_at: self.created_at,
            uuid: self.uuid@,
            device_uuid: self.device_uuid@,
            interface: self.interface@,
            peers: self.peers@.map_values(|p: Peer| p@),
            api_url: self.api_url@,
            file: self.file@,
            wireguard_file: self.wireguard_file@,
        }
    }
}

/// The interface record before any key has been seen.
pub open spec fn empty_iface() -> InterfaceView {
    InterfaceView { private_key: Seq::empty(), address: Seq::empty(), listen_port: Option::None }
}

/// Effect of one `[Interface]` property; unrecognized keys are ignored.
pub open spec fn apply_iface_prop(i: InterfaceView, k: Seq<char>, v: Seq<char>) -> InterfaceView {
    if k == "PrivateKey"@ {
        InterfaceView { private_key: v, ..i }
    } else if k == "Address"@ {
        InterfaceView { address: v, ..i }
    } else if k == "ListenPort"@ {
        InterfaceView { listen_port: crate::text::parse_u16_spec(v), ..i }
    } else {
        i
    }
}

/// Effect of a whole `[Interface]` property list, first to last, so a later
/// write to the same key wins.
pub open spec fn apply_iface_props(i: InterfaceView, props: Seq<(Seq<char>, Seq<char>)>) -> InterfaceView
    decreases props.len(),
{
    if props.len() == 0 {
        i
    } else {
        apply_iface_prop(
            apply_iface_props(i, props.drop_last()),
            props.last().0,
            props.last().1,
        )
    }
}

/// A peer record before any key has been seen.
pub open spec fn empty_peer() -> PeerView {
    PeerView { public_key: Seq::empty(), allowed_ips: Seq::empty(), endpoint: Option::None }
}

/// Effect of one `[Peer]` property; `AllowedIPs` is comma-split with no
/// whitespace trimming inside the list; unrecognized keys are ignored.
pub open spec fn apply_peer_prop(p: PeerView, k: Seq<char>, v: Seq<char>) -> PeerView {
    if k == "PublicKey"@ {
        PeerView { public_key: v, ..p }
    } else if k == "AllowedIPs"@ {
        PeerView { allowed_ips: split_char(v, ','), ..p }
    } else if k == "Endpoint"@ {
        PeerView { endpoint: Option::Some(v), ..p }
    } else {
        p
    }
}

pub open spec fn apply_peer_props(p: PeerView, props: Seq<(Seq<char>, Seq<char>)>) -> PeerView
    decreases props.len(),
{
    if props.len() == 0 {
        p
    } else {
        apply_peer_prop(apply_peer_props(p, props.drop_last()), props.last().0, props.last().1)
    }
}

/// The meaning of a section list: sections whose name starts with
/// `Interface` all write into the one interface record; each section whose
/// name starts with `Peer` appends one fresh peer; others are ignored.
pub open spec fn interp_sections(secs: Seq<SectionView>) -> (InterfaceView, Seq<PeerView>)
    decreases secs.len(),
{
    if secs.len() == 0 {
        (empty_iface(), Seq::empty())
    } else {
        let prev = interp_sections(secs.drop_last());
        let s = secs.last();
        if starts_with(s.name, "Interface"@) {
            (apply_iface_props(prev.0, s.props), prev.1)
        } else if starts_with(s.name, "Peer"@) {
            (prev.0, prev.1.push(apply_peer_props(empty_peer(), s.props)))
        } else {
            prev
        }
    }
}

/// What parsing a document against a template yields: every field of the
/// template except interface and peers, which come from the document alone;
/// `None` exactly when the document is malformed.
pub open spec fn parse_spec(text: Seq<char>, t: WireGuardView) -> Option<WireGuardView> {
    match tokenize(text) {
        Option::None => Option::None,
        Option::Some(secs) => {
            let r = interp_sections(secs);
            Option::Some(WireGuardView { interface: r.0, peers: r.1, ..t })
        },
    }
}

/// The rendered lines of the peer list: a blank separating line before each
/// `[Peer]` block, in list order.
pub open spec fn peers_lines(ps: Seq<PeerView>) -> Seq<Seq<char>>
    decreases ps.len(),
{
    if ps.len() == 0 {
        Seq::empty()
    } else {
        peers_lines(ps.drop_last()) + seq![Seq::<char>::empty()] + peer_lines(ps.last())
    }
}

pub open spec fn tunnel_lines(w: WireGuardView) -> Seq<Seq<char>> {
    iface_lines(w.interface) + peers_lines(w.peers)
}

/// The full rendered text of a tunnel configuration.
pub open spec fn render_text_spec(w: WireGuardView) -> Seq<char> {
    lines_text(tunnel_lines(w))
}

fn apply_iface_section(iface: &mut Interface, sec: &IniSection)
    ensures
        final(iface)@ == apply_iface_props(old(iface)@, sec@.props),
{
    let ghost props = sec@.props;
    let mut j: usize = 0;
    while j < sec.props.len()
        invariant
            j <= sec.props@.len(),
            props == sec@.props,
            props.len() == sec.props@.len(),
            iface@ == apply_iface_props(old(iface)@, props.subrange(0, j as int)),
        decreases sec.props.len() - j,
    {
        proof {
            assert(props.subrange(0, j + 1).drop_last() =~= props.subrange(0, j as int));
            assert(props.subrange(0, j + 1).last() == props[j as int]);
            assert(props[j as int] == (sec.props@[j as int].key@, sec.props@[j as int].value@));
        }
        let p = &sec.props[j];
        if str_eq(p.key.as_str(), "PrivateKey") {
            iface.private_key = p.value.clone();
        } else if str_eq(p.key.as_str(), "Address") {
            iface.address = p.value.clone();
        } else if str_eq(p.key.as_str(), "ListenPort") {
            let cs = chars_of(p.value.as_str());
            iface.listen_port = parse_port(&cs);
        }
        j = j + 1;
    }
    proof {
        assert(props.subrange(0, props.len() as int) =~= props);
    }
}

fn split_commas(value: &str) -> (r: Vec<String>)
    ensures
        r@.map_values(|s: String| s@) == split_char(value@, ','),
{
    let cs = chars_of(value);
    let parts = crate::text::split_chars(&cs, ',');
    let mut r: Vec<String> = Vec::new();
    let mut j: usize = 0;
    while j < parts.len()
        invariant
            j <= parts@.len(),
            crate::text::views_of(parts@) == split_char(value@, ','),
            r@.map_values(|s: String| s@) == crate::text::views_of(parts@).subrange(0, j as int),
        decreases parts.len() - j,
    {
        let s = string_from_chars(&parts[j]);
        let ghost before = r@.map_values(|q: String| q@);
        let ghost sv = s@;
        r.push(s);
        proof {
            assert(r@.map_values(|q: String| q@) =~= before.push(sv));
            assert(before.push(sv) =~= crate::text::views_of(parts@).subrange(0, j + 1));
            assert(r@.map_values(|s: String| s@) == r@.map_values(|q: String| q@));
        }
        j = j + 1;
    }
    proof {
        let vs = crate::text::views_of(parts@);
        assert(vs.subrange(0, vs.len() as int) =~= vs);
    }
    r
}

fn build_peer(sec: &IniSection) -> (p: Peer)
    ensures
        p@ == apply_peer_props(empty_peer(), sec@.props),
{
    let ghost props = sec@.props;
    let mut peer = Peer {
        public_key: String::new(),
        allowed_ips: Vec::new(),
        endpoint: Option::None,
    };
    proof {
        assert(peer@.allowed_ips =~= Seq::<Seq<char>>::empty());
        assert(peer@ == empty_peer());
        assert(props.subrange(0, 0) =~= Seq::<(Seq<char>, Seq<char>)>::empty());
    }
    let mut j: usize = 0;
    while j < sec.props.len()
        invariant
            j <= sec.props@.len(),
            props == sec@.props,
            props.len() == sec.props@.len(),
            peer@ == apply_peer_props(empty_peer(), props.subrange(0, j as int)),
        decreases sec.props.len() - j,
    {
        proof {
            assert(props.subrange(0, j + 1).drop_last() =~= props.subrange(0, j as int));
            assert(props.subrange(0, j + 1).last() == props[j as int]);
            assert(props[j as int] == (sec.props@[j as int].key@, sec.props@[j as int].value@));
        }
        let p = &sec.props[j];
        if str_eq(p.key.as_str(), "PublicKey") {
            peer.public_key = p.value.clone();
        } else if str_eq(p.key.as_str(), "AllowedIPs") {
            peer.allowed_ips = split_commas(p.value.as_str());
        } else if str_eq(p.key.as_str(), "Endpoint") {
            peer.endpoint = Option::Some(p.value.clone());
        }
        j = j + 1;
    }
    proof {
        assert(props.subrange(0, props.len() as int) =~= props);
    }
    peer
}

fn interp(secs: &Vec<IniSection>) -> (r: (Interface, Vec<Peer>))
    ensures
        r.0@ == interp_sections(section_views(secs@)).0,
        r.1@.map_values(|p: Peer| p@) == interp_sections(section_views(secs@)).1,
{
    let ghost sv = section_views(secs@);
    let mut iface = Interface {
        private_key: String::new(),
        address: String::new(),
        listen_port: Option::None,
    };
    let mut peers: Vec<Peer> = Vec::new();
    proof {
        assert(sv.subrange(0, 0) =~= Seq::<SectionView>::empty());
        assert(iface@ == empty_iface());
        assert(peers@.map_values(|p: Peer| p@) =~= Seq::<PeerView>::empty());
    }
    let mut i: usize = 0;
    while i < secs.len()
        invariant
            i <= secs@.len(),
            sv == section_views(secs@),
            sv.len() == secs@.len(),
            iface@ == interp_sections(sv.subrange(0, i as int)).0,
            peers@.map_values(|p: Peer| p@) == interp_sections(sv.subrange(0, i as int)).1,
        decreases secs.len() - i,
    {
        proof {
            assert(sv.subrange(0, i + 1).drop_last() =~= sv.subrange(0, i as int));
            assert(sv.subrange(0, i + 1).last() == sv[i as int]);
            assert(sv[i as int] == secs@[i as int]@);
        }
        let sec = &secs[i];
        if str_starts_with(sec.name.as_str(), "Interface") {
            apply_iface_section(&mut iface, sec);
        } else if str_starts_with(sec.name.as_str(), "Peer") {
            let p = build_peer(sec);
            let ghost before = peers@.map_values(|q: Peer| q@);
            peers.push(p);
            proof {
                assert(peers@.map_values(|q: Peer| q@) =~= before.push(p@));
            }
        }
        i = i + 1;
    }
    proof {
        assert(sv.subrange(0, sv.len() as int) =~= sv);
    }
    (iface, peers)
}

impl WireGuard {
    /// Read an INI-style document into a fresh tunnel configuration,
    /// carrying over from `self` every field except interface and peers.
    /// Fails exactly on text that the grammar calls malformed; missing and
    /// unrecognized keys degrade to defaults instead.
    pub fn parse_config(&self, text: &str) -> (r: Result<WireGuard, IniError>)
        ensures
            match r {
                Result::Ok(w) => parse_spec(text@, self@) == Option::Some(w@),
                Result::Err(e) => parse_spec(text@, self@) is None && e == IniError::Malformed,
            },
    {
        let secs = match parse_ini(text) {
            Result::Ok(s) => s,
            Result::Err(e) => {
                return Result::Err(e);
            },
        };
        let (iface, peers) = interp(&secs);
        let w = WireGuard {
            created_at: self.created_at,
            uuid: self.uuid.clone(),
            device_uuid: self.device_uuid.clone(),
            interface: iface,
            peers,
            api_url: self.api_url.clone(),
            file: self.file.clone(),
            wireguard_file: self.wireguard_file.clone(),
        };
        proof {
            assert(parse_spec(text@, self@) == Option::Some(w@));
        }
        Result::Ok(w)
    }

    /// The full configuration text: the `[Interface]` block, then each
    /// `[Peer]` block preceded by one blank line, in list order.
    pub fn render(&self) -> (r: String)
        ensures
            r@ == render_text_spec(self@),
    {
        let ghost pv = self@.peers;
        let mut out = self.interface.render();
        proof {
            assert(pv.subrange(0, 0) =~= Seq::<PeerView>::empty());
            assert(iface_lines(self@.interface) + peers_lines(pv.subrange(0, 0))
                =~= iface_lines(self@.interface));
        }
        let mut i: usize = 0;
        while i < self.peers.len()
            invariant
                i <= self.peers@.len(),
                pv == self@.peers,
                pv.len() == self.peers@.len(),
                out@ == lines_text(iface_lines(self@.interface) + peers_lines(
                    pv.subrange(0, i as int),
                )),
            decreases self.peers.len() - i,
        {
            out.append("\n");
            let ps = self.peers[i].render();
            out.append(ps.as_str());
            proof {
                reveal_strlit("\n");
                assert("\n"@ =~= seq!['\n']);
                assert(pv.subrange(0, i + 1).drop_last() =~= pv.subrange(0, i as int));
                assert(pv.subrange(0, i + 1).last() == pv[i as int]);
                assert(pv[i as int] == self.peers@[i as int]@);
                let head = iface_lines(self@.interface) + peers_lines(pv.subrange(0, i as int));
                let blank = seq![Seq::<char>::empty()];
                let tail = blank + peer_lines(pv[i as int]);
                lemma_lines_text_concat(head, tail);
                lemma_lines_text_concat(blank, peer_lines(pv[i as int]));
                assert(blank.drop_first() =~= Seq::<Seq<char>>::empty());
                assert(lines_text(Seq::<Seq<char>>::empty()) == Seq::<char>::empty());
                assert(lines_text(blank) == blank[0] + seq!['\n'] + lines_text(
                    blank.drop_first(),
                ));
                assert(lines_text(blank) =~= seq!['\n']);
                assert(head + tail =~= iface_lines(self@.interface) + peers_lines(
                    pv.subrange(0, i + 1),
                ));
                assert(out@ =~= lines_text(head + tail));
            }
            i = i + 1;
        }
        proof {
            assert(pv.subrange(0, pv.len() as int) =~= pv);
        }
        out
    }
}

/// Once a tunnel validates, its key codec fields are populated: the
/// private key, the address and the peer list are all non-empty.
pub proof fn lemma_validated_tunnel_populated(w: &WireGuard)
    requires
        w.validation() is None,
    ensures
        w.interface.private_key@.len() > 0,
        w.interface.address@.len() > 0,
        w.peers@.len() > 0,
{
}

impl Parsable for WireGuard {
    open spec fn parse_result(&self, text: Seq<char>) -> Option<WireGuardView> {
        parse_spec(text, self@)
    }

    fn parse(&self, text: &str) -> (r: Result<Self, IniError>) {
        self.parse_config(text)
    }
}

impl Validatable for WireGuard {
    /// Check order: created_at, interface.private_key, interface.address,
    /// peers, api_url, file, wireguard_file.
    open spec fn validation(&self) -> Option<NotSetError> {
        if self.created_at == 0 {
            Option::Some(NotSetError::CreatedAt)
        } else if self.interface.private_key@.len() == 0 {
            Option::Some(NotSetError::PrivateKey)
        } else if self.interface.address@.len() == 0 {
            Option::Some(NotSetError::Address)
        } else if self.peers@.len() == 0 {
            Option::Some(NotSetError::Peers)
        } else if self.api_url@.len() == 0 {
            Option::Some(NotSetError::ApiUrl)
        } else if self.file@.len() == 0 {
            Option::Some(NotSetError::File)
        } else if self.wireguard_file@.len() == 0 {
            Option::Some(NotSetError::WireguardFile)
        } else {
            Option::None
        }
    }

    fn validate(&self) -> (r: Result<&Self, NotSetError>) {
        if self.created_at == 0 {
            return Result::Err(NotSetError::CreatedAt);
        }
        if self.interface.private_key.as_str().is_empty() {
            return Result::Err(NotSetError::PrivateKey);
        }
        if self.interface.address.as_str().is_empty() {
            return Result::Err(NotSetError::Address);
        }
        if self.peers.len() == 0 {
            return Result::Err(NotSetError::Peers);
        }
        if self.api_url.as_str().is_empty() {
            return Result::Err(NotSetError::ApiUrl);
        }
        if self.file.as_str().is_empty() {
            return Result::Err(NotSetError::File);
        }
        if self.wireguard_file.as_str().is_empty() {
            return Result::Err(NotSetError::WireguardFile);
        }
        Result::Ok(self)
    }
}

} // verus!
