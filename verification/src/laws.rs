//! The stated properties of the codec and the validator: what parsing
//! guarantees about its output, and that rendering a parsed configuration
//! and parsing it again changes nothing.
use vstd::prelude::*;
use crate::ini::classify_line;
use crate::ini::tokenize;
use crate::ini::tokenize_rest;
use crate::ini::LineTok;
use crate::ini::SectionView;
use crate::text::dec_of;
use crate::text::find_char;
use crate::text::is_ws;
use crate::text::join_seqs;
use crate::text::lemma_dec_of_round_trip;
use crate::text::lemma_find_char_at;
use crate::text::lemma_find_char_props;
use crate::text::lemma_join_split;
use crate::text::lemma_lines_text_split;
use crate::text::lemma_split_chunks_free;
use crate::text::lemma_split_chunks_no;
use crate::text::lemma_split_join;
use crate::text::lemma_trim_end_take;
use crate::text::lemma_trim_idempotent;
use crate::text::lemma_trim_no;
use crate::text::lemma_trim_noop;
use crate::text::lemma_trim_shape;
use crate::text::lemma_trim_start_skip;
use crate::text::split_char;
use crate::text::starts_with;
use crate::text::trim;
use crate::text::trim_end;
use crate::text::trim_start;
use crate::text::is_digit;
use crate::text::lemma_dec_of_digits;
use crate::types::interface::iface_lines;
use crate::types::interface::InterfaceView;
use crate::types::peer::peer_lines;
use crate::types::peer::PeerView;
use crate::types::wireguard::apply_iface_prop;
use crate::types::wireguard::apply_iface_props;
use crate::types::wireguard::apply_peer_prop;
use crate::types::wireguard::apply_peer_props;
use crate::types::wireguard::empty_iface;
use crate::types::wireguard::empty_peer;
use crate::types::wireguard::interp_sections;
use crate::types::wireguard::parse_spec;
use crate::types::wireguard::peers_lines;
use crate::types::wireguard::render_text_spec;
use crate::types::wireguard::tunnel_lines;
use crate::types::wireguard::WireGuardView;

verus! {

/// A string that can stand as the value of a rendered `key = value` line:
/// no surrounding whitespace and no newline.
pub open spec fn value_clean(s: Seq<char>) -> bool {
    trim(s) == s && !s.contains('\n')
}

pub open spec fn iface_wf(i: InterfaceView) -> bool {
    value_clean(i.private_key) && value_clean(i.address)
}

pub open spec fn peer_wf(p: PeerView) -> bool {
    &&& value_clean(p.public_key)
    &&& value_clean(join_seqs(p.allowed_ips, seq![',']))
    &&& (forall|j: int|
        0 <= j < p.allowed_ips.len() ==> !(#[trigger] p.allowed_ips[j]).contains(','))
    &&& match p.endpoint {
        Option::Some(e) => value_clean(e),
        Option::None => true,
    }
}

/// The shape every parsed configuration has: every field that the codec
/// fills could have come off a rendered line.
pub open spec fn parsed_wf(w: WireGuardView) -> bool {
    iface_wf(w.interface) && (forall|i: int| 0 <= i < w.peers.len() ==> peer_wf(#[trigger] w.peers[i]))
}

/// Each parsed peer carries at least one allowed IP range: the one shape a
/// rendered-then-reparsed document cannot distinguish from a missing
/// `AllowedIPs` key, so the round trip is stated under it.
pub open spec fn peers_have_ips(w: WireGuardView) -> bool {
    forall|i: int| 0 <= i < w.peers.len() ==> (#[trigger] w.peers[i]).allowed_ips.len() >= 1
}

/// The section a rendered `[Interface]` block denotes.
pub open spec fn iface_section(i: InterfaceView) -> SectionView {
    SectionView {
        name: "Interface"@,
        props: (match i.listen_port {
            Option::Some(p) => seq![
                ("PrivateKey"@, i.private_key),
                ("Address"@, i.address),
                ("ListenPort"@, dec_of(p as int)),
            ],
            Option::None => seq![("PrivateKey"@, i.private_key), ("Address"@, i.address)],
        }),
    }
}

/// The section a rendered `[Peer]` block denotes.
pub open spec fn peer_section(p: PeerView) -> SectionView {
    SectionView {
        name: "Peer"@,
        props: (match p.endpoint {
            Option::Some(e) => seq![
                ("PublicKey"@, p.public_key),
                ("AllowedIPs"@, join_seqs(p.allowed_ips, seq![','])),
                ("Endpoint"@, e),
            ],
            Option::None => seq![
                ("PublicKey"@, p.public_key),
                ("AllowedIPs"@, join_seqs(p.allowed_ips, seq![','])),
            ],
        }),
    }
}

/// The sections of a whole rendered configuration.
pub open spec fn rendered_sections(w: WireGuardView) -> Seq<SectionView> {
    seq![iface_section(w.interface)] + w.peers.map_values(|p: PeerView| peer_section(p))
}

/// Replaying the rendered interface properties rebuilds the interface.
proof fn lemma_apply_iface_rendered(i: InterfaceView)
    ensures
        apply_iface_props(empty_iface(), iface_section(i).props) == i,
{
    reveal_strlit("PrivateKey");
    reveal_strlit("Address");
    reveal_strlit("ListenPort");
    assert("Address"@ != "PrivateKey"@) by {
        assert("Address"@.len() == 7);
        assert("PrivateKey"@.len() == 10);
    }
    assert("ListenPort"@ != "PrivateKey"@) by {
        assert("ListenPort"@[0] != "PrivateKey"@[0]);
    }
    assert("ListenPort"@ != "Address"@) by {
        assert("ListenPort"@.len() == 10);
        assert("Address"@.len() == 7);
    }
    let props = iface_section(i).props;
    let p1 = ("PrivateKey"@, i.private_key);
    let p2 = ("Address"@, i.address);
    assert(seq![p1].drop_last() =~= Seq::<(Seq<char>, Seq<char>)>::empty());
    assert(seq![p1, p2].drop_last() =~= seq![p1]);
    assert(apply_iface_props(empty_iface(), Seq::empty()) == empty_iface());
    assert(apply_iface_props(empty_iface(), seq![p1]) == apply_iface_prop(
        empty_iface(),
        p1.0,
        p1.1,
    ));
    let i1 = apply_iface_prop(empty_iface(), p1.0, p1.1);
    assert(apply_iface_props(empty_iface(), seq![p1, p2]) == apply_iface_prop(i1, p2.0, p2.1));
    let i2 = apply_iface_prop(i1, p2.0, p2.1);
    match i.listen_port {
        Option::None => {
            assert(props == seq![p1, p2]);
            assert(i2 == i);
        },
        Option::Some(p) => {
            lemma_dec_of_round_trip(p);
            let p3 = ("ListenPort"@, dec_of(p as int));
            assert(props == seq![p1, p2, p3]);
            assert(seq![p1, p2, p3].drop_last() =~= seq![p1, p2]);
            assert(apply_iface_props(empty_iface(), seq![p1, p2, p3]) == apply_iface_prop(
                i2,
                p3.0,
                p3.1,
            ));
            assert(apply_iface_prop(i2, p3.0, p3.1) == i);
        },
    }
}

/// Replaying the rendered peer properties rebuilds the peer.
proof fn lemma_apply_peer_rendered(p: PeerView)
    requires
        p.allowed_ips.len() >= 1,
        forall|j: int| 0 <= j < p.allowed_ips.len() ==> !(#[trigger] p.allowed_ips[j]).contains(','),
    ensures
        apply_peer_props(empty_peer(), peer_section(p).props) == p,
{
    reveal_strlit("PublicKey");
    reveal_strlit("AllowedIPs");
    reveal_strlit("Endpoint");
    assert("AllowedIPs"@ != "PublicKey"@) by {
        assert("AllowedIPs"@.len() == 10);
        assert("PublicKey"@.len() == 9);
    }
    assert("Endpoint"@ != "PublicKey"@) by {
        assert("Endpoint"@.len() == 8);
        assert("PublicKey"@.len() == 9);
    }
    assert("Endpoint"@ != "AllowedIPs"@) by {
        assert("Endpoint"@.len() == 8);
        assert("AllowedIPs"@.len() == 10);
    }
    lemma_split_join(p.allowed_ips, ',');
    let props = peer_section(p).props;
    let ipv = join_seqs(p.allowed_ips, seq![',']);
    let p1 = ("PublicKey"@, p.public_key);
    let p2 = ("AllowedIPs"@, ipv);
    assert(seq![p1].drop_last() =~= Seq::<(Seq<char>, Seq<char>)>::empty());
    assert(seq![p1, p2].drop_last() =~= seq![p1]);
    assert(apply_peer_props(empty_peer(), Seq::empty()) == empty_peer());
    assert(apply_peer_props(empty_peer(), seq![p1]) == apply_peer_prop(empty_peer(), p1.0, p1.1));
    let q1 = apply_peer_prop(empty_peer(), p1.0, p1.1);
    assert(apply_peer_props(empty_peer(), seq![p1, p2]) == apply_peer_prop(q1, p2.0, p2.1));
    let q2 = apply_peer_prop(q1, p2.0, p2.1);
    assert(q2.allowed_ips == p.allowed_ips);
    match p.endpoint {
        Option::None => {
            assert(props == seq![p1, p2]);
            assert(q2 == p);
        },
        Option::Some(e) => {
            let p3 = ("Endpoint"@, e);
            assert(props == seq![p1, p2, p3]);
            assert(seq![p1, p2, p3].drop_last() =~= seq![p1, p2]);
            assert(apply_peer_props(empty_peer(), seq![p1, p2, p3]) == apply_peer_prop(
                q2,
                p3.0,
                p3.1,
            ));
            assert(apply_peer_prop(q2, p3.0, p3.1) == p);
        },
    }
}

/// Interpreting the rendered sections gives back the interface and the
/// peers, in order.
proof fn lemma_interp_rendered_peers(ifc: InterfaceView, ps: Seq<PeerView>)
    requires
        forall|i: int| 0 <= i < ps.len() ==> (#[trigger] ps[i]).allowed_ips.len() >= 1,
        forall|i: int, j: int|
            0 <= i < ps.len() && 0 <= j < ps[i].allowed_ips.len() ==> !(#[trigger] ps[i].allowed_ips[j]).contains(','),
    ensures
        interp_sections(seq![iface_section(ifc)] + ps.map_values(|p: PeerView| peer_section(p)))
            == (ifc, ps),
    decreases ps.len(),
{
    reveal_strlit("Interface");
    reveal_strlit("Peer");
    let m = ps.map_values(|p: PeerView| peer_section(p));
    let secs = seq![iface_section(ifc)] + m;
    if ps.len() == 0 {
        assert(secs =~= seq![iface_section(ifc)]);
        assert(secs.drop_last() =~= Seq::<SectionView>::empty());
        assert(interp_sections(Seq::empty()) == (empty_iface(), Seq::<PeerView>::empty()));
        assert(secs.last() == iface_section(ifc));
        assert(starts_with("Interface"@, "Interface"@)) by {
            assert("Interface"@.subrange(0, "Interface"@.len() as int) =~= "Interface"@);
        }
        lemma_apply_iface_rendered(ifc);
        assert(interp_sections(secs).1 =~= ps);
    } else {
        let prev_ps = ps.drop_last();
        assert(secs.drop_last() =~= seq![iface_section(ifc)] + prev_ps.map_values(
            |p: PeerView| peer_section(p),
        ));
        assert(forall|i: int| 0 <= i < prev_ps.len() ==> prev_ps[i] == ps[i]);
        lemma_interp_rendered_peers(ifc, prev_ps);
        assert(secs.last() == m.last());
        assert(m.last() == peer_section(ps.last()));
        assert(!starts_with("Peer"@, "Interface"@)) by {
            assert("Peer"@.len() < "Interface"@.len());
        }
        assert(starts_with("Peer"@, "Peer"@)) by {
            assert("Peer"@.subrange(0, "Peer"@.len() as int) =~= "Peer"@);
        }
        assert(ps.last() == ps[ps.len() - 1]);
        lemma_apply_peer_rendered(ps.last());
        assert(prev_ps.push(ps.last()) =~= ps);
    }
}

proof fn lemma_classify_blank()
    ensures
        classify_line(Seq::<char>::empty()) == LineTok::Blank,
{
    assert(trim_start(Seq::<char>::empty()) == Seq::<char>::empty());
    assert(trim_end(Seq::<char>::empty()) == Seq::<char>::empty());
}

/// A rendered `[name]` line reads back as a header for `name`.
proof fn lemma_classify_header_line(line: Seq<char>, name: Seq<char>)
    requires
        line == seq!['['] + name + seq![']'],
        trim(name) == name,
    ensures
        classify_line(line) == LineTok::Header(name),
{
    assert(line.len() == name.len() + 2);
    assert(line[0] == '[');
    assert(line.last() == ']');
    lemma_trim_noop(line);
    let t = trim(line);
    assert(t.subrange(1, t.len() - 1) =~= name);
}

/// A rendered `key = value` line reads back as that property.
proof fn lemma_classify_kv(k: Seq<char>, v: Seq<char>)
    requires
        k.len() >= 1,
        !is_ws(k[0]),
        !is_ws(k.last()),
        k[0] != ';',
        k[0] != '#',
        k[0] != '[',
        forall|j: int| 0 <= j < k.len() ==> k[j] != '=',
        trim(v) == v,
    ensures
        classify_line(k + " = "@ + v) == LineTok::Prop(k, v),
{
    reveal_strlit(" = ");
    let line = k + " = "@ + v;
    assert(" = "@.len() == 3);
    assert(" = "@[0] == ' ' && " = "@[1] == '=' && " = "@[2] == ' ');
    assert(line.len() == k.len() + 3 + v.len());
    assert(forall|j: int| 0 <= j < k.len() ==> line[j] == k[j]);
    assert(line[k.len() as int] == ' ');
    assert(line[k.len() as int + 1] == '=');
    assert(line[k.len() as int + 2] == ' ');
    assert(forall|j: int| 0 <= j < v.len() ==> line[k.len() + 3 + j] == v[j]);
    if v.len() == 0 {
        lemma_trim_start_skip(line, 0);
        assert(line.subrange(0, line.len() as int) =~= line);
        lemma_trim_end_take(line, k.len() as int + 2);
        let t = trim(line);
        assert(t =~= line.subrange(0, k.len() as int + 2));
        assert(t.len() == k.len() + 2);
        assert(t[0] == k[0]);
        assert(forall|j: int| 0 <= j < k.len() ==> t[j] == k[j]);
        assert(t[k.len() as int] == ' ');
        assert(t[k.len() as int + 1] == '=');
        lemma_find_char_at(t, '=', k.len() as int + 1);
        let kp = t.subrange(0, k.len() as int + 1);
        assert(kp =~= k + seq![' ']);
        lemma_trim_start_skip(kp, 0);
        assert(kp.subrange(0, kp.len() as int) =~= kp);
        lemma_trim_end_take(kp, k.len() as int);
        assert(trim(kp) =~= k);
        let vp = t.subrange(k.len() as int + 2, t.len() as int);
        assert(vp =~= Seq::<char>::empty());
        lemma_trim_start_skip(vp, 0);
        assert(vp.subrange(0, 0) =~= vp);
        lemma_trim_end_take(vp, 0);
        assert(trim(vp) =~= v);
    } else {
        lemma_trim_shape(v);
        assert(!is_ws(v.last()));
        assert(line.last() == v.last());
        lemma_trim_noop(line);
        let t = trim(line);
        assert(t == line);
        lemma_find_char_at(t, '=', k.len() as int + 1);
        let kp = t.subrange(0, k.len() as int + 1);
        assert(kp =~= k + seq![' ']);
        lemma_trim_start_skip(kp, 0);
        assert(kp.subrange(0, kp.len() as int) =~= kp);
        lemma_trim_end_take(kp, k.len() as int);
        assert(trim(kp) =~= k);
        let vp = t.subrange(k.len() as int + 2, t.len() as int);
        assert(vp =~= seq![' '] + v);
        assert(is_ws(vp[0]));
        assert(!is_ws(v[0]));
        assert(vp[1] == v[0]);
        lemma_trim_start_skip(vp, 1);
        assert(trim_start(vp) =~= v);
        lemma_trim_end_take(v, v.len() as int);
        assert(v.subrange(0, v.len() as int) =~= v);
        assert(trim(vp) == v);
    }
}

/// The fixed literals used on rendered lines hold no newline, and the key
/// literals are acceptable line heads.
proof fn lemma_key_shape(k: Seq<char>)
    requires
        k == "PrivateKey"@ || k == "Address"@ || k == "ListenPort"@ || k == "PublicKey"@ || k
            == "AllowedIPs"@ || k == "Endpoint"@,
    ensures
        k.len() >= 1,
        !is_ws(k[0]),
        !is_ws(k.last()),
        k[0] != ';',
        k[0] != '#',
        k[0] != '[',
        forall|j: int| 0 <= j < k.len() ==> k[j] != '=',
        !k.contains('\n'),
{
    reveal_strlit("PrivateKey");
    reveal_strlit("Address");
    reveal_strlit("ListenPort");
    reveal_strlit("PublicKey");
    reveal_strlit("AllowedIPs");
    reveal_strlit("Endpoint");
    assert(forall|j: int| 0 <= j < k.len() ==> k[j] != '=' && k[j] != '\n');
}

/// A decimal numeral is trimmed and newline-free.
proof fn lemma_dec_clean(n: u16)
    ensures
        value_clean(dec_of(n as int)),
        trim(dec_of(n as int)) == dec_of(n as int),
{
    lemma_dec_of_digits(n as int);
    let d = dec_of(n as int);
    assert(is_digit(d[0]) && is_digit(d.last()));
    assert(!is_ws(d[0]) && !is_ws(d.last()));
    lemma_trim_noop(d);
    assert(forall|j: int| 0 <= j < d.len() ==> is_digit(#[trigger] d[j]));
    assert(forall|j: int| 0 <= j < d.len() ==> d[j] != '\n');
}

/// A `key = value` line built from clean parts holds no newline.
proof fn lemma_kv_line_clean(lit: Seq<char>, v: Seq<char>)
    requires
        !lit.contains('\n'),
        !v.contains('\n'),
    ensures
        !(lit + v).contains('\n'),
{
    assert(forall|j: int| 0 <= j < lit.len() ==> lit[j] != '\n');
    assert(forall|j: int| 0 <= j < v.len() ==> v[j] != '\n');
    assert(forall|j: int| 0 <= j < (lit + v).len() ==> (lit + v)[j] != '\n');
}

proof fn lemma_literals_clean()
    ensures
        !("[Interface]"@).contains('\n'),
        !("[Peer]"@).contains('\n'),
        !("PrivateKey = "@).contains('\n'),
        !("Address = "@).contains('\n'),
        !("ListenPort = "@).contains('\n'),
        !("PublicKey = "@).contains('\n'),
        !("AllowedIPs = "@).contains('\n'),
        !("Endpoint = "@).contains('\n'),
{
    reveal_strlit("[Interface]");
    reveal_strlit("[Peer]");
    reveal_strlit("PrivateKey = ");
    reveal_strlit("Address = ");
    reveal_strlit("ListenPort = ");
    reveal_strlit("PublicKey = ");
    reveal_strlit("AllowedIPs = ");
    reveal_strlit("Endpoint = ");
    assert(forall|j: int| 0 <= j < ("[Interface]"@).len() ==> ("[Interface]"@)[j] != '\n');
    assert(forall|j: int| 0 <= j < ("[Peer]"@).len() ==> ("[Peer]"@)[j] != '\n');
    assert(forall|j: int| 0 <= j < ("PrivateKey = "@).len() ==> ("PrivateKey = "@)[j] != '\n');
    assert(forall|j: int| 0 <= j < ("Address = "@).len() ==> ("Address = "@)[j] != '\n');
    assert(forall|j: int| 0 <= j < ("ListenPort = "@).len() ==> ("ListenPort = "@)[j] != '\n');
    assert(forall|j: int| 0 <= j < ("PublicKey = "@).len() ==> ("PublicKey = "@)[j] != '\n');
    assert(forall|j: int| 0 <= j < ("AllowedIPs = "@).len() ==> ("AllowedIPs = "@)[j] != '\n');
    assert(forall|j: int| 0 <= j < ("Endpoint = "@).len() ==> ("Endpoint = "@)[j] != '\n');
}

/// No line of a rendered `[Interface]` block holds a newline.
proof fn lemma_iface_lines_clean(i: InterfaceView)
    requires
        iface_wf(i),
    ensures
        forall|j: int| 0 <= j < iface_lines(i).len() ==> !(#[trigger] iface_lines(i)[j]).contains('\n'),
{
    lemma_literals_clean();
    lemma_kv_line_clean("PrivateKey = "@, i.private_key);
    lemma_kv_line_clean("Address = "@, i.address);
    match i.listen_port {
        Option::Some(p) => {
            lemma_dec_clean(p);
            lemma_kv_line_clean("ListenPort = "@, dec_of(p as int));
        },
        Option::None => {},
    }
}

/// No line of a rendered `[Peer]` block holds a newline.
proof fn lemma_peer_lines_clean(p: PeerView)
    requires
        peer_wf(p),
    ensures
        forall|j: int| 0 <= j < peer_lines(p).len() ==> !(#[trigger] peer_lines(p)[j]).contains('\n'),
{
    lemma_literals_clean();
    lemma_kv_line_clean("PublicKey = "@, p.public_key);
    lemma_kv_line_clean("AllowedIPs = "@, join_seqs(p.allowed_ips, seq![',']));
    match p.endpoint {
        Option::Some(e) => {
            lemma_kv_line_clean("Endpoint = "@, e);
        },
        Option::None => {},
    }
}

/// The peer blocks, decomposed from the front.
proof fn lemma_peers_lines_front(ps: Seq<PeerView>)
    requires
        ps.len() >= 1,
    ensures
        peers_lines(ps) == seq![Seq::<char>::empty()] + peer_lines(ps[0]) + peers_lines(
            ps.drop_first(),
        ),
    decreases ps.len(),
{
    let blank = seq![Seq::<char>::empty()];
    if ps.len() == 1 {
        assert(ps.drop_last() =~= Seq::<PeerView>::empty());
        assert(peers_lines(Seq::<PeerView>::empty()) == Seq::<Seq<char>>::empty());
        assert(ps.last() == ps[0]);
        assert(ps.drop_first() =~= Seq::<PeerView>::empty());
        assert(peers_lines(ps) =~= blank + peer_lines(ps[0]) + peers_lines(ps.drop_first()));
    } else {
        let front = ps.drop_last();
        assert(front.len() >= 1);
        lemma_peers_lines_front(front);
        assert(front[0] == ps[0]);
        assert(peers_lines(ps) == peers_lines(front) + blank + peer_lines(ps.last()));
        let mid = ps.drop_first();
        assert(front.drop_first() =~= mid.drop_last());
        assert(mid.last() == ps.last());
        assert(peers_lines(mid) == peers_lines(mid.drop_last()) + blank + peer_lines(mid.last()));
        assert((blank + peer_lines(ps[0]) + peers_lines(front.drop_first())) + blank + peer_lines(
            ps.last(),
        ) =~= blank + peer_lines(ps[0]) + (peers_lines(mid.drop_last()) + blank + peer_lines(
            mid.last(),
        )));
    }
}

/// Reading one rendered peer group closes the open section and opens a
/// fresh one holding exactly the rendered peer properties.
proof fn lemma_tok_one_peer(p: PeerView, rest: Seq<Seq<char>>, sec: SectionView)
    requires
        peer_wf(p),
    ensures
        tokenize_rest(seq![Seq::<char>::empty()] + peer_lines(p) + rest, Option::Some(sec))
            == match tokenize_rest(rest, Option::Some(peer_section(p))) {
            Option::None => Option::None::<Seq<SectionView>>,
            Option::Some(r) => Option::Some(seq![sec] + r),
        },
{
    reveal_strlit("[Peer]");
    reveal_strlit("Peer");
    reveal_strlit("PublicKey = ");
    reveal_strlit("PublicKey");
    reveal_strlit("AllowedIPs = ");
    reveal_strlit("AllowedIPs");
    reveal_strlit("Endpoint = ");
    reveal_strlit("Endpoint");
    reveal_strlit(" = ");
    let ipv = join_seqs(p.allowed_ips, seq![',']);
    let l_hdr = "[Peer]"@;
    let l_pk = "PublicKey = "@ + p.public_key;
    let l_ips = "AllowedIPs = "@ + ipv;
    lemma_classify_blank();
    assert(l_hdr =~= seq!['['] + "Peer"@ + seq![']']);
    lemma_trim_noop("Peer"@);
    lemma_classify_header_line(l_hdr, "Peer"@);
    lemma_key_shape("PublicKey"@);
    assert(l_pk =~= "PublicKey"@ + " = "@ + p.public_key);
    lemma_classify_kv("PublicKey"@, p.public_key);
    lemma_key_shape("AllowedIPs"@);
    assert(l_ips =~= "AllowedIPs"@ + " = "@ + ipv);
    lemma_classify_kv("AllowedIPs"@, ipv);
    let s0 = SectionView { name: "Peer"@, props: Seq::empty() };
    let s1 = SectionView { name: s0.name, props: s0.props.push(("PublicKey"@, p.public_key)) };
    let s2 = SectionView { name: s1.name, props: s1.props.push(("AllowedIPs"@, ipv)) };
    match p.endpoint {
        Option::None => {
            let lines = seq![Seq::<char>::empty()] + peer_lines(p) + rest;
            assert(peer_lines(p) == seq![l_hdr, l_pk, l_ips]);
            assert(lines[0] == Seq::<char>::empty());
            let lines1 = seq![l_hdr, l_pk, l_ips] + rest;
            assert(lines.drop_first() =~= lines1);
            assert(tokenize_rest(lines, Option::Some(sec)) == tokenize_rest(
                lines1,
                Option::Some(sec),
            ));
            assert(lines1[0] == l_hdr);
            let lines2 = seq![l_pk, l_ips] + rest;
            assert(lines1.drop_first() =~= lines2);
            assert(lines2[0] == l_pk);
            let lines3 = seq![l_ips] + rest;
            assert(lines2.drop_first() =~= lines3);
            assert(tokenize_rest(lines2, Option::Some(s0)) == tokenize_rest(
                lines3,
                Option::Some(s1),
            ));
            assert(lines3[0] == l_ips);
            assert(lines3.drop_first() =~= rest);
            assert(tokenize_rest(lines3, Option::Some(s1)) == tokenize_rest(
                rest,
                Option::Some(s2),
            ));
            assert(s2 == peer_section(p)) by {
                assert(s2.props =~= peer_section(p).props);
            }
            let inner = tokenize_rest(lines2, Option::Some(s0));
            if inner is Some {
                assert(tokenize_rest(lines1, Option::Some(sec)) == Option::Some(
                    seq![sec] + inner->Some_0,
                ));
            } else {
                assert(tokenize_rest(lines1, Option::Some(sec)) is None);
            }
        },
        Option::Some(e) => {
            let l_ep = "Endpoint = "@ + e;
            lemma_key_shape("Endpoint"@);
            assert(l_ep =~= "Endpoint"@ + " = "@ + e);
            lemma_classify_kv("Endpoint"@, e);
            let s3 = SectionView { name: s2.name, props: s2.props.push(("Endpoint"@, e)) };
            let lines = seq![Seq::<char>::empty()] + peer_lines(p) + rest;
            assert(peer_lines(p) == seq![l_hdr, l_pk, l_ips, l_ep]);
            assert(lines[0] == Seq::<char>::empty());
            let lines1 = seq![l_hdr, l_pk, l_ips, l_ep] + rest;
            assert(lines.drop_first() =~= lines1);
            assert(tokenize_rest(lines, Option::Some(sec)) == tokenize_rest(
                lines1,
                Option::Some(sec),
            ));
            assert(lines1[0] == l_hdr);
            let lines2 = seq![l_pk, l_ips, l_ep] + rest;
            assert(lines1.drop_first() =~= lines2);
            assert(lines2[0] == l_pk);
            let lines3 = seq![l_ips, l_ep] + rest;
            assert(lines2.drop_first() =~= lines3);
            assert(tokenize_rest(lines2, Option::Some(s0)) == tokenize_rest(
                lines3,
                Option::Some(s1),
            ));
            assert(lines3[0] == l_ips);
            let lines4 = seq![l_ep] + rest;
            assert(lines3.drop_first() =~= lines4);
            assert(tokenize_rest(lines3, Option::Some(s1)) == tokenize_rest(
                lines4,
                Option::Some(s2),
            ));
            assert(lines4[0] == l_ep);
            assert(lines4.drop_first() =~= rest);
            assert(tokenize_rest(lines4, Option::Some(s2)) == tokenize_rest(
                rest,
                Option::Some(s3),
            ));
            assert(s3 == peer_section(p)) by {
                assert(s3.props =~= peer_section(p).props);
            }
            let inner = tokenize_rest(lines2, Option::Some(s0));
            if inner is Some {
                assert(tokenize_rest(lines1, Option::Some(sec)) == Option::Some(
                    seq![sec] + inner->Some_0,
                ));
            } else {
                assert(tokenize_rest(lines1, Option::Some(sec)) is None);
            }
        },
    }
}

/// Reading the rendered interface block opens the interface section with
/// exactly the rendered properties.
proof fn lemma_tok_iface_lines(i: InterfaceView, rest: Seq<Seq<char>>)
    requires
        iface_wf(i),
    ensures
        tokenize_rest(iface_lines(i) + rest, Option::None) == tokenize_rest(
            rest,
            Option::Some(iface_section(i)),
        ),
{
    reveal_strlit("[Interface]");
    reveal_strlit("Interface");
    reveal_strlit("PrivateKey = ");
    reveal_strlit("PrivateKey");
    reveal_strlit("Address = ");
    reveal_strlit("Address");
    reveal_strlit("ListenPort = ");
    reveal_strlit("ListenPort");
    reveal_strlit(" = ");
    let l_hdr = "[Interface]"@;
    let l_pk = "PrivateKey = "@ + i.private_key;
    let l_ad = "Address = "@ + i.address;
    assert(l_hdr =~= seq!['['] + "Interface"@ + seq![']']);
    lemma_trim_noop("Interface"@);
    lemma_classify_header_line(l_hdr, "Interface"@);
    lemma_key_shape("PrivateKey"@);
    assert(l_pk =~= "PrivateKey"@ + " = "@ + i.private_key);
    lemma_classify_kv("PrivateKey"@, i.private_key);
    lemma_key_shape("Address"@);
    assert(l_ad =~= "Address"@ + " = "@ + i.address);
    lemma_classify_kv("Address"@, i.address);
    let s0 = SectionView { name: "Interface"@, props: Seq::empty() };
    let s1 = SectionView { name: s0.name, props: s0.props.push(("PrivateKey"@, i.private_key)) };
    let s2 = SectionView { name: s1.name, props: s1.props.push(("Address"@, i.address)) };
    match i.listen_port {
        Option::None => {
            let lines = iface_lines(i) + rest;
            assert(iface_lines(i) == seq![l_hdr, l_pk, l_ad]);
            assert(lines[0] == l_hdr);
            let lines1 = seq![l_pk, l_ad] + rest;
            assert(lines.drop_first() =~= lines1);
            assert(lines1[0] == l_pk);
            let lines2 = seq![l_ad] + rest;
            assert(lines1.drop_first() =~= lines2);
            assert(tokenize_rest(lines1, Option::Some(s0)) == tokenize_rest(
                lines2,
                Option::Some(s1),
            ));
            assert(lines2[0] == l_ad);
            assert(lines2.drop_first() =~= rest);
            assert(tokenize_rest(lines2, Option::Some(s1)) == tokenize_rest(
                rest,
                Option::Some(s2),
            ));
            assert(s2 == iface_section(i)) by {
                assert(s2.props =~= iface_section(i).props);
            }
            let inner = tokenize_rest(lines1, Option::Some(s0));
            if inner is Some {
                assert(tokenize_rest(lines, Option::None) == Option::Some(inner->Some_0));
            } else {
                assert(tokenize_rest(lines, Option::None) is None);
            }
        },
        Option::Some(port) => {
            let l_lp = "ListenPort = "@ + dec_of(port as int);
            lemma_key_shape("ListenPort"@);
            lemma_dec_clean(port);
            assert(l_lp =~= "ListenPort"@ + " = "@ + dec_of(port as int));
            lemma_classify_kv("ListenPort"@, dec_of(port as int));
            let s3 = SectionView {
                name: s2.name,
                props: s2.props.push(("ListenPort"@, dec_of(port as int))),
            };
            let lines = iface_lines(i) + rest;
            assert(iface_lines(i) == seq![l_hdr, l_pk, l_ad, l_lp]);
            assert(lines[0] == l_hdr);
            let lines1 = seq![l_pk, l_ad, l_lp] + rest;
            assert(lines.drop_first() =~= lines1);
            assert(lines1[0] == l_pk);
            let lines2 = seq![l_ad, l_lp] + rest;
            assert(lines1.drop_first() =~= lines2);
            assert(tokenize_rest(lines1, Option::Some(s0)) == tokenize_rest(
                lines2,
                Option::Some(s1),
            ));
            assert(lines2[0] == l_ad);
            let lines3 = seq![l_lp] + rest;
            assert(lines2.drop_first() =~= lines3);
            assert(tokenize_rest(lines2, Option::Some(s1)) == tokenize_rest(
                lines3,
                Option::Some(s2),
            ));
            assert(lines3[0] == l_lp);
            assert(lines3.drop_first() =~= rest);
            assert(tokenize_rest(lines3, Option::Some(s2)) == tokenize_rest(
                rest,
                Option::Some(s3),
            ));
            assert(s3 == iface_section(i)) by {
                assert(s3.props =~= iface_section(i).props);
            }
            let inner = tokenize_rest(lines1, Option::Some(s0));
            if inner is Some {
                assert(tokenize_rest(lines, Option::None) == Option::Some(inner->Some_0));
            } else {
                assert(tokenize_rest(lines, Option::None) is None);
            }
        },
    }
}

/// Reading the rendered peer groups, then the document's final empty line,
/// emits the open section followed by one section per peer, in order.
proof fn lemma_tokenize_peer_tail(ps: Seq<PeerView>, sec: SectionView)
    requires
        forall|i: int| 0 <= i < ps.len() ==> peer_wf(#[trigger] ps[i]),
    ensures
        tokenize_rest(peers_lines(ps) + seq![Seq::<char>::empty()], Option::Some(sec))
            == Option::Some(seq![sec] + ps.map_values(|p: PeerView| peer_section(p))),
    decreases ps.len(),
{
    let blank_line = Seq::<char>::empty();
    if ps.len() == 0 {
        let lines = peers_lines(ps) + seq![blank_line];
        assert(peers_lines(ps) == Seq::<Seq<char>>::empty());
        assert(lines =~= seq![blank_line]);
        lemma_classify_blank();
        assert(lines[0] == blank_line);
        assert(lines.drop_first() =~= Seq::<Seq<char>>::empty());
        assert(tokenize_rest(lines, Option::Some(sec)) == tokenize_rest(
            Seq::<Seq<char>>::empty(),
            Option::Some(sec),
        ));
        assert(tokenize_rest(Seq::<Seq<char>>::empty(), Option::Some(sec)) == Option::Some(
            seq![sec],
        ));
        assert(ps.map_values(|p: PeerView| peer_section(p)) =~= Seq::<SectionView>::empty());
        assert(seq![sec] + Seq::<SectionView>::empty() =~= seq![sec]);
    } else {
        lemma_peers_lines_front(ps);
        let group = seq![blank_line] + peer_lines(ps[0]);
        let tail = peers_lines(ps.drop_first()) + seq![blank_line];
        assert(peers_lines(ps) + seq![blank_line] =~= (group + tail));
        assert(group + tail =~= seq![blank_line] + peer_lines(ps[0]) + tail);
        lemma_tok_one_peer(ps[0], tail, sec);
        assert(forall|i: int|
            0 <= i < ps.drop_first().len() ==> peer_wf(#[trigger] ps.drop_first()[i]));
        lemma_tokenize_peer_tail(ps.drop_first(), peer_section(ps[0]));
        let m_rest = ps.drop_first().map_values(|p: PeerView| peer_section(p));
        assert(tokenize_rest(tail, Option::Some(peer_section(ps[0]))) == Option::Some(
            seq![peer_section(ps[0])] + m_rest,
        ));
        assert(tokenize_rest(peers_lines(ps) + seq![blank_line], Option::Some(sec))
            == Option::Some(seq![sec] + (seq![peer_section(ps[0])] + m_rest)));
        assert(ps.map_values(|p: PeerView| peer_section(p)) =~= seq![peer_section(ps[0])]
            + m_rest);
        assert(seq![sec] + (seq![peer_section(ps[0])] + m_rest) =~= seq![sec] + ps.map_values(
            |p: PeerView| peer_section(p),
        ));
    }
}

proof fn lemma_peers_lines_all_clean(ps: Seq<PeerView>)
    requires
        forall|i: int| 0 <= i < ps.len() ==> peer_wf(#[trigger] ps[i]),
    ensures
        forall|j: int| 0 <= j < peers_lines(ps).len() ==> !(#[trigger] peers_lines(ps)[j]).contains('\n'),
    decreases ps.len(),
{
    if ps.len() == 0 {
    } else {
        assert(forall|i: int|
            0 <= i < ps.drop_last().len() ==> peer_wf(#[trigger] ps.drop_last()[i]));
        lemma_peers_lines_all_clean(ps.drop_last());
        lemma_peer_lines_clean(ps.last());
        let a = peers_lines(ps.drop_last());
        let c = peer_lines(ps.last());
        let pl = peers_lines(ps);
        assert(pl == a + seq![Seq::<char>::empty()] + c);
        assert forall|j: int| 0 <= j < pl.len() implies !(#[trigger] pl[j]).contains('\n') by {
            if j < a.len() {
                assert(pl[j] == a[j]);
            } else if j == a.len() {
                assert(pl[j] == Seq::<char>::empty());
            } else {
                assert(pl[j] == c[j - a.len() - 1]);
            }
        }
    }
}

/// Reading back a whole rendered configuration yields exactly its rendered
/// sections.
pub proof fn lemma_tokenize_rendered(w: WireGuardView)
    requires
        parsed_wf(w),
    ensures
        tokenize(render_text_spec(w)) == Option::Some(rendered_sections(w)),
{
    let lines = tunnel_lines(w);
    let il = iface_lines(w.interface);
    let pl = peers_lines(w.peers);
    lemma_iface_lines_clean(w.interface);
    lemma_peers_lines_all_clean(w.peers);
    assert(lines == il + pl);
    assert forall|j: int| 0 <= j < lines.len() implies !(#[trigger] lines[j]).contains('\n') by {
        if j < il.len() {
            assert(lines[j] == il[j]);
        } else {
            assert(lines[j] == pl[j - il.len()]);
        }
    }
    assert(il.len() >= 3);
    lemma_lines_text_split(lines);
    let blank_line = Seq::<char>::empty();
    assert(split_char(render_text_spec(w), '\n') == lines + seq![blank_line]);
    assert(lines + seq![blank_line] =~= il + (pl + seq![blank_line]));
    lemma_tok_iface_lines(w.interface, pl + seq![blank_line]);
    lemma_tokenize_peer_tail(w.peers, iface_section(w.interface));
    assert(tokenize(render_text_spec(w)) == Option::Some(
        seq![iface_section(w.interface)] + w.peers.map_values(|p: PeerView| peer_section(p)),
    ));
}

pub open spec fn sec_values_clean(s: SectionView) -> bool {
    forall|j: int| 0 <= j < s.props.len() ==> value_clean((#[trigger] s.props[j]).1)
}

pub open spec fn secs_values_clean(ss: Seq<SectionView>) -> bool {
    forall|i: int| 0 <= i < ss.len() ==> sec_values_clean(#[trigger] ss[i])
}

/// Whatever a property line carries, the tokenizer hands on a trimmed,
/// newline-free value.
proof fn lemma_classify_values_clean(l: Seq<char>)
    requires
        !l.contains('\n'),
    ensures
        match classify_line(l) {
            LineTok::Prop(k, v) => value_clean(v),
            _ => true,
        },
{
    let t = trim(l);
    lemma_trim_no(l, '\n');
    assert(forall|j: int| 0 <= j < t.len() ==> t[j] != '\n');
    match classify_line(l) {
        LineTok::Prop(k, v) => {
            lemma_find_char_props(t, '=');
            let i = find_char(t, '=');
            let vp = t.subrange(i + 1, t.len() as int);
            assert(forall|j: int| 0 <= j < vp.len() ==> vp[j] == t[j + i + 1]);
            assert(forall|j: int| 0 <= j < vp.len() ==> vp[j] != '\n');
            assert(!vp.contains('\n'));
            lemma_trim_no(vp, '\n');
            lemma_trim_idempotent(vp);
            assert(v == trim(vp));
        },
        _ => {},
    }
}

proof fn lemma_tokenize_rest_clean(lines: Seq<Seq<char>>, cur: Option<SectionView>)
    requires
        forall|i: int| 0 <= i < lines.len() ==> !(#[trigger] lines[i]).contains('\n'),
        match cur {
            Option::Some(s) => sec_values_clean(s),
            Option::None => true,
        },
    ensures
        match tokenize_rest(lines, cur) {
            Option::Some(ss) => secs_values_clean(ss),
            Option::None => true,
        },
    decreases lines.len(),
{
    if lines.len() == 0 {
        match cur {
            Option::Some(s) => {
                assert(secs_values_clean(seq![s]));
            },
            Option::None => {
                assert(secs_values_clean(Seq::empty()));
            },
        }
    } else {
        lemma_classify_values_clean(lines[0]);
        assert(forall|i: int|
            0 <= i < lines.drop_first().len() ==> !(#[trigger] lines.drop_first()[i]).contains(
                '\n',
            ));
        match classify_line(lines[0]) {
            LineTok::Bad => {},
            LineTok::Blank => {
                lemma_tokenize_rest_clean(lines.drop_first(), cur);
            },
            LineTok::Header(n) => {
                let fresh = SectionView { name: n, props: Seq::empty() };
                assert(sec_values_clean(fresh));
                lemma_tokenize_rest_clean(lines.drop_first(), Option::Some(fresh));
                let rest = tokenize_rest(lines.drop_first(), Option::Some(fresh));
                if rest is Some {
                    let r = rest->Some_0;
                    match cur {
                        Option::Some(s) => {
                            let out = seq![s] + r;
                            assert forall|i: int|
                                0 <= i < out.len() implies sec_values_clean(#[trigger] out[i]) by {
                                if i == 0 {
                                    assert(out[i] == s);
                                } else {
                                    assert(out[i] == r[i - 1]);
                                }
                            }
                        },
                        Option::None => {},
                    }
                }
            },
            LineTok::Prop(k, v) => {
                match cur {
                    Option::Some(s) => {
                        let s2 = SectionView { name: s.name, props: s.props.push((k, v)) };
                        assert forall|j: int|
                            0 <= j < s2.props.len() implies value_clean(
                            (#[trigger] s2.props[j]).1,
                        ) by {
                            if j < s.props.len() {
                                assert(s2.props[j] == s.props[j]);
                            } else {
                                assert(s2.props[j] == (k, v));
                            }
                        }
                        lemma_tokenize_rest_clean(lines.drop_first(), Option::Some(s2));
                    },
                    Option::None => {
                        lemma_tokenize_rest_clean(lines.drop_first(), Option::None);
                    },
                }
            },
        }
    }
}

proof fn lemma_empty_iface_wf()
    ensures
        iface_wf(empty_iface()),
{
    assert(trim_start(Seq::<char>::empty()) == Seq::<char>::empty());
    assert(trim_end(Seq::<char>::empty()) == Seq::<char>::empty());
}

proof fn lemma_empty_peer_wf()
    ensures
        peer_wf(empty_peer()),
{
    assert(trim_start(Seq::<char>::empty()) == Seq::<char>::empty());
    assert(trim_end(Seq::<char>::empty()) == Seq::<char>::empty());
    assert(join_seqs(Seq::<Seq<char>>::empty(), seq![',']) == Seq::<char>::empty());
}

proof fn lemma_apply_iface_clean(i: InterfaceView, props: Seq<(Seq<char>, Seq<char>)>)
    requires
        iface_wf(i),
        forall|j: int| 0 <= j < props.len() ==> value_clean((#[trigger] props[j]).1),
    ensures
        iface_wf(apply_iface_props(i, props)),
    decreases props.len(),
{
    if props.len() == 0 {
    } else {
        assert(forall|j: int|
            0 <= j < props.drop_last().len() ==> value_clean((#[trigger] props.drop_last()[j]).1));
        lemma_apply_iface_clean(i, props.drop_last());
        assert(value_clean(props.last().1));
    }
}

proof fn lemma_apply_peer_clean(p: PeerView, props: Seq<(Seq<char>, Seq<char>)>)
    requires
        peer_wf(p),
        forall|j: int| 0 <= j < props.len() ==> value_clean((#[trigger] props[j]).1),
    ensures
        peer_wf(apply_peer_props(p, props)),
    decreases props.len(),
{
    if props.len() == 0 {
    } else {
        assert(forall|j: int|
            0 <= j < props.drop_last().len() ==> value_clean((#[trigger] props.drop_last()[j]).1));
        lemma_apply_peer_clean(p, props.drop_last());
        assert(value_clean(props.last().1));
        let prev = apply_peer_props(p, props.drop_last());
        let k = props.last().0;
        let v = props.last().1;
        reveal_strlit("AllowedIPs");
        if k == "AllowedIPs"@ {
            lemma_split_chunks_free(v, ',');
            lemma_split_chunks_no(v, ',', '\n');
            lemma_join_split(v, ',');
        }
    }
}

proof fn lemma_interp_wf(secs: Seq<SectionView>)
    requires
        secs_values_clean(secs),
    ensures
        iface_wf(interp_sections(secs).0),
        forall|i: int|
            0 <= i < interp_sections(secs).1.len() ==> peer_wf(#[trigger] interp_sections(secs).1[i]),
    decreases secs.len(),
{
    if secs.len() == 0 {
        lemma_empty_iface_wf();
    } else {
        assert(forall|i: int|
            0 <= i < secs.drop_last().len() ==> sec_values_clean(#[trigger] secs.drop_last()[i]));
        lemma_interp_wf(secs.drop_last());
        let prev = interp_sections(secs.drop_last());
        let s = secs.last();
        assert(sec_values_clean(s));
        if starts_with(s.name, "Interface"@) {
            lemma_apply_iface_clean(prev.0, s.props);
        } else if starts_with(s.name, "Peer"@) {
            lemma_empty_peer_wf();
            lemma_apply_peer_clean(empty_peer(), s.props);
            let out = prev.1.push(apply_peer_props(empty_peer(), s.props));
            assert forall|i: int| 0 <= i < out.len() implies peer_wf(#[trigger] out[i]) by {
                if i < prev.1.len() {
                    assert(out[i] == prev.1[i]);
                } else {
                    assert(out[i] == apply_peer_props(empty_peer(), s.props));
                }
            }
        }
    }
}

/// Every configuration that came out of a parse is well-formed: each codec
/// field is trimmed and newline-free, and each allowed-IP entry is free of
/// commas.
pub proof fn lemma_parse_wf(text: Seq<char>, t: WireGuardView)
    ensures
        parse_spec(text, t) matches Option::Some(w) ==> parsed_wf(w),
{
    if parse_spec(text, t) is Some {
        lemma_split_chunks_free(text, '\n');
        lemma_tokenize_rest_clean(split_char(text, '\n'), Option::None);
        let secs = tokenize(text)->Some_0;
        lemma_interp_wf(secs);
    }
}

/// Rendering a well-formed configuration and parsing it against itself
/// gives it back unchanged, provided every peer carries at least one
/// allowed IP range.
pub proof fn lemma_render_parse(w: WireGuardView)
    requires
        parsed_wf(w),
        peers_have_ips(w),
    ensures
        parse_spec(render_text_spec(w), w) == Option::Some(w),
{
    lemma_tokenize_rendered(w);
    assert(forall|i: int, j: int|
        0 <= i < w.peers.len() && 0 <= j < w.peers[i].allowed_ips.len() ==> !(
        #[trigger] w.peers[i].allowed_ips[j]).contains(','));
    lemma_interp_rendered_peers(w.interface, w.peers);
}

/// Semantic round trip: re-parsing the rendering of a parse result equals
/// that parse result, for any document whose parse gives each peer at least
/// one allowed IP range. (A peer section with no `AllowedIPs` key parses to
/// an empty list, which renders as an empty value and re-parses as one
/// empty entry; such documents are the stated exception.)
pub proof fn lemma_parse_render_parse(text: Seq<char>, t: WireGuardView)
    requires
        parse_spec(text, t) is Some,
        peers_have_ips(parse_spec(text, t)->Some_0),
    ensures
        parse_spec(render_text_spec(parse_spec(text, t)->Some_0), parse_spec(text, t)->Some_0)
            == parse_spec(text, t),
{
    lemma_parse_wf(text, t);
    lemma_render_parse(parse_spec(text, t)->Some_0);
}

/// Parsing replaces only the interface and the peers; every other field of
/// the template is preserved, whatever the document holds.
pub proof fn lemma_parse_preserves_template(text: Seq<char>, t: WireGuardView)
    ensures
        parse_spec(text, t) matches Option::Some(w) ==> w.created_at == t.created_at && w.uuid
            == t.uuid && w.device_uuid == t.device_uuid && w.api_url == t.api_url && w.file
            == t.file && w.wireguard_file == t.wireguard_file,
{
}

/// The order of allowed IP ranges survives a parse, a render, and a second
/// parse.
pub proof fn lemma_allowed_ips_order(text: Seq<char>, t: WireGuardView)
    requires
        parse_spec(text, t) is Some,
        peers_have_ips(parse_spec(text, t)->Some_0),
    ensures
        ({
            let w = parse_spec(text, t)->Some_0;
            let w2 = parse_spec(render_text_spec(w), w)->Some_0;
            w2.peers.len() == w.peers.len() && forall|i: int|
                0 <= i < w.peers.len() ==> (#[trigger] w2.peers[i]).allowed_ips
                    == w.peers[i].allowed_ips
        }),
{
    lemma_parse_render_parse(text, t);
}

/// No section that writes into the interface record carries a `ListenPort`
/// key; sections with other names cannot set the port at all.
pub open spec fn no_listen_port_key(ss: Seq<SectionView>) -> bool {
    forall|i: int, j: int|
        0 <= i < ss.len() && starts_with(ss[i].name, "Interface"@) && 0 <= j
            < ss[i].props.len() ==> (#[trigger] ss[i].props[j]).0 != "ListenPort"@
}

proof fn lemma_apply_iface_no_lp(i: InterfaceView, props: Seq<(Seq<char>, Seq<char>)>)
    requires
        i.listen_port is None,
        forall|j: int| 0 <= j < props.len() ==> (#[trigger] props[j]).0 != "ListenPort"@,
    ensures
        apply_iface_props(i, props).listen_port is None,
    decreases props.len(),
{
    if props.len() == 0 {
    } else {
        assert(forall|j: int|
            0 <= j < props.drop_last().len() ==> (#[trigger] props.drop_last()[j]).0
                != "ListenPort"@);
        lemma_apply_iface_no_lp(i, props.drop_last());
        assert(props.last() == props[props.len() - 1]);
    }
}

proof fn lemma_interp_no_lp(secs: Seq<SectionView>)
    requires
        no_listen_port_key(secs),
    ensures
        interp_sections(secs).0.listen_port is None,
    decreases secs.len(),
{
    if secs.len() == 0 {
    } else {
        assert(forall|i: int, j: int|
            0 <= i < secs.drop_last().len() && starts_with(secs.drop_last()[i].name, "Interface"@)
                && 0 <= j < secs.drop_last()[i].props.len() ==> (
            #[trigger] secs.drop_last()[i].props[j]).0 != "ListenPort"@) by {
            assert(forall|i: int|
                0 <= i < secs.drop_last().len() ==> secs.drop_last()[i] == secs[i]);
        }
        lemma_interp_no_lp(secs.drop_last());
        assert(secs.last() == secs[secs.len() - 1]);
        if starts_with(secs.last().name, "Interface"@) {
            assert(forall|j: int|
                0 <= j < secs.last().props.len() ==> (#[trigger] secs.last().props[j]).0
                    != "ListenPort"@);
            lemma_apply_iface_no_lp(interp_sections(secs.drop_last()).0, secs.last().props);
        }
    }
}

/// A document whose interface sections lack a `ListenPort` key parses to
/// an absent listen port, whatever the other sections hold.
pub proof fn lemma_listen_port_omission(text: Seq<char>, t: WireGuardView)
    requires
        parse_spec(text, t) is Some,
        no_listen_port_key(tokenize(text)->Some_0),
    ensures
        parse_spec(text, t)->Some_0.interface.listen_port is None,
{
    lemma_interp_no_lp(tokenize(text)->Some_0);
}

/// A configuration with an absent listen port renders with no `ListenPort`
/// line: the `[Interface]` block is exactly the header and the two fixed
/// keys.
pub proof fn lemma_render_omits_listen_port(i: InterfaceView)
    requires
        i.listen_port is None,
    ensures
        iface_lines(i) == seq![
            "[Interface]"@,
            "PrivateKey = "@ + i.private_key,
            "Address = "@ + i.address,
        ],
{
}

} // verus!
