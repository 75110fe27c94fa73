//! The local tunnel endpoint: private key, address, and an optional listen
//! port. The codec fills it on parse and renders it as the `[Interface]`
//! block.
use vstd::prelude::*;
use vstd::string::StringExecFns;
use crate::text::dec_of;
use crate::text::lemma_lines_text3;
use crate::text::lemma_lines_text4;
use crate::text::lines_text;
use crate::text::string_from_chars;
use crate::text::u16_digits;

verus! {

/// Specification-level image of an `Interface`.
pub struct InterfaceView {
    pub private_key: Seq<char>,
    pub address: Seq<char>,
    pub listen_port: Option<u16>,
}

#[derive(Debug, Clone)]
pub struct Interface {
    pub private_key: String,
    pub address: String,
    pub listen_port: Option<u16>,
}

impl View for Interface {
    type V = InterfaceView;

    open spec fn view(&self) -> InterfaceView {
        InterfaceView {
            private_key: self.private_key@,
            address: self.address@,
            listen_port: self.listen_port,
        }
    }
}

/// The lines of the rendered `[Interface]` block: the header, the two fixed
/// keys, and a `ListenPort` line only when the port is present.
pub open spec fn iface_lines(i: InterfaceView) -> Seq<Seq<char>> {
    let base = seq![
        "[Interface]"@,
        "PrivateKey = "@ + i.private_key,
        "Address = "@ + i.address,
    ];
    match i.listen_port {
        Option::Some(p) => base + seq!["ListenPort = "@ + dec_of(p as int)],
        Option::None => base,
    }
}

impl Interface {
    /// The textual `[Interface]` block, one key per line, each line ending
    /// in a newline; `ListenPort` is omitted when absent.
    pub fn render(&self) -> (r: String)
        ensures
            r@ == lines_text(iface_lines(self@)),
    {
        let mut out = String::new();
        out.append("[Interface]");
        out.append("\n");
        out.append("PrivateKey = ");
        out.append(self.private_key.as_str());
        out.append("\n");
        out.append("Address = ");
        out.append(self.address.as_str());
        out.append("\n");
        match self.listen_port {
            Option::Some(p) => {
                out.append("ListenPort = ");
                let digits = u16_digits(p);
                let ds = string_from_chars(&digits);
                out.append(ds.as_str());
                out.append("\n");
            },
            Option::None => {},
        }
        proof {
            reveal_strlit("\n");
            assert("\n"@ =~= seq!['\n']);
            let l = iface_lines(self@);
            match self@.listen_port {
                Option::None => {
                    let a = "[Interface]"@;
                    let b = "PrivateKey = "@ + self@.private_key;
                    let c = "Address = "@ + self@.address;
                    assert(l =~= seq![a, b, c]);
                    lemma_lines_text3(a, b, c);
                    assert(out@ =~= lines_text(l));
                },
                Option::Some(p) => {
                    let a = "[Interface]"@;
                    let b = "PrivateKey = "@ + self@.private_key;
                    let c = "Address = "@ + self@.address;
                    let d = "ListenPort = "@ + dec_of(p as int);
                    assert(l =~= seq![a, b, c, d]);
                    lemma_lines_text4(a, b, c, d);
                    assert(out@ =~= lines_text(l));
                },
            }
        }
        out
    }
}

} // verus!
