//! Pluggable-transport server setup: which transports to serve on which
//! addresses, read from the values of the `TOR_PT_*` variables.
use vstd::prelude::*;

use crate::display::{socket_display, socket_text_of};
use crate::net::{SocketAddress, SpecSocketAddress, parse_socket, socket_text};
use crate::text::{chars_equal, chars_of, split_chars, split_on, string_of, texts};

verus! {

/// Whether `needle` occurs in `hay` (the empty text occurs everywhere).
pub open spec fn contains_text(hay: Seq<char>, needle: Seq<char>) -> bool {
    exists|i: int|
        0 <= i <= hay.len() - needle.len() && #[trigger] hay.subrange(i, i + needle.len())
            == needle
}

/// The binding that one `method-address` entry of `TOR_PT_SERVER_BINDADDRS`
/// gives: the entry has exactly one `-`, the method occurs in the transports
/// text, and the address is a socket address text.
pub open spec fn bind_entry(transports: Seq<char>, part: Seq<char>) -> Option<
    (Seq<char>, SpecSocketAddress),
> {
    let kv = split_on(part, '-');
    if kv.len() == 2 && contains_text(transports, kv[0]) {
        match socket_text(kv[1]) {
            Some(a) => Some((kv[0], a)),
            None => None,
        }
    } else {
        None
    }
}

/// The bindings of a `,`-separated `TOR_PT_SERVER_BINDADDRS` text, in order;
/// entries that give none are skipped.
pub open spec fn bind_entries(transports: Seq<char>, bindaddrs: Seq<char>) -> Seq<
    (Seq<char>, SpecSocketAddress),
> {
    split_on(bindaddrs, ',').filter_map(|part: Seq<char>| bind_entry(transports, part))
}

/// Every binding names a method that occurs in the transports text, and
/// comes from an entry of the bind address text.
pub proof fn lemma_bindings_serve_listed_methods(transports: Seq<char>, bindaddrs: Seq<char>)
    ensures
        forall|i: int|
            0 <= i < bind_entries(transports, bindaddrs).len() ==> contains_text(
                transports,
                (#[trigger] bind_entries(transports, bindaddrs)[i]).0,
            ),
{
    let f = |part: Seq<char>| bind_entry(transports, part);
    let parts = split_on(bindaddrs, ',');
    let es = bind_entries(transports, bindaddrs);
    assert forall|i: int| 0 <= i < es.len() implies contains_text(transports, (#[trigger] es[i]).0) by {
        assert(es.contains(es[i]));
        parts.lemma_filter_map_contains(f, es[i]);
        let part = choose|part: Seq<char>| #[trigger] parts.contains(part) && f(part) == Some(es[i]);
        assert(bind_entry(transports, part) == Some(es[i]));
    }
}

/// A transport method and the address to serve it on.
#[derive(Debug)]
pub struct BindAddr {
    pub method_name: String,
    pub addr: SocketAddress,
}

/// What the server is to serve, and the ORPort to relay to.
#[derive(Debug)]
pub struct ServerInfo {
    pub bindaddrs: Vec<BindAddr>,
    pub or_port: Option<SocketAddress>,
}

/// The bindings held by a vector of [`BindAddr`].
pub open spec fn bindings(v: Seq<BindAddr>) -> Seq<(Seq<char>, SpecSocketAddress)> {
    v.map_values(|b: BindAddr| (b.method_name@, b.addr@))
}

/// Whether `needle` occurs in `hay`.
fn contains_chars(hay: &[char], needle: &[char]) -> (r: bool)
    ensures
        r == contains_text(hay@, needle@),
{
    if needle.len() == 0 {
        assert(hay@.subrange(0, 0int + needle@.len()) =~= needle@);
        return true;
    }
    if needle.len() > hay.len() {
        return false;
    }
    let hl = hay.len();
    let n = hl - needle.len() + 1;
    let mut i: usize = 0;
    while i < n
        invariant
            hl == hay@.len(),
            n == hay@.len() - needle@.len() + 1,
            needle@.len() >= 1,
            i <= n,
            forall|j: int|
                0 <= j < i ==> #[trigger] hay@.subrange(j, j + needle@.len()) != needle@,
        decreases n - i,
    {
        let end = i + needle.len();
        if chars_equal(&hay[i..end], needle) {
            return true;
        }
        i = i + 1;
    }
    false
}

/// Reads the value of `TOR_PT_SERVER_BINDADDRS` against that of
/// `TOR_PT_SERVER_TRANSPORTS`.
fn read_bindaddrs(transports: &[char], bindaddrs: &[char]) -> (r: Vec<BindAddr>)
    ensures
        bindings(r@) == bind_entries(transports@, bindaddrs@),
{
    let parts = split_chars(bindaddrs, ',');
    let ghost ps = texts(parts@);
    let ghost f = |part: Seq<char>| bind_entry(transports@, part);
    let mut out: Vec<BindAddr> = Vec::new();
    let mut i: usize = 0;
    assert(ps.take(0) =~= Seq::<Seq<char>>::empty());
    while i < parts.len()
        invariant
            ps == texts(parts@),
            ps == split_on(bindaddrs@, ','),
            f == (|part: Seq<char>| bind_entry(transports@, part)),
            i <= parts.len(),
            bindings(out@) == ps.take(i as int).filter_map(f),
        decreases parts.len() - i,
    {
        proof {
            ps.lemma_filter_map_take_succ(f, i as int);
        }
        assert(parts@[i as int]@ == ps[i as int]);
        let kv = split_chars(parts[i].as_slice(), '-');
        let ghost kvs = texts(kv@);
        let ghost old_out = bindings(out@);
        if kv.len() == 2 {
            assert(kv@[0]@ == kvs[0] && kv@[1]@ == kvs[1]);
            if contains_chars(transports, kv[0].as_slice()) {
                match parse_socket(kv[1].as_slice()) {
                    Some(addr) => {
                        let method_name = string_of(kv[0].as_slice());
                        out.push(BindAddr { method_name, addr });
                        assert(bindings(out@) =~= old_out + seq![(kvs[0], addr@)]);
                    },
                    None => {},
                }
            }
        }
        i = i + 1;
    }
    assert(ps.take(parts.len() as int) =~= ps);
    out
}

/// The value of an optional socket address.
pub open spec fn address_view(a: Option<SocketAddress>) -> Option<SpecSocketAddress> {
    match a {
        Some(a) => Some(a@),
        None => None,
    }
}

/// The ORPort that the value of `TOR_PT_ORPORT` gives: none when it is unset
/// or is not a socket address text.
pub open spec fn or_port_of(or_port: Option<&str>) -> Option<SpecSocketAddress> {
    match or_port {
        Some(s) => socket_text(s@),
        None => None,
    }
}

/// Any socket address text that `TOR_PT_ORPORT` holds is the ORPort,
/// IPv4 or IPv6 alike.
pub proof fn lemma_or_port_parses(s: &str)
    ensures
        or_port_of(Some(s)) == socket_text(s@),
{
}

/// Reads the value of `TOR_PT_ORPORT`.
fn read_or_port(or_port: Option<&str>) -> (r: Option<SocketAddress>)
    ensures
        address_view(r) == match or_port {
            Some(s) => socket_text(s@),
            None => None,
        },
{
    match or_port {
        Some(s) => {
            let cs = chars_of(s);
            parse_socket(cs.as_slice())
        },
        None => None,
    }
}

/// The server setup from the values of `TOR_PT_MANAGED_TRANSPORT_VER`,
/// `TOR_PT_SERVER_TRANSPORTS`, `TOR_PT_SERVER_BINDADDRS` and `TOR_PT_ORPORT`
/// (`None`: unset). The first three are required, in that order; the ORPort
/// is optional and ignored when it does not parse.
pub fn server_setup(
    managed_transport_ver: Option<&str>,
    server_transports: Option<&str>,
    server_bindaddrs: Option<&str>,
    or_port: Option<&str>,
) -> (r: Result<ServerInfo, String>)
    ensures
        match (managed_transport_ver, server_transports, server_bindaddrs) {
            (None, _, _) => r matches Err(e) && e@ == "TOR_PT_MANAGED_TRANSPORT_VER not set"@,
            (Some(_), None, _) => r matches Err(e) && e@ == "TOR_PT_SERVER_TRANSPORTS not set"@,
            (Some(_), Some(_), None) => r matches Err(e) && e@
                == "TOR_PT_SERVER_BINDADDRS not set"@,
            (Some(_), Some(t), Some(b)) => r matches Ok(info) && bindings(info.bindaddrs@)
                == bind_entries(t@, b@) && address_view(info.or_port) == match or_port {
                Some(s) => socket_text(s@),
                None => None,
            },
        },
{
    if managed_transport_ver.is_none() {
        return Err(String::from_str("TOR_PT_MANAGED_TRANSPORT_VER not set"));
    }
    let transports = match server_transports {
        Some(t) => t,
        None => {
            return Err(String::from_str("TOR_PT_SERVER_TRANSPORTS not set"));
        },
    };
    let bindaddrs_str = match server_bindaddrs {
        Some(b) => b,
        None => {
            return Err(String::from_str("TOR_PT_SERVER_BINDADDRS not set"));
        },
    };
    let or_port = read_or_port(or_port);
    let t = chars_of(transports);
    let b = chars_of(bindaddrs_str);
    let bindaddrs = read_bindaddrs(t.as_slice(), b.as_slice());
    Ok(ServerInfo { bindaddrs, or_port })
}

/// `SMETHOD <method> <address>`, the line that tells tor where a transport
/// method is served.
pub open spec fn smethod_text(method: Seq<char>, addr: SpecSocketAddress) -> Seq<char> {
    seq!['S', 'M', 'E', 'T', 'H', 'O', 'D', ' '] + method + seq![' '] + socket_display(addr)
}

/// The `SMETHOD` line for a method served at `addr`.
pub fn smethod_line(method: &str, addr: SocketAddress) -> (r: String)
    ensures
        r@ == smethod_text(method@, addr@),
{
    let mut out: Vec<char> = Vec::new();
    let head = ['S', 'M', 'E', 'T', 'H', 'O', 'D', ' '];
    let mut m = chars_of(method);
    let mut a = socket_text_of(addr);
    let mut i: usize = 0;
    while i < 8
        invariant
            i <= 8,
            out@ == head@.take(i as int),
        decreases 8 - i,
    {
        out.push(head[i]);
        i = i + 1;
        assert(out@ =~= head@.take(i as int));
    }
    out.append(&mut m);
    out.push(' ');
    out.append(&mut a);
    assert(head@.take(8) =~= seq!['S', 'M', 'E', 'T', 'H', 'O', 'D', ' ']);
    assert(out@ =~= smethod_text(method@, addr@));
    string_of(out.as_slice())
}

} // verus!
