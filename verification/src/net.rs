//! IP and socket addresses: their values and their textual forms, read as
//! the standard library reads `IpAddr` and `SocketAddr`.
use vstd::prelude::*;

use crate::text::{chars_of, split_chars, split_on, texts};

verus! {

// ---------------------------------------------------------------------------
// Digits and numbers
// ---------------------------------------------------------------------------

/// Whether `c` is a digit in base `radix` (10 or 16; both cases of letters).
pub open spec fn is_digit(c: char, radix: nat) -> bool {
    ||| ('0' <= c && c <= '9')
    ||| (radix == 16 && (('a' <= c && c <= 'f') || ('A' <= c && c <= 'F')))
}

/// The value of a digit character.
pub open spec fn digit_value(c: char) -> nat {
    if '0' <= c && c <= '9' {
        (c as int - '0' as int) as nat
    } else if 'a' <= c && c <= 'f' {
        (c as int - 'a' as int + 10) as nat
    } else {
        (c as int - 'A' as int + 10) as nat
    }
}

/// The value of a string of digits in base `radix`, most significant first.
pub open spec fn number_value(s: Seq<char>, radix: nat) -> nat
    decreases s.len(),
{
    if s.len() == 0 {
        0
    } else {
        number_value(s.drop_last(), radix) * radix + digit_value(s.last())
    }
}

/// Every character of `s` is a digit in base `radix`.
pub open spec fn all_digits(s: Seq<char>, radix: nat) -> bool {
    forall|i: int| 0 <= i < s.len() ==> is_digit(#[trigger] s[i], radix)
}

/// A non-empty string of base-`radix` digits whose value is at most `max`.
pub open spec fn number_text(s: Seq<char>, radix: nat, max: nat) -> Option<nat> {
    if s.len() > 0 && all_digits(s, radix) && number_value(s, radix) <= max {
        Some(number_value(s, radix))
    } else {
        None
    }
}

/// A prefix never has a larger value than the whole string.
proof fn lemma_number_value_prefix(s: Seq<char>, i: int, radix: nat)
    requires
        0 <= i <= s.len(),
        radix >= 1,
    ensures
        number_value(s.take(i), radix) <= number_value(s, radix),
    decreases s.len(),
{
    if i < s.len() {
        assert(s.drop_last().take(i) =~= s.take(i));
        lemma_number_value_prefix(s.drop_last(), i, radix);
        let v = number_value(s.drop_last(), radix);
        assert(v <= v * radix) by (nonlinear_arith)
            requires
                radix >= 1,
        ;
    } else {
        assert(s.take(i) =~= s);
    }
}

/// The value of a digit character, if it is one in base `radix`.
fn digit(c: char, radix: u32) -> (r: Option<u32>)
    requires
        radix == 10 || radix == 16,
    ensures
        r == (if is_digit(c, radix as nat) {
            Some(digit_value(c) as u32)
        } else {
            None::<u32>
        }),
{
    if '0' <= c && c <= '9' {
        Some((c as u32) - ('0' as u32))
    } else if radix == 16 && 'a' <= c && c <= 'f' {
        Some((c as u32) - ('a' as u32) + 10)
    } else if radix == 16 && 'A' <= c && c <= 'F' {
        Some((c as u32) - ('A' as u32) + 10)
    } else {
        None
    }
}

/// Reads `s` as a number in base `radix` that is at most `max`.
pub fn parse_number(s: &[char], radix: u32, max: u32) -> (r: Option<u32>)
    requires
        radix == 10 || radix == 16,
    ensures
        r matches Some(v) ==> number_text(s@, radix as nat, max as nat) == Some(v as nat),
        r is None ==> number_text(s@, radix as nat, max as nat) is None,
{
    if s.len() == 0 {
        return None;
    }
    let mut v: u64 = 0;
    let mut i: usize = 0;
    assert(s@.take(0) =~= Seq::<char>::empty());
    while i < s.len()
        invariant
            radix == 10 || radix == 16,
            i <= s.len(),
            v == number_value(s@.take(i as int), radix as nat),
            v <= max,
            all_digits(s@.take(i as int), radix as nat),
        decreases s.len() - i,
    {
        let c = s[i];
        assert(s@.take(i + 1).drop_last() =~= s@.take(i as int));
        match digit(c, radix) {
            None => {
                assert(!is_digit(s@[i as int], radix as nat));
                return None;
            },
            Some(d) => {
                assert(v * (radix as u64) <= (max as u64) * 16) by (nonlinear_arith)
                    requires
                        v <= max,
                        radix <= 16,
                ;
                v = v * (radix as u64) + (d as u64);
                i = i + 1;
                assert(all_digits(s@.take(i as int), radix as nat)) by {
                    assert forall|j: int| 0 <= j < i implies is_digit(
                        #[trigger] s@.take(i as int)[j],
                        radix as nat,
                    ) by {
                        if j < i - 1 {
                            assert(s@.take(i as int)[j] == s@.take(i - 1)[j]);
                        }
                    }
                }
                if v > (max as u64) {
                    proof {
                        lemma_number_value_prefix(s@, i as int, radix as nat);
                    }
                    return None;
                }
            },
        }
    }
    assert(s@.take(s.len() as int) =~= s@);
    Some(v as u32)
}

// ---------------------------------------------------------------------------
// IP addresses
// ---------------------------------------------------------------------------

/// An IP address: four octets, or eight 16-bit segments.
#[derive(Clone, Copy, Debug, PartialEq, Eq)]
pub enum IpAddress {
    V4([u8; 4]),
    V6([u16; 8]),
}

/// The mathematical value of an [`IpAddress`].
pub enum SpecIpAddress {
    V4(Seq<u8>),
    V6(Seq<u16>),
}

impl View for IpAddress {
    type V = SpecIpAddress;

    open spec fn view(&self) -> SpecIpAddress {
        match self {
            IpAddress::V4(o) => SpecIpAddress::V4(o@),
            IpAddress::V6(g) => SpecIpAddress::V6(g@),
        }
    }
}

/// A decimal octet of a dotted IPv4 text: one to three digits, no leading
/// zero unless it is the only digit, value at most 255.
pub open spec fn dec_octet(s: Seq<char>) -> Option<u8> {
    if s.len() <= 3 && (s.len() <= 1 || s[0] != '0') {
        match number_text(s, 10, 255) {
            Some(v) => Some(v as u8),
            None => None,
        }
    } else {
        None
    }
}

/// A dotted IPv4 text: four decimal octets separated by `.`.
pub open spec fn ipv4_text(s: Seq<char>) -> Option<Seq<u8>> {
    let parts = split_on(s, '.');
    if parts.len() == 4 && (forall|i: int| 0 <= i < 4 ==> (#[trigger] dec_octet(parts[i])) is Some) {
        Some(Seq::new(4, |i: int| dec_octet(parts[i]).unwrap()))
    } else {
        None
    }
}

/// A group of an IPv6 text: one to four hexadecimal digits.
pub open spec fn hex_group(s: Seq<char>) -> Option<u16> {
    if s.len() <= 4 {
        match number_text(s, 16, 0xffff) {
            Some(v) => Some(v as u16),
            None => None,
        }
    } else {
        None
    }
}

/// The two 16-bit segments that an embedded IPv4 address stands for.
pub open spec fn v4_segments(o: Seq<u8>) -> Seq<u16> {
    seq![(o[0] as int * 256 + o[1] as int) as u16, (o[2] as int * 256 + o[3] as int) as u16]
}

/// A `:`-separated list of hexadecimal groups (empty text: no group). With
/// `allow_v4`, the last element may instead be a dotted IPv4 text, which
/// stands for two segments.
pub open spec fn group_list(s: Seq<char>, allow_v4: bool) -> Option<Seq<u16>> {
    if s.len() == 0 {
        Some(Seq::<u16>::empty())
    } else {
        let parts = split_on(s, ':');
        let n = parts.len();
        if n >= 1 && forall|i: int| 0 <= i < n - 1 ==> (#[trigger] hex_group(parts[i])) is Some {
            let init = Seq::new((n - 1) as nat, |i: int| hex_group(parts[i]).unwrap());
            match hex_group(parts[n - 1]) {
                Some(g) => Some(init.push(g)),
                None => if allow_v4 {
                    match ipv4_text(parts[n - 1]) {
                        Some(o) => Some(init + v4_segments(o)),
                        None => None,
                    }
                } else {
                    None
                },
            }
        } else {
            None
        }
    }
}

/// The first index `k >= from` at which `c` occurs twice in a row.
pub open spec fn first_pair(s: Seq<char>, c: char, from: int) -> Option<int>
    decreases s.len() - from,
{
    if from < 0 || from + 1 >= s.len() {
        None
    } else if s[from] == c && s[from + 1] == c {
        Some(from)
    } else {
        first_pair(s, c, from + 1)
    }
}

/// An IPv6 text: eight groups (the last two may be written as a dotted IPv4
/// text), or groups before and after the first `::`, which stands for the
/// one or more zero segments that make up eight.
pub open spec fn ipv6_text(s: Seq<char>) -> Option<Seq<u16>> {
    match first_pair(s, ':', 0) {
        Some(k) => match (group_list(s.take(k), false), group_list(s.skip(k + 2), true)) {
            (Some(h), Some(t)) => if h.len() + t.len() <= 7 {
                Some(h + Seq::new((8 - h.len() - t.len()) as nat, |i: int| 0u16) + t)
            } else {
                None
            },
            _ => None,
        },
        None => match group_list(s, true) {
            Some(g) => if g.len() == 8 {
                Some(g)
            } else {
                None
            },
            None => None,
        },
    }
}

/// An IP address text, as `str::parse::<IpAddr>` accepts it: an IPv4 text,
/// else an IPv6 text.
pub open spec fn ip_text(s: Seq<char>) -> Option<SpecIpAddress> {
    match ipv4_text(s) {
        Some(o) => Some(SpecIpAddress::V4(o)),
        None => match ipv6_text(s) {
            Some(g) => Some(SpecIpAddress::V6(g)),
            None => None,
        },
    }
}

/// Reads a decimal octet.
fn parse_dec_octet(s: &[char]) -> (r: Option<u8>)
    ensures
        r == dec_octet(s@),
{
    if s.len() > 3 || (s.len() > 1 && s[0] == '0') {
        return None;
    }
    match parse_number(s, 10, 255) {
        Some(v) => Some(v as u8),
        None => None,
    }
}

/// Reads a dotted IPv4 text.
pub fn parse_ipv4(s: &[char]) -> (r: Option<[u8; 4]>)
    ensures
        r matches Some(a) ==> ipv4_text(s@) == Some(a@),
        r is None ==> ipv4_text(s@) is None,
{
    let parts = split_chars(s, '.');
    let ghost ps = texts(parts@);
    if parts.len() != 4 {
        return None;
    }
    assert(parts@[0]@ == ps[0] && parts@[1]@ == ps[1] && parts@[2]@ == ps[2] && parts@[3]@ == ps[3]);
    let o0 = parse_dec_octet(parts[0].as_slice());
    let o1 = parse_dec_octet(parts[1].as_slice());
    let o2 = parse_dec_octet(parts[2].as_slice());
    let o3 = parse_dec_octet(parts[3].as_slice());
    match (o0, o1, o2, o3) {
        (Some(a), Some(b), Some(c), Some(d)) => {
            let arr = [a, b, c, d];
            assert(arr@ =~= Seq::new(4, |i: int| dec_octet(ps[i]).unwrap()));
            Some(arr)
        },
        _ => {
            assert(!(forall|i: int| 0 <= i < 4 ==> (#[trigger] dec_octet(ps[i])) is Some)) by {
                if o0 is None {
                    assert(dec_octet(ps[0]) is None);
                } else if o1 is None {
                    assert(dec_octet(ps[1]) is None);
                } else if o2 is None {
                    assert(dec_octet(ps[2]) is None);
                } else {
                    assert(dec_octet(ps[3]) is None);
                }
            }
            None
        },
    }
}

/// Reads a hexadecimal group.
fn parse_hex_group(s: &[char]) -> (r: Option<u16>)
    ensures
        r == hex_group(s@),
{
    if s.len() > 4 {
        return None;
    }
    match parse_number(s, 16, 0xffff) {
        Some(v) => Some(v as u16),
        None => None,
    }
}

/// Reads a `:`-separated list of groups (see [`group_list`]).
fn parse_group_list(s: &[char], allow_v4: bool) -> (r: Option<Vec<u16>>)
    ensures
        r matches Some(g) ==> group_list(s@, allow_v4) == Some(g@),
        r is None ==> group_list(s@, allow_v4) is None,
{
    if s.len() == 0 {
        return Some(Vec::new());
    }
    let parts = split_chars(s, ':');
    let ghost ps = texts(parts@);
    proof {
        crate::text::lemma_split_on_nonempty(s@, ':');
    }
    let n = parts.len();
    let mut out: Vec<u16> = Vec::new();
    let mut i: usize = 0;
    while i < n - 1
        invariant
            n == parts@.len(),
            n >= 1,
            ps == texts(parts@),
            ps == split_on(s@, ':'),
            i <= n - 1,
            forall|j: int| 0 <= j < i ==> (#[trigger] hex_group(ps[j])) is Some,
            out@ == Seq::new(i as nat, |j: int| hex_group(ps[j]).unwrap()),
        decreases n - 1 - i,
    {
        assert(parts@[i as int]@ == ps[i as int]);
        match parse_hex_group(parts[i].as_slice()) {
            Some(g) => {
                out.push(g);
                i = i + 1;
                assert(out@ =~= Seq::new(i as nat, |j: int| hex_group(ps[j]).unwrap()));
            },
            None => {
                assert(hex_group(ps[i as int]) is None);
                return None;
            },
        }
    }
    let ghost init = out@;
    assert(parts@[n - 1]@ == ps[n - 1]);
    match parse_hex_group(parts[n - 1].as_slice()) {
        Some(g) => {
            out.push(g);
            Some(out)
        },
        None => {
            if !allow_v4 {
                return None;
            }
            match parse_ipv4(parts[n - 1].as_slice()) {
                Some(o) => {
                    let hi = (o[0] as u16) * 256 + (o[1] as u16);
                    let lo = (o[2] as u16) * 256 + (o[3] as u16);
                    out.push(hi);
                    out.push(lo);
                    assert(out@ =~= init + v4_segments(o@));
                    Some(out)
                },
                None => None,
            }
        },
    }
}

/// Finds the first index at which `c` occurs twice in a row.
fn find_pair(s: &[char], c: char) -> (r: Option<usize>)
    ensures
        r matches Some(k) ==> first_pair(s@, c, 0) == Some(k as int) && k + 1 < s@.len(),
        r is None ==> first_pair(s@, c, 0) is None,
{
    let mut i: usize = 0;
    while i < s.len() && s.len() - i > 1
        invariant
            i <= s.len(),
            first_pair(s@, c, 0) == first_pair(s@, c, i as int),
        decreases s.len() - i,
    {
        if s[i] == c && s[i + 1] == c {
            return Some(i);
        }
        i = i + 1;
    }
    None
}

/// Reads an IPv6 text.
pub fn parse_ipv6(s: &[char]) -> (r: Option<[u16; 8]>)
    ensures
        r matches Some(a) ==> ipv6_text(s@) == Some(a@),
        r is None ==> ipv6_text(s@) is None,
{
    let found = find_pair(s, ':');
    let groups: Vec<u16> = match found {
        Some(k) => {
            let len = s.len();
            assert(k + 2 <= len);
            let head = parse_group_list(&s[0..k], false);
            let tail = parse_group_list(&s[k + 2..s.len()], true);
            assert(s@.subrange(0, k as int) =~= s@.take(k as int));
            assert(s@.subrange(k + 2, s@.len() as int) =~= s@.skip(k + 2));
            match (head, tail) {
                (Some(h), Some(t)) => {
                    if h.len() > 7 || t.len() > 7 - h.len() {
                        return None;
                    }
                    let zeros = 8 - h.len() - t.len();
                    let mut g = h;
                    let ghost hv = g@;
                    let mut j: usize = 0;
                    while j < zeros
                        invariant
                            j <= zeros,
                            g@ == hv + Seq::new(j as nat, |i: int| 0u16),
                        decreases zeros - j,
                    {
                        g.push(0);
                        j = j + 1;
                        assert(g@ =~= hv + Seq::new(j as nat, |i: int| 0u16));
                    }
                    let ghost mid = g@;
                    let mut j: usize = 0;
                    while j < t.len()
                        invariant
                            j <= t.len(),
                            g@ == mid + t@.take(j as int),
                        decreases t.len() - j,
                    {
                        g.push(t[j]);
                        j = j + 1;
                        assert(g@ =~= mid + t@.take(j as int));
                    }
                    assert(t@.take(t.len() as int) =~= t@);
                    g
                },
                _ => {
                    return None;
                },
            }
        },
        None => {
            match parse_group_list(s, true) {
                Some(g) => {
                    if g.len() != 8 {
                        return None;
                    }
                    g
                },
                None => {
                    return None;
                },
            }
        },
    };
    assert(groups@.len() == 8);
    let arr = [
        groups[0],
        groups[1],
        groups[2],
        groups[3],
        groups[4],
        groups[5],
        groups[6],
        groups[7],
    ];
    assert(arr@ =~= groups@);
    Some(arr)
}

/// Reads an IP address text (see [`ip_text`]).
pub fn parse_ip(s: &[char]) -> (r: Option<IpAddress>)
    ensures
        r matches Some(a) ==> ip_text(s@) == Some(a@),
        r is None ==> ip_text(s@) is None,
{
    match parse_ipv4(s) {
        Some(o) => Some(IpAddress::V4(o)),
        None => match parse_ipv6(s) {
            Some(g) => Some(IpAddress::V6(g)),
            None => None,
        },
    }
}

// ---------------------------------------------------------------------------
// Socket addresses
// ---------------------------------------------------------------------------

/// A socket address: an IPv4 address and port, or an IPv6 address, port and
/// scope id.
#[derive(Clone, Copy, Debug, PartialEq, Eq)]
#[allow(inconsistent_fields)]
pub enum SocketAddress {
    V4 { ip: [u8; 4], port: u16 },
    V6 { ip: [u16; 8], port: u16, scope_id: u32 },
}

/// The mathematical value of a [`SocketAddress`].
pub enum SpecSocketAddress {
    V4(Seq<u8>, u16),
    V6(Seq<u16>, u16, u32),
}

impl View for SocketAddress {
    type V = SpecSocketAddress;

    open spec fn view(&self) -> SpecSocketAddress {
        match self {
            SocketAddress::V4 { ip, port } => SpecSocketAddress::V4(ip@, *port),
            SocketAddress::V6 { ip, port, scope_id } => SpecSocketAddress::V6(ip@, *port, *scope_id),
        }
    }
}

/// The first index `k >= from` at which `c` occurs.
pub open spec fn first_index(s: Seq<char>, c: char, from: int) -> Option<int>
    decreases s.len() - from,
{
    if from < 0 || from >= s.len() {
        None
    } else if s[from] == c {
        Some(from)
    } else {
        first_index(s, c, from + 1)
    }
}

/// A port: decimal digits (leading zeros allowed) with value at most 65535.
pub open spec fn port_text(s: Seq<char>) -> Option<u16> {
    match number_text(s, 10, 0xffff) {
        Some(v) => Some(v as u16),
        None => None,
    }
}

/// A scope id: decimal digits (leading zeros allowed) that fit in a `u32`.
pub open spec fn scope_text(s: Seq<char>) -> Option<u32> {
    match number_text(s, 10, 0xffff_ffff) {
        Some(v) => Some(v as u32),
        None => None,
    }
}

/// `a.b.c.d:port`.
pub open spec fn socket_v4_text(s: Seq<char>) -> Option<SpecSocketAddress> {
    match first_index(s, ':', 0) {
        Some(i) => match (ipv4_text(s.take(i)), port_text(s.skip(i + 1))) {
            (Some(a), Some(p)) => Some(SpecSocketAddress::V4(a, p)),
            _ => None,
        },
        None => None,
    }
}

/// `[address]:port` or `[address%scope]:port`, the address an IPv6 text.
pub open spec fn socket_v6_text(s: Seq<char>) -> Option<SpecSocketAddress> {
    if s.len() > 0 && s[0] == '[' {
        match first_index(s, ']', 0) {
            Some(j) => {
                let inner = s.subrange(1, j);
                let rest = s.skip(j + 1);
                if rest.len() > 0 && rest[0] == ':' {
                    match port_text(rest.skip(1)) {
                        Some(p) => match first_index(inner, '%', 0) {
                            Some(q) => match (ipv6_text(inner.take(q)), scope_text(inner.skip(q + 1))) {
                                (Some(a), Some(sc)) => Some(SpecSocketAddress::V6(a, p, sc)),
                                _ => None,
                            },
                            None => match ipv6_text(inner) {
                                Some(a) => Some(SpecSocketAddress::V6(a, p, 0)),
                                None => None,
                            },
                        },
                        None => None,
                    }
                } else {
                    None
                }
            },
            None => None,
        }
    } else {
        None
    }
}

/// A socket address text, as `str::parse::<SocketAddr>` accepts it.
pub open spec fn socket_text(s: Seq<char>) -> Option<SpecSocketAddress> {
    match socket_v4_text(s) {
        Some(a) => Some(a),
        None => socket_v6_text(s),
    }
}

/// Finds the first occurrence of `c`.
fn find_char(s: &[char], c: char) -> (r: Option<usize>)
    ensures
        r matches Some(k) ==> first_index(s@, c, 0) == Some(k as int) && k < s@.len() && s@[k as int]
            == c,
        r is None ==> first_index(s@, c, 0) is None,
{
    let mut i: usize = 0;
    while i < s.len()
        invariant
            i <= s.len(),
            first_index(s@, c, 0) == first_index(s@, c, i as int),
        decreases s.len() - i,
    {
        if s[i] == c {
            return Some(i);
        }
        i = i + 1;
    }
    None
}

/// Reads `a.b.c.d:port`.
fn parse_socket_v4(s: &[char]) -> (r: Option<SocketAddress>)
    ensures
        r matches Some(a) ==> socket_v4_text(s@) == Some(a@),
        r is None ==> socket_v4_text(s@) is None,
{
    match find_char(s, ':') {
        Some(i) => {
            assert(s@.subrange(0, i as int) =~= s@.take(i as int));
            assert(s@.subrange(i + 1, s@.len() as int) =~= s@.skip(i + 1));
            let len = s.len();
            assert(i + 1 <= len);
            let ip = parse_ipv4(&s[0..i]);
            let port = parse_number(&s[i + 1..s.len()], 10, 0xffff);
            match (ip, port) {
                (Some(a), Some(p)) => Some(SocketAddress::V4 { ip: a, port: p as u16 }),
                _ => None,
            }
        },
        None => None,
    }
}

/// Reads `[address]:port` or `[address%scope]:port`.
fn parse_socket_v6(s: &[char]) -> (r: Option<SocketAddress>)
    ensures
        r matches Some(a) ==> socket_v6_text(s@) == Some(a@),
        r is None ==> socket_v6_text(s@) is None,
{
    if s.len() == 0 || s[0] != '[' {
        return None;
    }
    let j = match find_char(s, ']') {
        Some(j) => j,
        None => {
            return None;
        },
    };
    assert(j >= 1);
    let inner = &s[1..j];
    let rest = &s[j + 1..s.len()];
    assert(rest@ =~= s@.skip(j + 1));
    if rest.len() == 0 || rest[0] != ':' {
        return None;
    }
    let port_digits = &rest[1..rest.len()];
    assert(port_digits@ =~= rest@.skip(1));
    let port = match parse_number(port_digits, 10, 0xffff) {
        Some(p) => p as u16,
        None => {
            return None;
        },
    };
    match find_char(inner, '%') {
        Some(q) => {
            assert(inner@.subrange(0, q as int) =~= inner@.take(q as int));
            assert(inner@.subrange(q + 1, inner@.len() as int) =~= inner@.skip(q + 1));
            let ip = parse_ipv6(&inner[0..q]);
            let scope = parse_number(&inner[q + 1..inner.len()], 10, 0xffff_ffff);
            match (ip, scope) {
                (Some(a), Some(sc)) => Some(SocketAddress::V6 { ip: a, port, scope_id: sc }),
                _ => None,
            }
        },
        None => match parse_ipv6(inner) {
            Some(a) => Some(SocketAddress::V6 { ip: a, port, scope_id: 0 }),
            None => None,
        },
    }
}

/// Reads a socket address text (see [`socket_text`]).
pub fn parse_socket(s: &[char]) -> (r: Option<SocketAddress>)
    ensures
        r matches Some(a) ==> socket_text(s@) == Some(a@),
        r is None ==> socket_text(s@) is None,
{
    match parse_socket_v4(s) {
        Some(a) => Some(a),
        None => parse_socket_v6(s),
    }
}

/// Reads an IP address text, as `str::parse::<IpAddr>` does.
pub fn parse_ip_address(s: &str) -> (r: Option<IpAddress>)
    ensures
        r matches Some(a) ==> ip_text(s@) == Some(a@),
        r is None ==> ip_text(s@) is None,
{
    let cs = chars_of(s);
    parse_ip(cs.as_slice())
}

/// Reads a socket address text, as `str::parse::<SocketAddr>` does.
pub fn parse_socket_address(s: &str) -> (r: Option<SocketAddress>)
    ensures
        r matches Some(a) ==> socket_text(s@) == Some(a@),
        r is None ==> socket_text(s@) is None,
{
    let cs = chars_of(s);
    parse_socket(cs.as_slice())
}

} // verus!
