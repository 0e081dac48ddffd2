//! Session ids, local addresses, and removal of local host candidates from
//! an SDP answer.
use vstd::prelude::*;

use base64::{engine::general_purpose, Engine as _};
use rand::{thread_rng, Rng};

use crate::net::{IpAddress, SpecIpAddress, ip_text, parse_ip};
use crate::text::{
    lemma_words_append, spec_is_whitespace,
    lemma_lines_lack_newline, lemma_lines_of_crlf, lemma_lines_of_terminated, chars_of, crlf, join_crlf_terminated, join_with, lines, lines_of, starts_with,
    starts_with_chars, string_of, texts, words, words_of, chars_equal,
};

verus! {

// ---------------------------------------------------------------------------
// Addresses
// ---------------------------------------------------------------------------

/// A private or otherwise non-public address: 10.0.0.0/8, 172.16.0.0/12,
/// 192.168.0.0/16, 100.64.0.0/10 (shared address space), 169.254.0.0/16
/// (link local), and the IPv6 unique local range fc00::/7.
pub open spec fn spec_is_local(a: SpecIpAddress) -> bool {
    match a {
        SpecIpAddress::V4(o) => {
            ||| o[0] == 10
            ||| (o[0] == 172 && 16 <= o[1] && o[1] < 32)
            ||| (o[0] == 192 && o[1] == 168)
            ||| (o[0] == 100 && 64 <= o[1] && o[1] < 128)
            ||| (o[0] == 169 && o[1] == 254)
        },
        SpecIpAddress::V6(g) => 0xfc00 <= g[0] && g[0] <= 0xfdff,
    }
}

/// The unspecified address: `0.0.0.0` or `::`.
pub open spec fn spec_is_unspecified(a: SpecIpAddress) -> bool {
    match a {
        SpecIpAddress::V4(o) => (forall|i: int| 0 <= i < 4 ==> #[trigger] o[i] == 0),
        SpecIpAddress::V6(g) => (forall|i: int| 0 <= i < 8 ==> #[trigger] g[i] == 0),
    }
}

/// A loopback address: `127.0.0.0/8`, or `::1`.
pub open spec fn spec_is_loopback(a: SpecIpAddress) -> bool {
    match a {
        SpecIpAddress::V4(o) => o[0] == 127,
        SpecIpAddress::V6(g) => (forall|i: int| 0 <= i < 7 ==> #[trigger] g[i] == 0) && g[7] == 1,
    }
}

/// The number that four octets spell, the first the most significant.
pub open spec fn ipv4_number(o: Seq<u8>) -> int {
    o[0] * 0x1000000 + o[1] * 0x10000 + o[2] * 0x100 + o[3]
}

/// Whether `n` lies in the block of `size` numbers that starts at `base`.
pub open spec fn in_block(n: int, base: int, size: int) -> bool {
    base <= n < base + size
}

/// The IPv4 blocks, as ranges of address numbers: an IPv4 address is local
/// exactly when it lies in 10.0.0.0/8, 172.16.0.0/12, 192.168.0.0/16,
/// 100.64.0.0/10 or 169.254.0.0/16; loopback exactly in 127.0.0.0/8; and
/// unspecified exactly when it is 0.0.0.0.
pub proof fn lemma_ipv4_blocks(o: Seq<u8>)
    requires
        o.len() == 4,
    ensures
        spec_is_local(SpecIpAddress::V4(o)) <==> {
            ||| in_block(ipv4_number(o), 0x0a000000, 0x1000000)
            ||| in_block(ipv4_number(o), 0xac100000, 0x100000)
            ||| in_block(ipv4_number(o), 0xc0a80000, 0x10000)
            ||| in_block(ipv4_number(o), 0x64400000, 0x400000)
            ||| in_block(ipv4_number(o), 0xa9fe0000, 0x10000)
        },
        spec_is_loopback(SpecIpAddress::V4(o)) <==> in_block(ipv4_number(o), 0x7f000000, 0x1000000),
        spec_is_unspecified(SpecIpAddress::V4(o)) <==> ipv4_number(o) == 0,
{
    let n = ipv4_number(o);
    let low = o[2] * 0x100 + o[3];
    assert(0 <= low < 0x10000);
    assert(0 <= o[1] * 0x10000 + low < 0x1000000);
    assert(n == o[0] * 0x1000000 + o[1] * 0x10000 + low);
    let a = SpecIpAddress::V4(o);
    assert(a matches SpecIpAddress::V4(oo) && oo == o);
    if spec_is_unspecified(a) {
        assert(o[0] == 0 && o[1] == 0 && o[2] == 0 && o[3] == 0);
    }
    if n == 0 {
        assert forall|i: int| 0 <= i < 4 implies #[trigger] o[i] == 0 by {}
    }
}

/// The IPv6 blocks: an IPv6 address is local exactly when its first segment
/// lies in fc00::/7; loopback exactly when it is ::1; and unspecified exactly
/// when it is ::.
pub proof fn lemma_ipv6_blocks(g: Seq<u16>)
    requires
        g.len() == 8,
    ensures
        spec_is_local(SpecIpAddress::V6(g)) <==> in_block(g[0] as int, 0xfc00, 0x200),
        spec_is_loopback(SpecIpAddress::V6(g)) <==> g == seq![0u16, 0, 0, 0, 0, 0, 0, 1],
        spec_is_unspecified(SpecIpAddress::V6(g)) <==> g == seq![0u16, 0, 0, 0, 0, 0, 0, 0],
{
    let a = SpecIpAddress::V6(g);
    assert(a matches SpecIpAddress::V6(gg) && gg == g);
    if spec_is_loopback(SpecIpAddress::V6(g)) {
        assert(g =~= seq![0u16, 0, 0, 0, 0, 0, 0, 1]) by {
            assert(g[0] == 0 && g[1] == 0 && g[2] == 0 && g[3] == 0);
            assert(g[4] == 0 && g[5] == 0 && g[6] == 0);
        }
    }
    if spec_is_unspecified(SpecIpAddress::V6(g)) {
        assert(g =~= seq![0u16, 0, 0, 0, 0, 0, 0, 0]) by {
            assert(g[0] == 0 && g[1] == 0 && g[2] == 0 && g[3] == 0);
            assert(g[4] == 0 && g[5] == 0 && g[6] == 0 && g[7] == 0);
        }
    }
}

/// Whether `ip` is a local address (see [`spec_is_local`]).
pub fn is_local(ip: IpAddress) -> (r: bool)
    ensures
        r == spec_is_local(ip@),
{
    match ip {
        IpAddress::V4(octets) => {
            let a = octets[0];
            let b = octets[1];
            assert((b & 0xf0) == 16 <==> (16 <= b && b < 32)) by (bit_vector);
            assert((b & 0xc0) == 64 <==> (64 <= b && b < 128)) by (bit_vector);
            a == 10 || (a == 172 && (b & 0xf0) == 16) || (a == 192 && b == 168) || (a == 100 && (b
                & 0xc0) == 64) || (a == 169 && b == 254)
        },
        IpAddress::V6(segments) => {
            let s = segments[0];
            assert((s & 0xfe00) == 0xfc00 <==> (0xfc00 <= s && s <= 0xfdff)) by (bit_vector);
            (s & 0xfe00) == 0xfc00
        },
    }
}

/// Whether `ip` is the unspecified address.
pub fn is_unspecified(ip: IpAddress) -> (r: bool)
    ensures
        r == spec_is_unspecified(ip@),
{
    match ip {
        IpAddress::V4(o) => {
            let mut i: usize = 0;
            while i < 4
                invariant
                    i <= 4,
                    ip@ == SpecIpAddress::V4(o@),
                    forall|j: int| 0 <= j < i ==> #[trigger] o@[j] == 0,
                decreases 4 - i,
            {
                if o[i] != 0 {
                    assert(ip@ matches SpecIpAddress::V4(oo) && oo == o@);
                    assert(spec_is_unspecified(ip@) ==> o@[i as int] == 0);
                    return false;
                }
                i = i + 1;
            }
            true
        },
        IpAddress::V6(g) => {
            let mut i: usize = 0;
            while i < 8
                invariant
                    i <= 8,
                    ip@ == SpecIpAddress::V6(g@),
                    forall|j: int| 0 <= j < i ==> #[trigger] g@[j] == 0,
                decreases 8 - i,
            {
                if g[i] != 0 {
                    assert(ip@ matches SpecIpAddress::V6(gg) && gg == g@);
                    assert(spec_is_unspecified(ip@) ==> g@[i as int] == 0);
                    return false;
                }
                i = i + 1;
            }
            true
        },
    }
}

/// Whether `ip` is a loopback address.
pub fn is_loopback(ip: IpAddress) -> (r: bool)
    ensures
        r == spec_is_loopback(ip@),
{
    match ip {
        IpAddress::V4(o) => o[0] == 127,
        IpAddress::V6(g) => {
            let mut i: usize = 0;
            while i < 7
                invariant
                    i <= 7,
                    ip@ == SpecIpAddress::V6(g@),
                    forall|j: int| 0 <= j < i ==> #[trigger] g@[j] == 0,
                decreases 7 - i,
            {
                if g[i] != 0 {
                    assert(g@[i as int] != 0);
                    return false;
                }
                i = i + 1;
            }
            g[7] == 1
        },
    }
}

// ---------------------------------------------------------------------------
// SDP answers
// ---------------------------------------------------------------------------

/// `"a=candidate:"`, the start of an ICE candidate attribute line.
pub open spec fn candidate_prefix() -> Seq<char> {
    seq!['a', '=', 'c', 'a', 'n', 'd', 'i', 'd', 'a', 't', 'e', ':']
}

/// `"host"`, the candidate type of a host candidate.
pub open spec fn host_type() -> Seq<char> {
    seq!['h', 'o', 's', 't']
}

/// An address that an answer must not reveal: local, unspecified or loopback.
pub open spec fn is_hidden_address(a: SpecIpAddress) -> bool {
    spec_is_local(a) || spec_is_unspecified(a) || spec_is_loopback(a)
}

/// A candidate line of type `host` whose address (fifth word) is an IP
/// address that must not be revealed. The candidate type is the eighth word.
pub open spec fn is_hidden_host_candidate(line: Seq<char>) -> bool {
    &&& starts_with(line, candidate_prefix())
    &&& words(line).len() >= 8
    &&& words(line)[7] == host_type()
    &&& match ip_text(words(line)[4]) {
        Some(a) => is_hidden_address(a),
        None => false,
    }
}

/// The lines of an SDP text that are kept in the answer.
pub open spec fn kept_lines(sdp: Seq<char>) -> Seq<Seq<char>> {
    lines(sdp).filter(|l: Seq<char>| !is_hidden_host_candidate(l))
}

/// The answer text: the kept lines, each ended by `"\r\n"`.
pub open spec fn stripped_sdp(sdp: Seq<char>) -> Seq<char> {
    join_with(kept_lines(sdp), crlf()) + crlf()
}

/// Filtering by a predicate that every element meets changes nothing.
proof fn lemma_filter_keeps_all(ls: Seq<Seq<char>>, pred: spec_fn(Seq<char>) -> bool)
    requires
        forall|i: int| 0 <= i < ls.len() ==> pred(#[trigger] ls[i]),
    ensures
        ls.filter(pred) == ls,
    decreases ls.len(),
{
    reveal(Seq::filter);
    if ls.len() > 0 {
        let init = ls.drop_last();
        assert forall|i: int| 0 <= i < init.len() implies pred(#[trigger] init[i]) by {
            assert(init[i] == ls[i]);
        }
        lemma_filter_keeps_all(init, pred);
        assert(pred(ls[ls.len() - 1]));
        assert(init.push(ls.last()) =~= ls);
    }
}

/// The lines of an answer: the kept lines, or one empty line when none is
/// kept.
pub proof fn lemma_answer_lines(sdp: Seq<char>)
    ensures
        lines(stripped_sdp(sdp)) == (if kept_lines(sdp).len() == 0 {
            seq![Seq::<char>::empty()]
        } else {
            kept_lines(sdp)
        }),
{
    let pred = |l: Seq<char>| !is_hidden_host_candidate(l);
    let ls = lines(sdp);
    let kept = kept_lines(sdp);
    if kept.len() == 0 {
        assert(join_with(kept, crlf()) + crlf() =~= crlf());
        lemma_lines_of_crlf();
    } else {
        lemma_lines_lack_newline(sdp);
        assert forall|i: int, j: int|
            0 <= i < kept.len() && 0 <= j < kept[i].len() implies kept[i][j] != '\n' by {
            assert(kept.contains(kept[i]));
            ls.lemma_filter_contains_rev(pred, kept[i]);
            let k = choose|k: int| 0 <= k < ls.len() && ls[k] == kept[i];
            assert(ls[k][j] == kept[i][j]);
        }
        lemma_lines_of_terminated(kept);
    }
}

/// An answer reveals no host candidate with a local, unspecified or loopback
/// address: none of its lines is one.
pub proof fn lemma_answer_hides_local_candidates(sdp: Seq<char>)
    ensures
        forall|i: int|
            0 <= i < lines(stripped_sdp(sdp)).len() ==> !is_hidden_host_candidate(
                #[trigger] lines(stripped_sdp(sdp))[i],
            ),
{
    lemma_answer_lines(sdp);
    let pred = |l: Seq<char>| !is_hidden_host_candidate(l);
    let kept = kept_lines(sdp);
    if kept.len() == 0 {
        assert(!starts_with(Seq::<char>::empty(), candidate_prefix()));
    } else {
        assert forall|i: int| 0 <= i < kept.len() implies !is_hidden_host_candidate(
            #[trigger] kept[i],
        ) by {
            lines(sdp).lemma_filter_pred(pred, i);
        }
    }
}

/// Removing local host candidates a second time changes nothing.
pub proof fn lemma_strip_idempotent(sdp: Seq<char>)
    ensures
        stripped_sdp(stripped_sdp(sdp)) == stripped_sdp(sdp),
{
    let once = stripped_sdp(sdp);
    let pred = |l: Seq<char>| !is_hidden_host_candidate(l);
    lemma_answer_lines(sdp);
    lemma_answer_hides_local_candidates(sdp);
    let ls = lines(once);
    assert forall|i: int| 0 <= i < ls.len() implies pred(#[trigger] ls[i]) by {}
    lemma_filter_keeps_all(ls, pred);
    assert(kept_lines(once) == ls);
    if kept_lines(sdp).len() == 0 {
        assert(join_with(ls, crlf()) == Seq::<char>::empty());
        assert(join_with(kept_lines(sdp), crlf()) == Seq::<char>::empty());
    }
}

/// A host candidate line whose address must not be revealed stays one when
/// more words follow it: what comes after the eighth word does not matter.
pub proof fn lemma_hidden_candidate_extended(line: Seq<char>, c: char, rest: Seq<char>)
    requires
        is_hidden_host_candidate(line),
        spec_is_whitespace(c),
    ensures
        is_hidden_host_candidate(line.push(c) + rest),
{
    let longer = line.push(c) + rest;
    lemma_words_append(line, c, rest);
    assert(words(longer)[7] == words(line)[7]);
    assert(words(longer)[4] == words(line)[4]);
    assert(longer.take(candidate_prefix().len() as int) =~= line.take(
        candidate_prefix().len() as int,
    ));
}

/// A line that starts with `"a=candidate:"`, has at least eight words, the
/// eighth `"host"`, and a fifth word that is a local, unspecified or loopback
/// IP address, is not a line of the answer, whatever words follow the eighth.
pub proof fn lemma_answer_drops_hidden_candidate(sdp: Seq<char>, line: Seq<char>, a: SpecIpAddress)
    requires
        starts_with(line, candidate_prefix()),
        words(line).len() >= 8,
        words(line)[7] == host_type(),
        ip_text(words(line)[4]) == Some(a),
        spec_is_local(a) || spec_is_unspecified(a) || spec_is_loopback(a),
    ensures
        !lines(stripped_sdp(sdp)).contains(line),
{
    lemma_answer_hides_local_candidates(sdp);
    if lines(stripped_sdp(sdp)).contains(line) {
        let i = choose|i: int|
            0 <= i < lines(stripped_sdp(sdp)).len() && lines(stripped_sdp(sdp))[i] == line;
        assert(!is_hidden_host_candidate(lines(stripped_sdp(sdp))[i]));
    }
}

/// Every other line of the SDP text is a line of the answer: one that does not
/// start with `"a=candidate:"`, has fewer than eight words, has an eighth word
/// other than `"host"`, or has a fifth word that is no IP address or a public
/// one.
pub proof fn lemma_answer_keeps_other_lines(sdp: Seq<char>, line: Seq<char>)
    requires
        lines(sdp).contains(line),
    ensures
        !starts_with(line, candidate_prefix()) ==> lines(stripped_sdp(sdp)).contains(line),
        words(line).len() < 8 ==> lines(stripped_sdp(sdp)).contains(line),
        words(line).len() >= 8 && words(line)[7] != host_type() ==> lines(
            stripped_sdp(sdp),
        ).contains(line),
        words(line).len() >= 8 && ip_text(words(line)[4]) is None ==> lines(
            stripped_sdp(sdp),
        ).contains(line),
        words(line).len() >= 8 && (ip_text(words(line)[4]) matches Some(a) && !spec_is_local(a)
            && !spec_is_unspecified(a) && !spec_is_loopback(a)) ==> lines(
            stripped_sdp(sdp),
        ).contains(line),
{
    if !is_hidden_host_candidate(line) {
        let pred = |l: Seq<char>| !is_hidden_host_candidate(l);
        let k = choose|k: int| 0 <= k < lines(sdp).len() && lines(sdp)[k] == line;
        lines(sdp).lemma_filter_contains(pred, k);
        lemma_answer_lines(sdp);
    }
}

/// Whether `line` is a host candidate with an address that must not be
/// revealed.
fn hidden_host_candidate(line: &[char]) -> (r: bool)
    ensures
        r == is_hidden_host_candidate(line@),
{
    let prefix = ['a', '=', 'c', 'a', 'n', 'd', 'i', 'd', 'a', 't', 'e', ':'];
    assert(prefix@ =~= candidate_prefix());
    if !starts_with_chars(line, prefix.as_slice()) {
        return false;
    }
    let parts = words_of(line);
    let ghost ws = texts(parts@);
    if parts.len() < 8 {
        return false;
    }
    let host = ['h', 'o', 's', 't'];
    assert(host@ =~= host_type());
    assert(parts@[7]@ == ws[7]);
    if !chars_equal(parts[7].as_slice(), host.as_slice()) {
        return false;
    }
    assert(parts@[4]@ == ws[4]);
    match parse_ip(parts[4].as_slice()) {
        Some(ip) => is_local(ip) || is_unspecified(ip) || is_loopback(ip),
        None => false,
    }
}

/// Removes from an SDP text the candidate lines of type `host` whose address
/// is local, unspecified or loopback; the other lines are kept in order, each
/// ended by `"\r\n"`.
pub fn strip_local_addresses(sdp: &str) -> (r: String)
    ensures
        r@ == stripped_sdp(sdp@),
{
    let chars = chars_of(sdp);
    let all = lines_of(chars.as_slice());
    let ghost ls = texts(all@);
    let mut kept: Vec<Vec<char>> = Vec::new();
    let mut i: usize = 0;
    assert(ls.take(0) =~= Seq::<Seq<char>>::empty());
    proof {
        reveal(Seq::filter);
    }
    while i < all.len()
        invariant
            ls == texts(all@),
            ls == lines(sdp@),
            i <= all.len(),
            texts(kept@) == ls.take(i as int).filter(
                |l: Seq<char>| !is_hidden_host_candidate(l),
            ),
        decreases all.len() - i,
    {
        proof {
            reveal(Seq::filter);
        }
        assert(ls.take(i + 1).drop_last() =~= ls.take(i as int));
        assert(all@[i as int]@ == ls[i as int]);
        let ghost old_kept = texts(kept@);
        if !hidden_host_candidate(all[i].as_slice()) {
            let line = all[i].clone();
            kept.push(line);
            assert(texts(kept@) =~= old_kept.push(ls[i as int]));
        }
        i = i + 1;
    }
    assert(ls.take(all.len() as int) =~= ls);
    let out = join_crlf_terminated(&kept);
    string_of(out.as_slice())
}

// ---------------------------------------------------------------------------
// Session ids
// ---------------------------------------------------------------------------

/// The character of the standard base64 alphabet (`A`-`Z`, `a`-`z`,
/// `0`-`9`, `+`, `/`) for a 6-bit value.
pub open spec fn b64_char(v: int) -> char {
    if v < 26 {
        (v + 65) as char
    } else if v < 52 {
        (v - 26 + 97) as char
    } else if v < 62 {
        (v - 52 + 48) as char
    } else if v == 62 {
        '+'
    } else {
        '/'
    }
}

/// The 6-bit value of a character of the standard base64 alphabet.
pub open spec fn b64_value(c: char) -> int {
    if 'A' <= c && c <= 'Z' {
        c as int - 65
    } else if 'a' <= c && c <= 'z' {
        c as int - 97 + 26
    } else if '0' <= c && c <= '9' {
        c as int - 48 + 52
    } else if c == '+' {
        62
    } else {
        63
    }
}

/// Standard base64 (RFC 4648, `=` padding): every three bytes become four
/// characters of six bits each, most significant first; one or two bytes
/// left over become two or three characters and `==` or `=`.
pub open spec fn base64_encode(b: Seq<u8>) -> Seq<char>
    decreases b.len(),
{
    if b.len() == 0 {
        Seq::<char>::empty()
    } else {
        let b0 = b[0] as int;
        let b1 = if b.len() > 1 {
            b[1] as int
        } else {
            0
        };
        let b2 = if b.len() > 2 {
            b[2] as int
        } else {
            0
        };
        let c0 = b64_char(b0 / 4);
        let c1 = b64_char((b0 % 4) * 16 + b1 / 16);
        let c2 = if b.len() > 1 {
            b64_char((b1 % 16) * 4 + b2 / 64)
        } else {
            '='
        };
        let c3 = if b.len() > 2 {
            b64_char(b2 % 64)
        } else {
            '='
        };
        seq![c0, c1, c2, c3] + if b.len() > 3 {
            base64_encode(b.skip(3))
        } else {
            Seq::<char>::empty()
        }
    }
}

/// Standard base64 decoding of padded text: each four characters give three
/// bytes, or one or two where the block ends in `==` or `=`.
pub open spec fn base64_decode(s: Seq<char>) -> Seq<u8>
    decreases s.len(),
{
    if s.len() < 4 {
        Seq::<u8>::empty()
    } else {
        let v0 = b64_value(s[0]);
        let v1 = b64_value(s[1]);
        let v2 = b64_value(s[2]);
        let v3 = b64_value(s[3]);
        let x0 = (v0 * 4 + v1 / 16) as u8;
        let x1 = ((v1 % 16) * 16 + v2 / 4) as u8;
        let x2 = ((v2 % 4) * 64 + v3) as u8;
        if s[2] == '=' {
            seq![x0]
        } else if s[3] == '=' {
            seq![x0, x1]
        } else {
            seq![x0, x1, x2] + base64_decode(s.skip(4))
        }
    }
}

/// A character of the standard base64 alphabet: `A`-`Z`, `a`-`z`, `0`-`9`,
/// `+` and `/`.
pub open spec fn is_base64_char(c: char) -> bool {
    ||| ('A' <= c && c <= 'Z')
    ||| ('a' <= c && c <= 'z')
    ||| ('0' <= c && c <= '9')
    ||| c == '+'
    ||| c == '/'
}

/// The number of alphabet characters that encode `n` bytes: four for every
/// three bytes, and two or three more for one or two bytes left over.
pub open spec fn base64_unpadded_len(n: nat) -> nat {
    4 * (n / 3) + (if n % 3 == 0 {
        0
    } else {
        n % 3 + 1
    })
}

/// Each 6-bit value has its own alphabet character, which reads back as it.
proof fn lemma_b64_char(v: int)
    requires
        0 <= v < 64,
    ensures
        is_base64_char(b64_char(v)),
        b64_value(b64_char(v)) == v,
        b64_char(v) != '=',
{
}

/// The shape of standard base64: `4 * ceil(n / 3)` characters, the first
/// `base64_unpadded_len(n)` from the alphabet and the rest `=`.
pub proof fn lemma_base64_shape(b: Seq<u8>)
    ensures
        base64_encode(b).len() == 4 * ((b.len() + 2) / 3),
        forall|i: int|
            0 <= i < base64_unpadded_len(b.len()) ==> is_base64_char(#[trigger] base64_encode(b)[i]),
        forall|i: int|
            base64_unpadded_len(b.len()) <= i < base64_encode(b).len() ==> #[trigger] base64_encode(
                b,
            )[i] == '=',
    decreases b.len(),
{
    if b.len() > 0 {
        let b0 = b[0] as int;
        let b1 = if b.len() > 1 {
            b[1] as int
        } else {
            0
        };
        let b2 = if b.len() > 2 {
            b[2] as int
        } else {
            0
        };
        lemma_b64_char(b0 / 4);
        lemma_b64_char((b0 % 4) * 16 + b1 / 16);
        lemma_b64_char((b1 % 16) * 4 + b2 / 64);
        lemma_b64_char(b2 % 64);
        let e = base64_encode(b);
        if b.len() > 3 {
            let rest = b.skip(3);
            lemma_base64_shape(rest);
            let er = base64_encode(rest);
            assert(e == seq![e[0], e[1], e[2], e[3]] + er);
            assert(base64_unpadded_len(b.len()) == 4 + base64_unpadded_len(rest.len()));
            assert forall|i: int|
                0 <= i < base64_unpadded_len(b.len()) implies is_base64_char(#[trigger] e[i]) by {
                if i >= 4 {
                    assert(e[i] == er[i - 4]);
                }
            }
            assert forall|i: int|
                base64_unpadded_len(b.len()) <= i < e.len() implies #[trigger] e[i] == '=' by {
                assert(e[i] == er[i - 4]);
            }
        }
    }
}

/// Decoding standard base64 gives the bytes back.
pub proof fn lemma_base64_round_trip(b: Seq<u8>)
    ensures
        base64_decode(base64_encode(b)) == b,
    decreases b.len(),
{
    if b.len() > 0 {
        let b0 = b[0] as int;
        let b1 = if b.len() > 1 {
            b[1] as int
        } else {
            0
        };
        let b2 = if b.len() > 2 {
            b[2] as int
        } else {
            0
        };
        let v0 = b0 / 4;
        let v1 = (b0 % 4) * 16 + b1 / 16;
        let v2 = (b1 % 16) * 4 + b2 / 64;
        let v3 = b2 % 64;
        lemma_b64_char(v0);
        lemma_b64_char(v1);
        lemma_b64_char(v2);
        lemma_b64_char(v3);
        assert(v0 * 4 + v1 / 16 == b0);
        assert((v1 % 16) * 16 + v2 / 4 == b1);
        assert((v2 % 4) * 64 + v3 == b2);
        let e = base64_encode(b);
        assert(e.len() >= 4);
        assert(e[0] == b64_char(v0) && e[1] == b64_char(v1));
        assert(b64_value(e[0]) == v0 && b64_value(e[1]) == v1);
        assert((v0 * 4 + v1 / 16) as u8 == b[0]);
        if b.len() > 3 {
            let rest = b.skip(3);
            lemma_base64_round_trip(rest);
            let er = base64_encode(rest);
            assert(e[2] == b64_char(v2) && e[3] == b64_char(v3));
            assert(e.skip(4) =~= er);
            assert(((v1 % 16) * 16 + v2 / 4) as u8 == b[1]);
            assert(((v2 % 4) * 64 + v3) as u8 == b[2]);
            assert(base64_decode(e) == seq![b[0], b[1], b[2]] + base64_decode(e.skip(4)));
            assert(seq![b[0], b[1], b[2]] + rest =~= b);
        } else if b.len() == 3 {
            assert(e[2] == b64_char(v2) && e[3] == b64_char(v3));
            assert(((v1 % 16) * 16 + v2 / 4) as u8 == b[1]);
            assert(((v2 % 4) * 64 + v3) as u8 == b[2]);
            assert(e.skip(4) =~= Seq::<char>::empty());
            assert(base64_decode(e) == seq![b[0], b[1], b[2]] + base64_decode(e.skip(4)));
            assert(seq![b[0], b[1], b[2]] + Seq::<u8>::empty() =~= b);
        } else if b.len() == 2 {
            assert(e[2] == b64_char(v2) && e[3] == '=');
            assert(((v1 % 16) * 16 + v2 / 4) as u8 == b[1]);
            assert(base64_decode(e) == seq![b[0], b[1]]);
            assert(seq![b[0], b[1]] =~= b);
        } else {
            assert(e[2] == '=');
            assert(base64_decode(e) == seq![b[0]]);
            assert(seq![b[0]] =~= b);
        }
    }
}

/// Encodes `bytes` in base64 with the standard alphabet and padding.
///
/// Trusted: calls `base64::engine::general_purpose::STANDARD.encode`, which
/// encodes with the standard alphabet (`alphabet::STANDARD`) and `=`
/// padding (`PAD`); the contract claims the result is `base64_encode(bytes)`.
/// `requires` keeps the input well below the length at which computing the
/// output length overflows (the crate panics there).
#[verifier::external_body]
fn encode_base64_standard(bytes: &[u8]) -> (s: String)
    requires
        bytes@.len() <= usize::MAX / 2,
    ensures
        s@ == base64_encode(bytes@),
{
    general_purpose::STANDARD.encode(bytes)
}

/// Sixteen random bytes.
///
/// Trusted: calls `rand::thread_rng().fill` on a 16-byte buffer. Nothing is
/// claimed of the bytes; the crate panics if the random source fails.
#[verifier::external_body]
fn random_bytes() -> (b: [u8; 16]) {
    let mut buf = [0u8; 16];
    thread_rng().fill(&mut buf);
    buf
}

/// Whether a character is not the base64 padding character `=`.
pub open spec fn not_padding(c: char) -> bool {
    c != '='
}

/// The session id that `bytes` give: their base64 text with every `=` removed.
pub open spec fn session_id_of(bytes: Seq<u8>) -> Seq<char> {
    base64_encode(bytes).filter(|c: char| not_padding(c))
}

/// A session id holds no `=`.
pub proof fn lemma_session_id_unpadded(bytes: Seq<u8>)
    ensures
        forall|i: int| 0 <= i < session_id_of(bytes).len() ==> #[trigger] session_id_of(bytes)[i] != '=',
{
    let pred = |c: char| not_padding(c);
    assert forall|i: int| 0 <= i < session_id_of(bytes).len() implies #[trigger] session_id_of(
        bytes,
    )[i] != '=' by {
        base64_encode(bytes).lemma_filter_pred(pred, i);
    }
}

/// A session id is the base64 text of its sixteen bytes without the `==`
/// padding: putting the padding back and decoding gives the bytes again.
pub proof fn lemma_session_id_decodes(bytes: Seq<u8>)
    requires
        bytes.len() == 16,
    ensures
        session_id_of(bytes) + seq!['=', '='] == base64_encode(bytes),
        base64_decode(session_id_of(bytes) + seq!['=', '=']) == bytes,
{
    let e = base64_encode(bytes);
    assert(base64_unpadded_len(16) == 22);
    lemma_base64_shape(bytes);
    lemma_unpad(e, 22);
    assert(e.take(22) + seq!['=', '='] =~= e);
    lemma_base64_round_trip(bytes);
}

/// Different sixteen bytes give different session ids.
pub proof fn lemma_session_id_injective(b1: Seq<u8>, b2: Seq<u8>)
    requires
        b1.len() == 16,
        b2.len() == 16,
        session_id_of(b1) == session_id_of(b2),
    ensures
        b1 == b2,
{
    lemma_session_id_decodes(b1);
    lemma_session_id_decodes(b2);
}

/// `s` with every `=` removed.
pub fn strip_padding(s: &str) -> (r: String)
    ensures
        r@ == s@.filter(|c: char| not_padding(c)),
{
    let cs = chars_of(s);
    let ghost all = cs@;
    let mut out: Vec<char> = Vec::new();
    let mut i: usize = 0;
    assert(all.take(0) =~= Seq::<char>::empty());
    proof {
        reveal(Seq::filter);
    }
    while i < cs.len()
        invariant
            all == cs@,
            all == s@,
            i <= cs.len(),
            out@ == all.take(i as int).filter(|c: char| not_padding(c)),
        decreases cs.len() - i,
    {
        proof {
            reveal(Seq::filter);
        }
        assert(all.take(i + 1).drop_last() =~= all.take(i as int));
        if cs[i] != '=' {
            out.push(cs[i]);
        }
        i = i + 1;
    }
    assert(all.take(cs.len() as int) =~= all);
    string_of(out.as_slice())
}

/// Removing `=` from alphabet characters followed by padding leaves the
/// alphabet characters.
proof fn lemma_unpad(s: Seq<char>, u: int)
    requires
        0 <= u <= s.len(),
        forall|i: int| 0 <= i < u ==> is_base64_char(#[trigger] s[i]),
        forall|i: int| u <= i < s.len() ==> #[trigger] s[i] == '=',
    ensures
        s.filter(|c: char| not_padding(c)) == s.take(u),
    decreases s.len(),
{
    reveal(Seq::filter);
    if s.len() == 0 {
        assert(s.take(u) =~= s);
    } else {
        let init = s.drop_last();
        let u2 = if u == s.len() {
            u - 1
        } else {
            u
        };
        assert forall|i: int| 0 <= i < u2 implies is_base64_char(#[trigger] init[i]) by {
            assert(init[i] == s[i]);
        }
        assert forall|i: int| u2 <= i < init.len() implies #[trigger] init[i] == '=' by {
            assert(init[i] == s[i]);
        }
        lemma_unpad(init, u2);
        if u == s.len() {
            assert(is_base64_char(s[s.len() - 1]));
            assert(init.take(u2).push(s.last()) =~= s.take(u));
        } else {
            assert(s[s.len() - 1] == '=');
            assert(init.take(u2) =~= s.take(u));
        }
    }
}

/// The session id of the given bytes: their standard base64 encoding without
/// `=` padding, which is 22 characters of the standard base64 alphabet.
pub fn session_id_from_bytes(bytes: &[u8; 16]) -> (id: String)
    ensures
        id@ == session_id_of(bytes@),
        id@.len() == 22,
        forall|i: int| 0 <= i < id@.len() ==> is_base64_char(#[trigger] id@[i]),
{
    let encoded = encode_base64_standard(bytes.as_slice());
    proof {
        assert(bytes@.len() == 16);
        assert(base64_unpadded_len(16) == 22);
        lemma_base64_shape(bytes@);
        lemma_unpad(encoded@, 22);
    }
    strip_padding(encoded.as_str())
}

/// A new random session id: sixteen random bytes in base64 without padding.
pub fn gen_session_id() -> (id: String)
    ensures
        exists|b: Seq<u8>| b.len() == 16 && id@ == session_id_of(b),
        id@.len() == 22,
        forall|i: int| 0 <= i < id@.len() ==> is_base64_char(#[trigger] id@[i]),
{
    let bytes = random_bytes();
    let id = session_id_from_bytes(&bytes);
    assert(bytes@.len() == 16);
    id
}

} // verus!
