//! The text of IP and socket addresses as the standard library displays
//! them: decimal dotted IPv4, lowercase IPv6 with the first longest run of
//! two or more zero segments written `::` (and `::ffff:a.b.c.d` for an
//! IPv4-mapped address), and `[address%scope]:port` for IPv6 sockets.
use vstd::prelude::*;

use crate::net::{SocketAddress, SpecSocketAddress};
use crate::text::join_with;

verus! {

/// The digit characters, by value.
pub open spec fn digit_chars() -> Seq<char> {
    seq!['0', '1', '2', '3', '4', '5', '6', '7', '8', '9', 'a', 'b', 'c', 'd', 'e', 'f']
}

/// The digits of `n` in base `radix` (10 or 16), most significant first,
/// without leading zeros (`"0"` for zero).
pub open spec fn digits_text(n: nat, radix: nat) -> Seq<char>
    decreases n,
{
    if radix < 2 || radix > 16 {
        Seq::<char>::empty()
    } else if n < radix {
        seq![digit_chars()[n as int]]
    } else {
        proof {
            assert(n / radix < n) by (nonlinear_arith)
                requires
                    n >= radix,
                    radix >= 2,
            ;
        }
        digits_text(n / radix, radix).push(digit_chars()[(n % radix) as int])
    }
}

/// `a.b.c.d` in decimal.
pub open spec fn ipv4_display(o: Seq<u8>) -> Seq<char> {
    digits_text(o[0] as nat, 10) + seq!['.'] + digits_text(o[1] as nat, 10) + seq!['.']
        + digits_text(o[2] as nat, 10) + seq!['.'] + digits_text(o[3] as nat, 10)
}

/// Segments in lowercase hexadecimal, separated by `:`.
pub open spec fn hex_groups_text(g: Seq<u16>) -> Seq<char> {
    join_with(g.map_values(|x: u16| digits_text(x as nat, 16)), seq![':'])
}

/// Segments `s .. s + l` are zero.
pub open spec fn is_zero_run(g: Seq<u16>, s: int, l: int) -> bool {
    &&& 0 <= s
    &&& 0 <= l
    &&& s + l <= g.len()
    &&& forall|k: int| s <= k < s + l ==> #[trigger] g[k] == 0
}

/// `s .. s + l` is a longest run of zero segments, and no run of that length
/// starts earlier.
pub open spec fn is_first_longest_zero_run(g: Seq<u16>, s: int, l: int) -> bool {
    &&& is_zero_run(g, s, l)
    &&& forall|s2: int, l2: int| #[trigger] is_zero_run(g, s2, l2) ==> l2 <= l
    &&& forall|s2: int| 0 <= s2 < s ==> !#[trigger] is_zero_run(g, s2, l)
}

/// An IPv4-mapped IPv6 address: `::ffff:a.b.c.d`.
pub open spec fn is_ipv4_mapped(g: Seq<u16>) -> bool {
    (forall|i: int| 0 <= i < 5 ==> #[trigger] g[i] == 0) && g[5] == 0xffff
}

/// The IPv4 address that the last two segments hold.
pub open spec fn mapped_octets(g: Seq<u16>) -> Seq<u8> {
    seq![(g[6] / 256) as u8, (g[6] % 256) as u8, (g[7] / 256) as u8, (g[7] % 256) as u8]
}

/// The text of an IPv6 address.
pub open spec fn ipv6_display(g: Seq<u16>) -> Seq<char> {
    if is_ipv4_mapped(g) {
        seq![':', ':', 'f', 'f', 'f', 'f', ':'] + ipv4_display(mapped_octets(g))
    } else {
        let (s, l) = choose|s: int, l: int| is_first_longest_zero_run(g, s, l);
        if l > 1 {
            hex_groups_text(g.take(s)) + seq![':', ':'] + hex_groups_text(g.skip(s + l))
        } else {
            hex_groups_text(g)
        }
    }
}

/// The text of a socket address: `a.b.c.d:port`, or `[address]:port` with
/// `%scope` after the address when the scope id is not zero.
pub open spec fn socket_display(a: SpecSocketAddress) -> Seq<char> {
    match a {
        SpecSocketAddress::V4(o, port) => ipv4_display(o) + seq![':'] + digits_text(port as nat, 10),
        SpecSocketAddress::V6(g, port, scope) => seq!['['] + ipv6_display(g) + (if scope == 0 {
            Seq::<char>::empty()
        } else {
            seq!['%'] + digits_text(scope as nat, 10)
        }) + seq![']', ':'] + digits_text(port as nat, 10),
    }
}

/// Appends the digits of `n` in base `radix`.
fn push_digits(out: &mut Vec<char>, n: u32, radix: u32)
    requires
        radix == 10 || radix == 16,
    ensures
        final(out)@ == old(out)@ + digits_text(n as nat, radix as nat),
    decreases n,
{
    let digits = ['0', '1', '2', '3', '4', '5', '6', '7', '8', '9', 'a', 'b', 'c', 'd', 'e', 'f'];
    assert(digits@ =~= digit_chars());
    if n < radix {
        out.push(digits[n as usize]);
        assert(old(out)@.push(digit_chars()[n as int]) =~= old(out)@ + seq![digit_chars()[n as int]]);
    } else {
        push_digits(out, n / radix, radix);
        let ghost mid = out@;
        out.push(digits[(n % radix) as usize]);
        assert(mid.push(digit_chars()[(n % radix) as int]) =~= old(out)@ + digits_text(
            n as nat,
            radix as nat,
        ));
    }
}

/// Appends `s`.
fn push_all(out: &mut Vec<char>, s: &[char])
    ensures
        final(out)@ == old(out)@ + s@,
{
    let mut i: usize = 0;
    while i < s.len()
        invariant
            i <= s.len(),
            out@ == old(out)@ + s@.take(i as int),
        decreases s.len() - i,
    {
        out.push(s[i]);
        i = i + 1;
        assert(out@ =~= old(out)@ + s@.take(i as int));
    }
    assert(s@.take(s.len() as int) =~= s@);
}

/// Appends `a.b.c.d`.
fn push_ipv4(out: &mut Vec<char>, o: &[u8; 4])
    ensures
        final(out)@ == old(out)@ + ipv4_display(o@),
{
    push_digits(out, o[0] as u32, 10);
    out.push('.');
    push_digits(out, o[1] as u32, 10);
    out.push('.');
    push_digits(out, o[2] as u32, 10);
    out.push('.');
    push_digits(out, o[3] as u32, 10);
    assert(out@ =~= old(out)@ + ipv4_display(o@));
}

/// Appends segments `from .. to` in hexadecimal, separated by `:`.
fn push_hex_groups(out: &mut Vec<char>, g: &[u16; 8], from: usize, to: usize)
    requires
        from <= to <= 8,
    ensures
        final(out)@ == old(out)@ + hex_groups_text(g@.subrange(from as int, to as int)),
{
    let ghost f = |x: u16| digits_text(x as nat, 16);
    let mut i: usize = from;
    while i < to
        invariant
            from <= i <= to <= 8,
            f == (|x: u16| digits_text(x as nat, 16)),
            out@ == old(out)@ + join_with(
                g@.subrange(from as int, i as int).map_values(f),
                seq![':'],
            ),
        decreases to - i,
    {
        let ghost prev = out@;
        let ghost ls = g@.subrange(from as int, i as int).map_values(f);
        let ghost ls1 = g@.subrange(from as int, i + 1).map_values(f);
        assert(ls1.drop_last() =~= ls);
        assert(ls1.last() == digits_text(g@[i as int] as nat, 16));
        if i > from {
            out.push(':');
        }
        push_digits(out, g[i] as u32, 16);
        assert(out@ =~= old(out)@ + join_with(ls1, seq![':'])) by {
            if i == from {
                assert(ls1.len() == 1);
                assert(ls =~= Seq::<Seq<char>>::empty());
            }
        }
        i = i + 1;
    }
}

/// The first longest run of zero segments.
fn find_zero_run(g: &[u16; 8]) -> (r: (usize, usize))
    ensures
        is_first_longest_zero_run(g@, r.0 as int, r.1 as int),
{
    let mut best_s: usize = 0;
    let mut best_l: usize = 0;
    let mut cur_s: usize = 0;
    let mut cur_l: usize = 0;
    let mut i: usize = 0;
    while i < 8
        invariant
            g@.len() == 8,
            0 <= i <= 8,
            cur_s + cur_l == i,
            is_zero_run(g@, cur_s as int, cur_l as int),
            cur_s == 0 || g@[cur_s - 1] != 0,
            is_zero_run(g@, best_s as int, best_l as int),
            best_s + best_l <= i,
            best_l == 0 ==> best_s == 0,
            forall|s2: int, l2: int|
                #[trigger] is_zero_run(g@, s2, l2) && s2 + l2 <= i ==> l2 <= best_l,
            forall|s2: int|
                0 <= s2 < best_s && s2 + best_l <= i ==> !#[trigger] is_zero_run(
                    g@,
                    s2,
                    best_l as int,
                ),
        decreases 8 - i,
    {
        if g[i] == 0 {
            if cur_l == 0 {
                cur_s = i;
            }
            cur_l = cur_l + 1;
            assert(is_zero_run(g@, cur_s as int, cur_l as int));
            assert forall|s2: int, l2: int|
                #[trigger] is_zero_run(g@, s2, l2) && s2 + l2 == i + 1 && l2 >= 1 implies s2
                >= cur_s by {
                if s2 < cur_s {
                    assert(g@[cur_s - 1] == 0);
                }
            }
            if cur_l > best_l {
                let ghost old_best_l = best_l;
                best_s = cur_s;
                best_l = cur_l;
                assert forall|s2: int|
                    0 <= s2 < best_s && s2 + best_l <= i + 1 implies !#[trigger] is_zero_run(
                    g@,
                    s2,
                    best_l as int,
                ) by {
                    if is_zero_run(g@, s2, best_l as int) {
                        assert(s2 + best_l <= i);
                        assert(best_l <= old_best_l);
                    }
                }
            } else {
                assert forall|s2: int|
                    0 <= s2 < best_s && s2 + best_l <= i + 1 implies !#[trigger] is_zero_run(
                    g@,
                    s2,
                    best_l as int,
                ) by {
                    if is_zero_run(g@, s2, best_l as int) && s2 + best_l == i + 1 && best_l >= 1 {
                        assert(s2 >= cur_s);
                    }
                }
            }
        } else {
            assert forall|s2: int, l2: int|
                #[trigger] is_zero_run(g@, s2, l2) && s2 + l2 == i + 1 implies l2 == 0 by {
                if l2 > 0 {
                    assert(g@[i as int] == 0);
                }
            }
            cur_s = i + 1;
            cur_l = 0;
        }
        i = i + 1;
    }
    (best_s, best_l)
}

/// There is only one first longest zero run.
proof fn lemma_first_longest_unique(g: Seq<u16>, s: int, l: int, s2: int, l2: int)
    requires
        is_first_longest_zero_run(g, s, l),
        is_first_longest_zero_run(g, s2, l2),
    ensures
        s == s2 && l == l2,
{
    assert(l2 <= l);
    assert(l <= l2);
    if s2 < s {
        assert(!is_zero_run(g, s2, l));
    }
    if s < s2 {
        assert(!is_zero_run(g, s, l2));
    }
}

/// Appends the text of an IPv6 address.
fn push_ipv6(out: &mut Vec<char>, g: &[u16; 8])
    ensures
        final(out)@ == old(out)@ + ipv6_display(g@),
{
    let mut mapped = g[5] == 0xffff;
    let mut i: usize = 0;
    while i < 5
        invariant
            i <= 5,
            g@.len() == 8,
            mapped == (g@[5] == 0xffff && forall|j: int| 0 <= j < i ==> #[trigger] g@[j] == 0),
        decreases 5 - i,
    {
        if g[i] != 0 {
            mapped = false;
        }
        i = i + 1;
        assert(mapped == (g@[5] == 0xffff && forall|j: int| 0 <= j < i ==> #[trigger] g@[j] == 0))
            by {
            if !mapped && g@[5] == 0xffff {
                if g@[i - 1] != 0 {
                } else {
                }
            }
        }
    }
    if mapped {
        let o = [(g[6] / 256) as u8, (g[6] % 256) as u8, (g[7] / 256) as u8, (g[7] % 256) as u8];
        assert(o@ =~= mapped_octets(g@));
        let prefix = [':', ':', 'f', 'f', 'f', 'f', ':'];
        push_all(out, prefix.as_slice());
        push_ipv4(out, &o);
        assert(prefix@ =~= seq![':', ':', 'f', 'f', 'f', 'f', ':']);
        assert(out@ =~= old(out)@ + ipv6_display(g@));
    } else {
        let (s, l) = find_zero_run(g);
        proof {
            let (cs, cl) = choose|s: int, l: int| is_first_longest_zero_run(g@, s, l);
            lemma_first_longest_unique(g@, s as int, l as int, cs, cl);
        }
        if l > 1 {
            push_hex_groups(out, g, 0, s);
            out.push(':');
            out.push(':');
            push_hex_groups(out, g, s + l, 8);
            assert(g@.subrange(0, s as int) =~= g@.take(s as int));
            assert(g@.subrange(s + l, 8) =~= g@.skip(s + l));
            assert(out@ =~= old(out)@ + ipv6_display(g@));
        } else {
            push_hex_groups(out, g, 0, 8);
            assert(g@.subrange(0, 8) =~= g@);
        }
    }
}

/// The text of a socket address, as the standard library displays it.
pub fn socket_text_of(a: SocketAddress) -> (r: Vec<char>)
    ensures
        r@ == socket_display(a@),
{
    let mut out: Vec<char> = Vec::new();
    match a {
        SocketAddress::V4 { ip, port } => {
            push_ipv4(&mut out, &ip);
            out.push(':');
            push_digits(&mut out, port as u32, 10);
            assert(out@ =~= socket_display(a@));
        },
        SocketAddress::V6 { ip, port, scope_id } => {
            out.push('[');
            push_ipv6(&mut out, &ip);
            let ghost mid = out@;
            if scope_id != 0 {
                out.push('%');
                push_digits(&mut out, scope_id, 10);
            }
            out.push(']');
            out.push(':');
            push_digits(&mut out, port as u32, 10);
            assert(out@ =~= socket_display(a@));
        },
    }
    out
}

} // verus!
