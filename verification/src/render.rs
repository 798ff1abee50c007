//! Rendering of IP addresses as canonical textual literals.
//!
//! IPv4 addresses render as four dotted decimal octets. IPv6 addresses
//! render as eight colon-separated lowercase hexadecimal groups without
//! leading zeros and without `::` compression; re-parsing such a literal
//! yields the address it was rendered from.

use vstd::prelude::*;

use crate::ip::{IpAddress, Ipv4Address, Ipv6Address};
use crate::parse::{
    all_digits, all_hex_digits, dec_value, hex_digit_val, hex_value, is_digit, is_hex_digit,
};

verus! {

/// The decimal numeral of `v`, most significant digit first.
pub open spec fn dec_digits(v: nat) -> Seq<u8>
    decreases v,
{
    if v < 10 {
        seq![(48 + v) as u8]
    } else {
        dec_digits(v / 10).push((48 + v % 10) as u8)
    }
}

/// The byte of one lowercase hexadecimal digit.
pub open spec fn hex_digit_byte(d: nat) -> u8 {
    if d < 10 {
        (48 + d) as u8
    } else {
        (87 + d) as u8
    }
}

/// The lowercase hexadecimal numeral of `v`, most significant digit first.
pub open spec fn hex_digits(v: nat) -> Seq<u8>
    decreases v,
{
    if v < 16 {
        seq![hex_digit_byte(v)]
    } else {
        hex_digits(v / 16).push(hex_digit_byte(v % 16))
    }
}

/// The dotted-quad literal of an IPv4 address.
pub open spec fn v4_literal(ip: Ipv4Address) -> Seq<u8> {
    dec_digits(ip.a as nat) + seq![46u8] + dec_digits(ip.b as nat) + seq![46u8] + dec_digits(
        ip.c as nat,
    ) + seq![46u8] + dec_digits(ip.d as nat)
}

/// The colon-grouped literal of an IPv6 address, all eight groups written.
pub open spec fn v6_literal(ip: Ipv6Address) -> Seq<u8> {
    hex_digits(ip.s0 as nat) + seq![58u8] + hex_digits(ip.s1 as nat) + seq![58u8] + hex_digits(
        ip.s2 as nat,
    ) + seq![58u8] + hex_digits(ip.s3 as nat) + seq![58u8] + hex_digits(ip.s4 as nat) + seq![58u8]
        + hex_digits(ip.s5 as nat) + seq![58u8] + hex_digits(ip.s6 as nat) + seq![58u8]
        + hex_digits(ip.s7 as nat)
}

/// The canonical literal of an address of either family.
pub open spec fn ip_literal(ip: IpAddress) -> Seq<u8> {
    match ip {
        IpAddress::V4(v4) => v4_literal(v4),
        IpAddress::V6(v6) => v6_literal(v6),
    }
}

/// ASCII bytes read as characters.
pub open spec fn ascii_chars(s: Seq<u8>) -> Seq<char> {
    s.map_values(|b: u8| b as char)
}

pub proof fn lemma_dec_digits(v: nat)
    ensures
        all_digits(dec_digits(v)),
        dec_digits(v).len() >= 1,
        dec_value(dec_digits(v)) == v,
        dec_digits(v)[0] != 48 || v < 10,
        v < 10 ==> dec_digits(v).len() == 1,
        v < 100 ==> dec_digits(v).len() <= 2,
        v < 1000 ==> dec_digits(v).len() <= 3,
    decreases v,
{
    reveal_with_fuel(dec_value, 3);
    if v < 10 {
        let d = dec_digits(v);
        assert(d.drop_last() =~= Seq::<u8>::empty());
        assert(forall|k: int| 0 <= k < d.len() ==> is_digit(#[trigger] d[k]));
    } else {
        lemma_dec_digits(v / 10);
        let p = dec_digits(v / 10);
        let d = dec_digits(v);
        assert(d == p.push((48 + v % 10) as u8));
        assert(d.drop_last() =~= p);
        assert(d.last() == (48 + v % 10) as u8);
        assert(dec_value(d) == dec_value(p) * 10 + (v % 10));
        assert(forall|k: int| 0 <= k < d.len() ==> is_digit(#[trigger] d[k])) by {
            assert(forall|k: int| 0 <= k < p.len() ==> #[trigger] d[k] == p[k]);
        }
        assert(d[0] == p[0]);
        if v / 10 < 10 {
            assert(p[0] == (48 + v / 10) as u8);
            assert(v / 10 >= 1);
        }
    }
}

pub proof fn lemma_hex_digits(v: nat)
    ensures
        all_hex_digits(hex_digits(v)),
        hex_digits(v).len() >= 1,
        hex_value(hex_digits(v)) == v,
        v < 16 ==> hex_digits(v).len() == 1,
        v < 0x100 ==> hex_digits(v).len() <= 2,
        v < 0x1000 ==> hex_digits(v).len() <= 3,
        v < 0x10000 ==> hex_digits(v).len() <= 4,
    decreases v,
{
    reveal_with_fuel(hex_value, 3);
    if v < 16 {
        let d = hex_digits(v);
        assert(d.drop_last() =~= Seq::<u8>::empty());
        assert(is_hex_digit(hex_digit_byte(v)) && hex_digit_val(hex_digit_byte(v)) == v);
        assert(forall|k: int| 0 <= k < d.len() ==> is_hex_digit(#[trigger] d[k]));
    } else {
        lemma_hex_digits(v / 16);
        let p = hex_digits(v / 16);
        let d = hex_digits(v);
        assert(d == p.push(hex_digit_byte(v % 16)));
        assert(d.drop_last() =~= p);
        assert(d.last() == hex_digit_byte(v % 16));
        assert(is_hex_digit(hex_digit_byte(v % 16)) && hex_digit_val(hex_digit_byte(v % 16)) == v
            % 16);
        assert(hex_value(d) == hex_value(p) * 16 + (v % 16));
        assert(forall|k: int| 0 <= k < d.len() ==> is_hex_digit(#[trigger] d[k])) by {
            assert(forall|k: int| 0 <= k < p.len() ==> #[trigger] d[k] == p[k]);
        }
    }
}

/// Appends the decimal numeral of `v`.
fn push_dec(out: &mut Vec<u8>, v: u8)
    ensures
        final(out)@ == old(out)@ + dec_digits(v as nat),
{
    proof {
        reveal_with_fuel(dec_digits, 4);
        if v >= 100 {
            vstd::arithmetic::div_mod::lemma_div_denominator(v as int, 10, 10);
            assert((v as nat) / 10 / 10 == (v as nat) / 100);
        }
    }
    if v >= 100 {
        out.push(48 + v / 100);
        out.push(48 + (v / 10) % 10);
        out.push(48 + v % 10);
        proof {
            assert(out@ =~= old(out)@ + dec_digits(v as nat));
        }
    } else if v >= 10 {
        out.push(48 + v / 10);
        out.push(48 + v % 10);
        proof {
            assert(out@ =~= old(out)@ + dec_digits(v as nat));
        }
    } else {
        out.push(48 + v);
        proof {
            assert(out@ =~= old(out)@ + dec_digits(v as nat));
        }
    }
}

fn hex_byte(d: u16) -> (r: u8)
    requires
        d < 16,
    ensures
        r == hex_digit_byte(d as nat),
{
    if d < 10 {
        48 + (d as u8)
    } else {
        87 + (d as u8)
    }
}

/// Appends the lowercase hexadecimal numeral of `v`, without leading zeros.
fn push_hex(out: &mut Vec<u8>, v: u16)
    ensures
        final(out)@ == old(out)@ + hex_digits(v as nat),
{
    proof {
        reveal_with_fuel(hex_digits, 5);
        if v >= 0x100 {
            vstd::arithmetic::div_mod::lemma_div_denominator(v as int, 16, 16);
            assert((v as nat) / 16 / 16 == (v as nat) / 256);
        }
        if v >= 0x1000 {
            vstd::arithmetic::div_mod::lemma_div_denominator(v as int, 256, 16);
            assert((v as nat) / 256 / 16 == (v as nat) / 4096);
        }
    }
    if v >= 0x1000 {
        let b0 = hex_byte(v / 0x1000);
        let b1 = hex_byte((v / 0x100) % 16);
        let b2 = hex_byte((v / 16) % 16);
        let b3 = hex_byte(v % 16);
        out.push(b0);
        out.push(b1);
        out.push(b2);
        out.push(b3);
        proof {
            assert(out@ =~= old(out)@ + hex_digits(v as nat));
        }
    } else if v >= 0x100 {
        let b0 = hex_byte(v / 0x100);
        let b1 = hex_byte((v / 16) % 16);
        let b2 = hex_byte(v % 16);
        out.push(b0);
        out.push(b1);
        out.push(b2);
        proof {
            assert(out@ =~= old(out)@ + hex_digits(v as nat));
        }
    } else if v >= 16 {
        let b0 = hex_byte(v / 16);
        let b1 = hex_byte(v % 16);
        out.push(b0);
        out.push(b1);
        proof {
            assert(out@ =~= old(out)@ + hex_digits(v as nat));
        }
    } else {
        let b0 = hex_byte(v);
        out.push(b0);
        proof {
            assert(out@ =~= old(out)@ + hex_digits(v as nat));
        }
    }
}

/// Renders an IPv4 address as its dotted-quad literal.
pub fn render_ipv4(ip: &Ipv4Address) -> (r: Vec<u8>)
    ensures
        r@ == v4_literal(*ip),
{
    let mut out: Vec<u8> = Vec::new();
    push_dec(&mut out, ip.a);
    out.push(46);
    push_dec(&mut out, ip.b);
    out.push(46);
    push_dec(&mut out, ip.c);
    out.push(46);
    push_dec(&mut out, ip.d);
    proof {
        assert(out@ =~= v4_literal(*ip));
    }
    out
}

/// Renders an IPv6 address as eight colon-separated hexadecimal groups.
pub fn render_ipv6(ip: &Ipv6Address) -> (r: Vec<u8>)
    ensures
        r@ == v6_literal(*ip),
{
    let mut out: Vec<u8> = Vec::new();
    push_hex(&mut out, ip.s0);
    out.push(58);
    push_hex(&mut out, ip.s1);
    out.push(58);
    push_hex(&mut out, ip.s2);
    out.push(58);
    push_hex(&mut out, ip.s3);
    out.push(58);
    push_hex(&mut out, ip.s4);
    out.push(58);
    push_hex(&mut out, ip.s5);
    out.push(58);
    push_hex(&mut out, ip.s6);
    out.push(58);
    push_hex(&mut out, ip.s7);
    proof {
        assert(out@ =~= v6_literal(*ip));
    }
    out
}

pub open spec fn all_ascii(s: Seq<u8>) -> bool {
    forall|k: int| 0 <= k < s.len() ==> s[k] < 128
}

pub proof fn lemma_all_ascii_concat(x: Seq<u8>, y: Seq<u8>)
    requires
        all_ascii(x),
        all_ascii(y),
    ensures
        all_ascii(x + y),
{
    assert(forall|k: int| 0 <= k < (x + y).len() ==> #[trigger] (x + y)[k] < 128) by {
        assert(forall|k: int| 0 <= k < x.len() ==> (x + y)[k] == x[k]);
        assert(forall|k: int| x.len() <= k < (x + y).len() ==> (x + y)[k] == y[k - x.len()]);
    }
}

pub proof fn lemma_literal_ascii(ip: IpAddress)
    ensures
        all_ascii(ip_literal(ip)),
{
    match ip {
        IpAddress::V4(v4) => {
            lemma_dec_digits(v4.a as nat);
            lemma_dec_digits(v4.b as nat);
            lemma_dec_digits(v4.c as nat);
            lemma_dec_digits(v4.d as nat);
            let ga = dec_digits(v4.a as nat);
            let gb = dec_digits(v4.b as nat);
            let gc = dec_digits(v4.c as nat);
            let gd = dec_digits(v4.d as nat);
            let dot = seq![46u8];
            assert(all_ascii(ga) && all_ascii(gb) && all_ascii(gc) && all_ascii(gd));
            assert(all_ascii(dot));
            lemma_all_ascii_concat(ga, dot);
            lemma_all_ascii_concat(ga + dot, gb);
            lemma_all_ascii_concat(ga + dot + gb, dot);
            lemma_all_ascii_concat(ga + dot + gb + dot, gc);
            lemma_all_ascii_concat(ga + dot + gb + dot + gc, dot);
            lemma_all_ascii_concat(ga + dot + gb + dot + gc + dot, gd);
        },
        IpAddress::V6(v6) => {
            lemma_hex_digits(v6.s0 as nat);
            lemma_hex_digits(v6.s1 as nat);
            lemma_hex_digits(v6.s2 as nat);
            lemma_hex_digits(v6.s3 as nat);
            lemma_hex_digits(v6.s4 as nat);
            lemma_hex_digits(v6.s5 as nat);
            lemma_hex_digits(v6.s6 as nat);
            lemma_hex_digits(v6.s7 as nat);
            let g0 = hex_digits(v6.s0 as nat);
            let g1 = hex_digits(v6.s1 as nat);
            let g2 = hex_digits(v6.s2 as nat);
            let g3 = hex_digits(v6.s3 as nat);
            let g4 = hex_digits(v6.s4 as nat);
            let g5 = hex_digits(v6.s5 as nat);
            let g6 = hex_digits(v6.s6 as nat);
            let g7 = hex_digits(v6.s7 as nat);
            let c = seq![58u8];
            assert(all_ascii(c));
            lemma_all_ascii_concat(g0, c);
            lemma_all_ascii_concat(g0 + c, g1);
            lemma_all_ascii_concat(g0 + c + g1, c);
            lemma_all_ascii_concat(g0 + c + g1 + c, g2);
            lemma_all_ascii_concat(g0 + c + g1 + c + g2, c);
            lemma_all_ascii_concat(g0 + c + g1 + c + g2 + c, g3);
            lemma_all_ascii_concat(g0 + c + g1 + c + g2 + c + g3, c);
            lemma_all_ascii_concat(g0 + c + g1 + c + g2 + c + g3 + c, g4);
            lemma_all_ascii_concat(g0 + c + g1 + c + g2 + c + g3 + c + g4, c);
            lemma_all_ascii_concat(g0 + c + g1 + c + g2 + c + g3 + c + g4 + c, g5);
            lemma_all_ascii_concat(g0 + c + g1 + c + g2 + c + g3 + c + g4 + c + g5, c);
            lemma_all_ascii_concat(g0 + c + g1 + c + g2 + c + g3 + c + g4 + c + g5 + c, g6);
            lemma_all_ascii_concat(g0 + c + g1 + c + g2 + c + g3 + c + g4 + c + g5 + c + g6, c);
            lemma_all_ascii_concat(g0 + c + g1 + c + g2 + c + g3 + c + g4 + c + g5 + c + g6 + c, g7);
        },
    }
}

/// Relies on String::from_utf8: bytes below 128 are valid UTF-8 and decode
/// to one character each, the character with that code point.
#[verifier::external_body]
fn ascii_to_string(v: Vec<u8>) -> (r: String)
    requires
        all_ascii(v@),
    ensures
        r@ == ascii_chars(v@),
{
    String::from_utf8(v).unwrap_or_default()
}

/// Renders an address of either family as its canonical literal.
pub fn render_ip(ip: &IpAddress) -> (r: String)
    ensures
        r@ == ascii_chars(ip_literal(*ip)),
{
    proof {
        lemma_literal_ascii(*ip);
    }
    let bytes = match ip {
        IpAddress::V4(v4) => render_ipv4(v4),
        IpAddress::V6(v6) => render_ipv6(v6),
    };
    ascii_to_string(bytes)
}

} // verus!
