//! Parsing of IPv4 and IPv6 textual literals.
//!
//! IPv4 literals are four dotted decimal octets without leading zeros.
//! IPv6 literals are colon-separated groups of one to four hexadecimal
//! digits, with at most one `::` standing for a run of zero groups.

use vstd::prelude::*;

use crate::ip::{IpAddress, Ipv4Address, Ipv6Address};
use crate::text::{find_pair, split_bytes};
use vstd::string::StringSliceAdditionalSpecFns;

verus! {

pub open spec fn is_digit(b: u8) -> bool {
    48 <= b && b <= 57
}

pub open spec fn is_hex_digit(b: u8) -> bool {
    ||| (48 <= b && b <= 57)
    ||| (97 <= b && b <= 102)
    ||| (65 <= b && b <= 70)
}

pub open spec fn hex_digit_val(b: u8) -> nat {
    if 48 <= b && b <= 57 {
        (b - 48) as nat
    } else if 97 <= b && b <= 102 {
        (b - 87) as nat
    } else {
        (b - 55) as nat
    }
}

/// The value of a string of decimal digits.
pub open spec fn dec_value(s: Seq<u8>) -> nat
    decreases s.len(),
{
    if s.len() == 0 {
        0
    } else {
        dec_value(s.drop_last()) * 10 + (s.last() - 48) as nat
    }
}

/// The value of a string of hexadecimal digits.
pub open spec fn hex_value(s: Seq<u8>) -> nat
    decreases s.len(),
{
    if s.len() == 0 {
        0
    } else {
        hex_value(s.drop_last()) * 16 + hex_digit_val(s.last())
    }
}

pub open spec fn pow16(n: nat) -> nat
    decreases n,
{
    if n == 0 {
        1
    } else {
        16 * pow16((n - 1) as nat)
    }
}

pub proof fn lemma_hex_value_bound(s: Seq<u8>)
    requires
        all_hex_digits(s),
    ensures
        hex_value(s) < pow16(s.len()),
    decreases s.len(),
{
    if s.len() == 0 {
    } else {
        let t = s.drop_last();
        assert(forall|k: int| 0 <= k < t.len() ==> is_hex_digit(#[trigger] t[k]));
        lemma_hex_value_bound(t);
        assert(hex_digit_val(s.last()) < 16);
        assert(hex_value(t) * 16 + 15 < pow16(t.len()) * 16) by (nonlinear_arith)
            requires
                hex_value(t) < pow16(t.len()),
        ;
    }
}

pub open spec fn all_digits(s: Seq<u8>) -> bool {
    forall|k: int| 0 <= k < s.len() ==> is_digit(#[trigger] s[k])
}

pub open spec fn all_hex_digits(s: Seq<u8>) -> bool {
    forall|k: int| 0 <= k < s.len() ==> is_hex_digit(#[trigger] s[k])
}

/// A valid dotted-quad component: one to three decimal digits, no leading
/// zero, value at most 255.
pub open spec fn is_dec_octet(s: Seq<u8>) -> bool {
    &&& 1 <= s.len() <= 3
    &&& all_digits(s)
    &&& (s.len() > 1 ==> s[0] != 48)
    &&& dec_value(s) <= 255
}

/// A valid IPv6 group: one to four hexadecimal digits.
pub open spec fn is_hex_group(s: Seq<u8>) -> bool {
    &&& 1 <= s.len() <= 4
    &&& all_hex_digits(s)
}

pub open spec fn octet_of(s: Seq<u8>) -> Option<u8> {
    if is_dec_octet(s) {
        Some(dec_value(s) as u8)
    } else {
        None
    }
}

pub open spec fn group_of(s: Seq<u8>) -> Option<u16> {
    if is_hex_group(s) {
        Some(hex_value(s) as u16)
    } else {
        None
    }
}

/// The IPv4 address denoted by `s`, if `s` is a valid dotted-quad literal.
pub open spec fn parse_ipv4_spec(s: Seq<u8>) -> Option<Ipv4Address> {
    let parts = split_bytes(s, 46);
    if parts.len() == 4 && is_dec_octet(parts[0]) && is_dec_octet(parts[1]) && is_dec_octet(
        parts[2],
    ) && is_dec_octet(parts[3]) {
        Some(
            Ipv4Address {
                a: dec_value(parts[0]) as u8,
                b: dec_value(parts[1]) as u8,
                c: dec_value(parts[2]) as u8,
                d: dec_value(parts[3]) as u8,
            },
        )
    } else {
        None
    }
}

pub open spec fn all_hex_groups(parts: Seq<Seq<u8>>) -> bool {
    forall|j: int| 0 <= j < parts.len() ==> is_hex_group(#[trigger] parts[j])
}

/// The segment at position `k` of an address whose leading groups are `l`
/// and whose trailing groups are `r`, with zeros in between.
pub open spec fn seg_at(l: Seq<u16>, r: Seq<u16>, k: int) -> u16 {
    if k < l.len() {
        l[k]
    } else if k >= 8 - r.len() {
        r[k - (8 - r.len())]
    } else {
        0
    }
}

pub open spec fn v6_of_groups(l: Seq<u16>, r: Seq<u16>) -> Ipv6Address {
    Ipv6Address {
        s0: seg_at(l, r, 0),
        s1: seg_at(l, r, 1),
        s2: seg_at(l, r, 2),
        s3: seg_at(l, r, 3),
        s4: seg_at(l, r, 4),
        s5: seg_at(l, r, 5),
        s6: seg_at(l, r, 6),
        s7: seg_at(l, r, 7),
    }
}

pub open spec fn group_values(parts: Seq<Seq<u8>>) -> Seq<u16> {
    parts.map_values(|p: Seq<u8>| (hex_value(p) as u16))
}

/// The groups on one side of a `::`, an empty side standing for no groups.
pub open spec fn side_groups(s: Seq<u8>) -> Seq<Seq<u8>> {
    if s.len() == 0 {
        Seq::<Seq<u8>>::empty()
    } else {
        split_bytes(s, 58)
    }
}

/// The IPv6 address denoted by `s`, if `s` is a valid colon-grouped literal.
pub open spec fn parse_ipv6_spec(s: Seq<u8>) -> Option<Ipv6Address> {
    match find_pair(s, 58) {
        None => {
            let parts = split_bytes(s, 58);
            if parts.len() == 8 && all_hex_groups(parts) {
                Some(v6_of_groups(group_values(parts), Seq::<u16>::empty()))
            } else {
                None
            }
        },
        Some(i) => {
            let l = side_groups(s.take(i));
            let r = side_groups(s.skip(i + 2));
            if all_hex_groups(l) && all_hex_groups(r) && l.len() + r.len() <= 7 {
                Some(v6_of_groups(group_values(l), group_values(r)))
            } else {
                None
            }
        },
    }
}

/// The address denoted by `s`: a dotted-quad IPv4 literal, or else a
/// colon-grouped IPv6 literal.
pub open spec fn parse_ip_spec(s: Seq<u8>) -> Option<IpAddress> {
    match parse_ipv4_spec(s) {
        Some(v4) => Some(IpAddress::V4(v4)),
        None => match parse_ipv6_spec(s) {
            Some(v6) => Some(IpAddress::V6(v6)),
            None => None,
        },
    }
}

fn is_digit_b(b: u8) -> (r: bool)
    ensures
        r == is_digit(b),
{
    48 <= b && b <= 57
}

fn is_hex_digit_b(b: u8) -> (r: bool)
    ensures
        r == is_hex_digit(b),
{
    (48 <= b && b <= 57) || (97 <= b && b <= 102) || (65 <= b && b <= 70)
}

fn hex_val_b(b: u8) -> (r: u8)
    requires
        is_hex_digit(b),
    ensures
        r as nat == hex_digit_val(b),
        r < 16,
{
    if b <= 57 {
        b - 48
    } else if b >= 97 {
        b - 87
    } else {
        b - 55
    }
}

/// Parses one dotted-quad component.
fn parse_octet(p: &[u8]) -> (r: Option<u8>)
    ensures
        r == octet_of(p@),
{
    let n = p.len();
    if n == 1 {
        if is_digit_b(p[0]) {
            proof {
                reveal_with_fuel(dec_value, 5);
                assert(all_digits(p@));
                assert(p@.drop_last() =~= Seq::<u8>::empty());
                assert(dec_value(p@) == (p@[0] - 48) as nat);
            }
            Some(p[0] - 48)
        } else {
            None
        }
    } else if n == 2 {
        if is_digit_b(p[0]) && is_digit_b(p[1]) && p[0] != 48 {
            proof {
                reveal_with_fuel(dec_value, 5);
                assert(all_digits(p@));
                let t = p@.drop_last();
                assert(t.len() == 1 && t[0] == p@[0]);
                assert(t.drop_last() =~= Seq::<u8>::empty());
                assert(dec_value(p@) == ((p@[0] - 48) * 10 + (p@[1] - 48)) as nat);
            }
            Some((p[0] - 48) * 10 + (p[1] - 48))
        } else {
            None
        }
    } else if n == 3 {
        if is_digit_b(p[0]) && is_digit_b(p[1]) && is_digit_b(p[2]) && p[0] != 48 {
            let v: u16 = (p[0] - 48) as u16 * 100 + (p[1] - 48) as u16 * 10 + (p[2] - 48) as u16;
            proof {
                reveal_with_fuel(dec_value, 5);
                assert(all_digits(p@));
                let t = p@.drop_last();
                let t2 = t.drop_last();
                assert(t.len() == 2 && t[0] == p@[0] && t[1] == p@[1]);
                assert(t2.len() == 1 && t2[0] == p@[0]);
                assert(t2.drop_last() =~= Seq::<u8>::empty());
                assert(dec_value(p@) == ((p@[0] - 48) * 100 + (p@[1] - 48) * 10 + (p@[2]
                    - 48)) as nat);
            }
            if v <= 255 {
                Some(v as u8)
            } else {
                None
            }
        } else {
            None
        }
    } else {
        None
    }
}

/// Parses one IPv6 group.
fn parse_group(p: &[u8]) -> (r: Option<u16>)
    ensures
        r == group_of(p@),
{
    let n = p.len();
    if n == 0 || n > 4 {
        return None;
    }
    let mut k: usize = 0;
    while k < n
        invariant
            0 <= k <= n,
            n == p@.len(),
            forall|j: int| 0 <= j < k ==> is_hex_digit(#[trigger] p@[j]),
        decreases n - k,
    {
        if !is_hex_digit_b(p[k]) {
            return None;
        }
        k += 1;
    }
    assert(all_hex_digits(p@));
    let mut v: u16 = 0;
    let mut k2: usize = 0;
    proof {
        assert(p@.take(0) =~= Seq::<u8>::empty());
    }
    while k2 < n
        invariant
            0 <= k2 <= n,
            n == p@.len() <= 4,
            all_hex_digits(p@),
            v as nat == hex_value(p@.take(k2 as int)),
        decreases n - k2,
    {
        proof {
            let pre = p@.take(k2 as int);
            assert(forall|j: int| 0 <= j < pre.len() ==> is_hex_digit(#[trigger] pre[j]));
            lemma_hex_value_bound(pre);
            reveal_with_fuel(pow16, 5);
            assert(pow16(pre.len()) <= 4096);
            let t = p@.take(k2 as int + 1);
            assert(t.drop_last() =~= p@.take(k2 as int));
            assert(t.last() == p@[k2 as int]);
            assert(hex_digit_val(p@[k2 as int]) < 16);
        }
        v = v * 16 + hex_val_b(p[k2]) as u16;
        k2 += 1;
    }
    proof {
        assert(p@.take(n as int) =~= p@);
    }
    Some(v)
}

/// Parses a dotted-quad IPv4 literal.
pub fn parse_ipv4(s: &[u8]) -> (r: Option<Ipv4Address>)
    ensures
        r == parse_ipv4_spec(s@),
{
    let parts = crate::text::split_exec(s, 46);
    let ghost sparts = split_bytes(s@, 46);
    proof {
        assert(parts@.map_values(|p: Vec<u8>| p@).len() == sparts.len());
    }
    if parts.len() != 4 {
        return None;
    }
    proof {
        assert(parts@.map_values(|p: Vec<u8>| p@)[0] == sparts[0]);
        assert(parts@.map_values(|p: Vec<u8>| p@)[1] == sparts[1]);
        assert(parts@.map_values(|p: Vec<u8>| p@)[2] == sparts[2]);
        assert(parts@.map_values(|p: Vec<u8>| p@)[3] == sparts[3]);
    }
    let a = parse_octet(parts[0].as_slice());
    let b = parse_octet(parts[1].as_slice());
    let c = parse_octet(parts[2].as_slice());
    let d = parse_octet(parts[3].as_slice());
    match (a, b, c, d) {
        (Some(a), Some(b), Some(c), Some(d)) => Some(Ipv4Address { a, b, c, d }),
        _ => None,
    }
}

/// Parses the groups on one side of a `::`.
fn parse_side(s: &[u8]) -> (r: Option<Vec<u16>>)
    ensures
        match r {
            Some(v) => all_hex_groups(side_groups(s@)) && v@ == group_values(side_groups(s@)),
            None => !all_hex_groups(side_groups(s@)),
        },
{
    if s.len() == 0 {
        proof {
            assert(side_groups(s@) =~~= Seq::<Seq<u8>>::empty());
            assert(group_values(side_groups(s@)) =~= Seq::<u16>::empty());
        }
        return Some(Vec::new());
    }
    let parts = crate::text::split_exec(s, 58);
    let ghost sparts = split_bytes(s@, 58);
    let mut out: Vec<u16> = Vec::new();
    let mut j: usize = 0;
    proof {
        assert(parts@.map_values(|p: Vec<u8>| p@).len() == sparts.len());
    }
    while j < parts.len()
        invariant
            0 <= j <= parts@.len(),
            parts@.map_values(|p: Vec<u8>| p@) == sparts,
            sparts == split_bytes(s@, 58),
            s@.len() > 0,
            out@.len() == j,
            forall|q: int| 0 <= q < j ==> is_hex_group(#[trigger] sparts[q]),
            forall|q: int| 0 <= q < j ==> out@[q] == (hex_value(sparts[q]) as u16),
        decreases parts@.len() - j,
    {
        proof {
            assert(parts@.map_values(|p: Vec<u8>| p@)[j as int] == sparts[j as int]);
        }
        match parse_group(parts[j].as_slice()) {
            Some(v) => {
                out.push(v);
            },
            None => {
                proof {
                    assert(!is_hex_group(sparts[j as int]));
                }
                return None;
            },
        }
        j += 1;
    }
    proof {
        assert(all_hex_groups(side_groups(s@)));
        assert(out@ =~= group_values(side_groups(s@)));
    }
    Some(out)
}

fn seg_exec(l: &Vec<u16>, r: &Vec<u16>, k: usize) -> (v: u16)
    requires
        l@.len() + r@.len() <= 8,
        k < 8,
    ensures
        v == seg_at(l@, r@, k as int),
{
    if k < l.len() {
        l[k]
    } else if k >= 8 - r.len() {
        r[k - (8 - r.len())]
    } else {
        0
    }
}

/// Finds the first `::` in a byte string.
fn find_dc(s: &[u8]) -> (r: Option<usize>)
    ensures
        match r {
            Some(i) => find_pair(s@, 58) == Some(i as int) && i + 2 <= s@.len(),
            None => find_pair(s@, 58) == None::<int>,
        },
{
    let n = s.len();
    if n < 2 {
        proof {
            crate::text::lemma_find_pair_none(s@, 58);
        }
        return None;
    }
    let mut i: usize = 0;
    while i < n - 1
        invariant
            0 <= i <= n - 1,
            n == s@.len(),
            n >= 2,
            forall|k: int| 0 <= k < i ==> !(#[trigger] s@[k] == 58 && s@[k + 1] == 58),
        decreases n - i,
    {
        if s[i] == 58 && s[i + 1] == 58 {
            proof {
                crate::text::lemma_find_pair_at(s@, 58, i as int);
            }
            return Some(i);
        }
        i += 1;
    }
    proof {
        crate::text::lemma_find_pair_none(s@, 58);
    }
    None
}

/// Parses a colon-grouped IPv6 literal.
pub fn parse_ipv6(s: &[u8]) -> (r: Option<Ipv6Address>)
    ensures
        r == parse_ipv6_spec(s@),
{
    let n = s.len();
    let dc = find_dc(s);
    match dc {
        None => {
            let parts = crate::text::split_exec(s, 58);
            let ghost sparts = split_bytes(s@, 58);
            proof {
                assert(parts@.map_values(|p: Vec<u8>| p@).len() == sparts.len());
            }
            if parts.len() != 8 {
                return None;
            }
            let mut vals: Vec<u16> = Vec::new();
            let mut j: usize = 0;
            while j < 8
                invariant
                    0 <= j <= 8,
                    parts@.len() == 8,
                    parts@.map_values(|p: Vec<u8>| p@) == sparts,
                    sparts == split_bytes(s@, 58),
                    find_pair(s@, 58) == None::<int>,
                    vals@.len() == j,
                    forall|q: int| 0 <= q < j ==> is_hex_group(#[trigger] sparts[q]),
                    forall|q: int| 0 <= q < j ==> vals@[q] == (hex_value(sparts[q]) as u16),
                decreases 8 - j,
            {
                proof {
                    assert(parts@.map_values(|p: Vec<u8>| p@)[j as int] == sparts[j as int]);
                }
                match parse_group(parts[j].as_slice()) {
                    Some(v) => {
                        vals.push(v);
                    },
                    None => {
                        proof {
                            assert(!is_hex_group(sparts[j as int]));
                        }
                        return None;
                    },
                }
                j += 1;
            }
            proof {
                assert(all_hex_groups(sparts));
                assert(vals@ =~= group_values(sparts));
            }
            let empty: Vec<u16> = Vec::new();
            let r0 = seg_exec(&vals, &empty, 0);
            let r1 = seg_exec(&vals, &empty, 1);
            let r2 = seg_exec(&vals, &empty, 2);
            let r3 = seg_exec(&vals, &empty, 3);
            let r4 = seg_exec(&vals, &empty, 4);
            let r5 = seg_exec(&vals, &empty, 5);
            let r6 = seg_exec(&vals, &empty, 6);
            let r7 = seg_exec(&vals, &empty, 7);
            proof {
                assert(empty@ =~= Seq::<u16>::empty());
            }
            Some(Ipv6Address { s0: r0, s1: r1, s2: r2, s3: r3, s4: r4, s5: r5, s6: r6, s7: r7 })
        },
        Some(i) => {
            let left = vstd::slice::slice_subrange(s, 0, i);
            let right = vstd::slice::slice_subrange(s, i + 2, n);
            proof {
                assert(left@ =~= s@.take(i as int));
                assert(right@ =~= s@.skip(i as int + 2));
            }
            let lv = parse_side(left);
            match lv {
                None => None,
                Some(lvals) => {
                    let rv = parse_side(right);
                    match rv {
                        None => None,
                        Some(rvals) => {
                            if lvals.len() <= 7 && rvals.len() <= 7 - lvals.len() {
                                let r0 = seg_exec(&lvals, &rvals, 0);
                                let r1 = seg_exec(&lvals, &rvals, 1);
                                let r2 = seg_exec(&lvals, &rvals, 2);
                                let r3 = seg_exec(&lvals, &rvals, 3);
                                let r4 = seg_exec(&lvals, &rvals, 4);
                                let r5 = seg_exec(&lvals, &rvals, 5);
                                let r6 = seg_exec(&lvals, &rvals, 6);
                                let r7 = seg_exec(&lvals, &rvals, 7);
                                proof {
                                    assert(lvals@.len() == side_groups(s@.take(i as int)).len());
                                    assert(rvals@.len() == side_groups(
                                        s@.skip(i as int + 2),
                                    ).len());
                                }
                                Some(
                                    Ipv6Address {
                                        s0: r0,
                                        s1: r1,
                                        s2: r2,
                                        s3: r3,
                                        s4: r4,
                                        s5: r5,
                                        s6: r6,
                                        s7: r7,
                                    },
                                )
                            } else {
                                None
                            }
                        },
                    }
                },
            }
        },
    }
}

/// Parses an IP literal given as a string slice.
pub fn parse_ip_str(s: &str) -> (r: Option<IpAddress>)
    ensures
        r == parse_ip_spec(s.spec_bytes()),
{
    parse_ip(s.as_bytes())
}

/// Parses an IP literal of either family.
pub fn parse_ip(s: &[u8]) -> (r: Option<IpAddress>)
    ensures
        r == parse_ip_spec(s@),
{
    match parse_ipv4(s) {
        Some(v4) => Some(IpAddress::V4(v4)),
        None => match parse_ipv6(s) {
            Some(v6) => Some(IpAddress::V6(v6)),
            None => None,
        },
    }
}

} // verus!
