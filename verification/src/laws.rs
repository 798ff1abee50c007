//! The library-wide laws: precedence of direct connections, and the
//! parse/render round trip.

use vstd::prelude::*;

use crate::ip::{is_local, IpAddress, Ipv4Address, Ipv6Address};
use crate::parse::{
    all_digits, hex_value, is_dec_octet, is_digit, is_hex_digit, is_hex_group, parse_ip_spec,
    parse_ipv4_spec, parse_ipv6_spec, v6_of_groups,
};
use crate::render::{
    dec_digits, hex_digits, ip_literal, lemma_dec_digits, lemma_hex_digits, v4_literal, v6_literal,
};
use crate::resolve::{resolve_spec, Strategy};
use crate::text::{
    join_bytes, lemma_find_pair_none, lemma_join_split, lemma_split_join, split_bytes,
};

verus! {

/// Direct connections are always trusted over any header: under every
/// strategy, a present, non-local peer address resolves to itself, whatever
/// the headers hold.
pub proof fn lemma_direct_connection_precedence(
    strategy: Strategy,
    p: IpAddress,
    real_h: Option<Seq<u8>>,
    fwd: Option<Seq<u8>>,
)
    requires
        !is_local(p),
    ensures
        resolve_spec(strategy, Some(p), real_h, fwd) == Some(p),
{
}

/// Resolution fails only when nothing at all is available: under the
/// header-consulting strategies a present peer address guarantees an
/// answer, so a failed resolution means the peer was absent and no header
/// yielded an address.
pub proof fn lemma_failure_means_nothing_available(
    strategy: Strategy,
    peer: Option<IpAddress>,
    real_h: Option<Seq<u8>>,
    fwd: Option<Seq<u8>>,
)
    requires
        strategy != Strategy::PeerOnly,
        resolve_spec(strategy, peer, real_h, fwd) is None,
    ensures
        peer is None,
        crate::resolve::header_result(real_h) is None,
        strategy == Strategy::ChainWalk ==> crate::resolve::chain_header_result(fwd) is None,
{
}

/// The chain walk never discards evidence: once a fallback address has
/// been recorded, the walk cannot end in failure. In particular a chain
/// whose hops are all local still yields an address rather than nothing.
pub proof fn lemma_chain_walk_degrades_gracefully(s: Seq<u8>, fb: Option<IpAddress>)
    requires
        crate::resolve::chain_lookup(s, fb) is None,
    ensures
        fb is None,
    decreases s.len(),
{
    if s.len() > 0 {
        match crate::text::rfind_byte(s, 44) {
            None => {},
            Some(i0) => {
                let i: int = if 0 <= i0 < s.len() {
                    i0
                } else {
                    0
                };
                match parse_ip_spec(crate::text::trim_bytes(s.skip(i + 1))) {
                    None => {},
                    Some(ip) => {
                        if is_local(ip) {
                            let nfb = if fb is Some {
                                fb
                            } else {
                                Some(ip)
                            };
                            lemma_chain_walk_degrades_gracefully(s.take(i), nfb);
                        }
                    },
                }
            },
        }
    }
}

/// Joining non-empty separator-free pieces never puts two separators next
/// to each other, nor one at either end.
proof fn lemma_join_no_pair(parts: Seq<Seq<u8>>, sep: u8)
    requires
        parts.len() >= 1,
        forall|j: int, k: int|
            0 <= j < parts.len() && 0 <= k < parts[j].len() ==> parts[j][k] != sep,
        forall|j: int| 0 <= j < parts.len() ==> #[trigger] parts[j].len() >= 1,
    ensures
        join_bytes(parts, sep).len() >= 1,
        join_bytes(parts, sep)[0] != sep,
        join_bytes(parts, sep)[join_bytes(parts, sep).len() - 1] != sep,
        forall|k: int|
            0 <= k < join_bytes(parts, sep).len() - 1 ==> !(#[trigger] join_bytes(parts, sep)[k]
                == sep && join_bytes(parts, sep)[k + 1] == sep),
    decreases parts.len(),
{
    if parts.len() == 1 {
        assert(join_bytes(parts, sep) == parts[0]);
        assert(forall|k: int| 0 <= k < parts[0].len() ==> #[trigger] parts[0][k] != sep);
    } else {
        let p0 = parts[0];
        let rest = parts.skip(1);
        assert(forall|j: int, k: int|
            0 <= j < rest.len() && 0 <= k < rest[j].len() ==> #[trigger] rest[j][k] != sep);
        assert(forall|j: int| 0 <= j < rest.len() ==> #[trigger] rest[j].len() >= 1);
        lemma_join_no_pair(rest, sep);
        let jr = join_bytes(rest, sep);
        let full = join_bytes(parts, sep);
        assert(full == p0 + seq![sep] + jr);
        assert(forall|k: int| 0 <= k < p0.len() ==> #[trigger] p0[k] != sep);
        assert(p0.len() >= 1);
        assert(full[0] == p0[0]);
        assert(full.len() == p0.len() + 1 + jr.len());
        assert(full[full.len() - 1] == jr[jr.len() - 1]);
        assert forall|k: int| 0 <= k < full.len() - 1 implies !(#[trigger] full[k] == sep
            && full[k + 1] == sep) by {
            if k < p0.len() - 1 {
                assert(full[k] == p0[k]);
            } else if k == p0.len() - 1 {
                assert(full[k] == p0[k]);
            } else if k == p0.len() {
                assert(full[k + 1] == jr[0]);
            } else {
                assert(full[k] == jr[k - p0.len() - 1]);
                assert(full[k + 1] == jr[k - p0.len()]);
            }
        }
    }
}

/// Every byte of a join of digit-only pieces is a digit or the separator.
proof fn lemma_join_digit_bytes(parts: Seq<Seq<u8>>, sep: u8)
    requires
        forall|j: int| 0 <= j < parts.len() ==> all_digits(#[trigger] parts[j]),
    ensures
        forall|k: int|
            0 <= k < join_bytes(parts, sep).len() ==> is_digit(
                #[trigger] join_bytes(parts, sep)[k],
            ) || join_bytes(parts, sep)[k] == sep,
    decreases parts.len(),
{
    if parts.len() == 0 {
    } else if parts.len() == 1 {
        assert(join_bytes(parts, sep) == parts[0]);
        assert(all_digits(parts[0]));
    } else {
        let p0 = parts[0];
        let rest = parts.skip(1);
        assert(forall|j: int| 0 <= j < rest.len() ==> all_digits(#[trigger] rest[j]));
        lemma_join_digit_bytes(rest, sep);
        let jr = join_bytes(rest, sep);
        let full = join_bytes(parts, sep);
        assert(full == p0 + seq![sep] + jr);
        assert(all_digits(p0));
        assert forall|k: int| 0 <= k < full.len() implies is_digit(#[trigger] full[k]) || full[k]
            == sep by {
            if k < p0.len() {
                assert(full[k] == p0[k]);
            } else if k == p0.len() {
            } else {
                assert(full[k] == jr[k - p0.len() - 1]);
            }
        }
    }
}

/// A string that parses as an IPv4 literal holds only digits and dots.
proof fn lemma_ipv4_literal_bytes(s: Seq<u8>)
    requires
        parse_ipv4_spec(s) is Some,
    ensures
        forall|k: int| 0 <= k < s.len() ==> is_digit(#[trigger] s[k]) || s[k] == 46,
{
    let parts = split_bytes(s, 46);
    lemma_join_split(s, 46);
    assert(parts.len() == 4);
    assert forall|j: int| 0 <= j < parts.len() implies all_digits(#[trigger] parts[j]) by {
        if j == 0 {
            assert(is_dec_octet(parts[0]));
        } else if j == 1 {
            assert(is_dec_octet(parts[1]));
        } else if j == 2 {
            assert(is_dec_octet(parts[2]));
        } else {
            assert(is_dec_octet(parts[3]));
        }
    }
    lemma_join_digit_bytes(parts, 46);
}

/// Re-parsing the dotted-quad literal of an IPv4 address yields it back.
proof fn lemma_v4_roundtrip(ip: Ipv4Address)
    ensures
        parse_ipv4_spec(v4_literal(ip)) == Some(ip),
{
    let ga = dec_digits(ip.a as nat);
    let gb = dec_digits(ip.b as nat);
    let gc = dec_digits(ip.c as nat);
    let gd = dec_digits(ip.d as nat);
    lemma_dec_digits(ip.a as nat);
    lemma_dec_digits(ip.b as nat);
    lemma_dec_digits(ip.c as nat);
    lemma_dec_digits(ip.d as nat);
    let parts = seq![ga, gb, gc, gd];
    assert(v4_literal(ip) =~= join_bytes(parts, 46)) by {
        reveal_with_fuel(join_bytes, 5);
        assert(parts.skip(1) =~~= seq![gb, gc, gd]);
        assert(seq![gb, gc, gd].skip(1) =~~= seq![gc, gd]);
        assert(seq![gc, gd].skip(1) =~~= seq![gd]);
    }
    assert forall|j: int, k: int|
        0 <= j < parts.len() && 0 <= k < parts[j].len() implies parts[j][k] != 46 by {
        if j == 0 {
            assert(is_digit(ga[k]));
        } else if j == 1 {
            assert(is_digit(gb[k]));
        } else if j == 2 {
            assert(is_digit(gc[k]));
        } else {
            assert(is_digit(gd[k]));
        }
    }
    lemma_split_join(parts, 46);
    assert(is_dec_octet(ga));
    assert(is_dec_octet(gb));
    assert(is_dec_octet(gc));
    assert(is_dec_octet(gd));
}

/// The eight groups of the canonical IPv6 literal.
spec fn v6_group_seq(ip: Ipv6Address) -> Seq<Seq<u8>> {
    seq![
        hex_digits(ip.s0 as nat),
        hex_digits(ip.s1 as nat),
        hex_digits(ip.s2 as nat),
        hex_digits(ip.s3 as nat),
        hex_digits(ip.s4 as nat),
        hex_digits(ip.s5 as nat),
        hex_digits(ip.s6 as nat),
        hex_digits(ip.s7 as nat),
    ]
}

#[verifier::rlimit(100)]
#[verifier::spinoff_prover]
proof fn lemma_v6_literal_is_join(ip: Ipv6Address)
    ensures
        v6_literal(ip) == join_bytes(v6_group_seq(ip), 58),
{
    let g0 = hex_digits(ip.s0 as nat);
    let g1 = hex_digits(ip.s1 as nat);
    let g2 = hex_digits(ip.s2 as nat);
    let g3 = hex_digits(ip.s3 as nat);
    let g4 = hex_digits(ip.s4 as nat);
    let g5 = hex_digits(ip.s5 as nat);
    let g6 = hex_digits(ip.s6 as nat);
    let g7 = hex_digits(ip.s7 as nat);
    let c = seq![58u8];
    let parts = v6_group_seq(ip);
    let p1 = seq![g1, g2, g3, g4, g5, g6, g7];
    let p2 = seq![g2, g3, g4, g5, g6, g7];
    let p3 = seq![g3, g4, g5, g6, g7];
    let p4 = seq![g4, g5, g6, g7];
    let p5 = seq![g5, g6, g7];
    let p6 = seq![g6, g7];
    let p7 = seq![g7];
    assert(parts.skip(1) =~~= p1);
    assert(p1.skip(1) =~~= p2);
    assert(p2.skip(1) =~~= p3);
    assert(p3.skip(1) =~~= p4);
    assert(p4.skip(1) =~~= p5);
    assert(p5.skip(1) =~~= p6);
    assert(p6.skip(1) =~~= p7);
    let t7 = g7;
    let t6 = (g6 + c) + t7;
    let t5 = (g5 + c) + t6;
    let t4 = (g4 + c) + t5;
    let t3 = (g3 + c) + t4;
    let t2 = (g2 + c) + t3;
    let t1 = (g1 + c) + t2;
    let t0 = (g0 + c) + t1;
    assert(join_bytes(p7, 58) == t7);
    assert(join_bytes(p6, 58) == t6);
    assert(join_bytes(p5, 58) == t5);
    assert(join_bytes(p4, 58) == t4);
    assert(join_bytes(p3, 58) == t3);
    assert(join_bytes(p2, 58) == t2);
    assert(join_bytes(p1, 58) == t1);
    assert(join_bytes(parts, 58) == t0);
    assert(v6_literal(ip) =~= t0);
}

#[verifier::spinoff_prover]
proof fn lemma_v6_group_props(ip: Ipv6Address)
    ensures
        crate::parse::all_hex_groups(v6_group_seq(ip)),
        forall|j: int, k: int|
            0 <= j < v6_group_seq(ip).len() && 0 <= k < v6_group_seq(ip)[j].len()
                ==> v6_group_seq(ip)[j][k] != 58,
        forall|j: int| 0 <= j < v6_group_seq(ip).len() ==> #[trigger] v6_group_seq(ip)[j].len()
            >= 1,
        hex_value(v6_group_seq(ip)[0]) == ip.s0,
        hex_value(v6_group_seq(ip)[1]) == ip.s1,
        hex_value(v6_group_seq(ip)[2]) == ip.s2,
        hex_value(v6_group_seq(ip)[3]) == ip.s3,
        hex_value(v6_group_seq(ip)[4]) == ip.s4,
        hex_value(v6_group_seq(ip)[5]) == ip.s5,
        hex_value(v6_group_seq(ip)[6]) == ip.s6,
        hex_value(v6_group_seq(ip)[7]) == ip.s7,
{
    let parts = v6_group_seq(ip);
    lemma_hex_digits(ip.s0 as nat);
    lemma_hex_digits(ip.s1 as nat);
    lemma_hex_digits(ip.s2 as nat);
    lemma_hex_digits(ip.s3 as nat);
    lemma_hex_digits(ip.s4 as nat);
    lemma_hex_digits(ip.s5 as nat);
    lemma_hex_digits(ip.s6 as nat);
    lemma_hex_digits(ip.s7 as nat);
    assert forall|j: int| 0 <= j < parts.len() implies is_hex_group(#[trigger] parts[j]) by {
        if j == 0 {
        } else if j == 1 {
        } else if j == 2 {
        } else if j == 3 {
        } else if j == 4 {
        } else if j == 5 {
        } else if j == 6 {
        } else {
        }
    }
    assert forall|j: int, k: int|
        0 <= j < parts.len() && 0 <= k < parts[j].len() implies parts[j][k] != 58 by {
        assert(is_hex_group(parts[j]));
        assert(is_hex_digit(parts[j][k]));
    }
}

/// Re-parsing the colon-grouped literal of an IPv6 address yields it back.
#[verifier::rlimit(100)]
#[verifier::spinoff_prover]
proof fn lemma_v6_roundtrip(ip: Ipv6Address)
    ensures
        parse_ipv6_spec(v6_literal(ip)) == Some(ip),
        !(parse_ipv4_spec(v6_literal(ip)) is Some),
{
    let parts = v6_group_seq(ip);
    let full = v6_literal(ip);
    lemma_v6_literal_is_join(ip);
    lemma_v6_group_props(ip);
    lemma_join_no_pair(parts, 58);
    lemma_find_pair_none(full, 58);
    lemma_split_join(parts, 58);
    // the literal holds a colon right after the first group, so it cannot
    // also be an IPv4 literal
    let g0 = hex_digits(ip.s0 as nat);
    assert(full[g0.len() as int] == 58) by {
        reveal_with_fuel(join_bytes, 2);
        assert(join_bytes(parts, 58) == parts[0] + seq![58u8] + join_bytes(parts.skip(1), 58));
        assert((g0 + seq![58u8])[g0.len() as int] == 58);
        assert((g0 + seq![58u8] + join_bytes(parts.skip(1), 58))[g0.len() as int] == (g0
            + seq![58u8])[g0.len() as int]);
    }
    if parse_ipv4_spec(full) is Some {
        lemma_ipv4_literal_bytes(full);
        assert(is_digit(full[g0.len() as int]) || full[g0.len() as int] == 46);
        assert(false);
    }
    let vals = crate::parse::group_values(split_bytes(full, 58));
    assert(vals.len() == 8);
    assert(vals[0] == ip.s0 && vals[1] == ip.s1 && vals[2] == ip.s2 && vals[3] == ip.s3 && vals[4]
        == ip.s4 && vals[5] == ip.s5 && vals[6] == ip.s6 && vals[7] == ip.s7);
    assert(v6_of_groups(vals, Seq::<u16>::empty()) == ip);
}

/// Round trip: the canonical literal of any address re-parses to that
/// address; in particular, parsing a valid literal and rendering the result
/// reproduces a form that parses to the same address.
pub proof fn lemma_render_reparse(ip: IpAddress)
    ensures
        parse_ip_spec(ip_literal(ip)) == Some(ip),
{
    match ip {
        IpAddress::V4(v4) => {
            lemma_v4_roundtrip(v4);
        },
        IpAddress::V6(v6) => {
            lemma_v6_roundtrip(v6);
        },
    }
}

/// Round trip from a literal: whatever address a literal parses to, the
/// rendering of that address parses back to the very same address.
pub proof fn lemma_parse_render_roundtrip(s: Seq<u8>, ip: IpAddress)
    requires
        parse_ip_spec(s) == Some(ip),
    ensures
        parse_ip_spec(ip_literal(ip)) == Some(ip),
{
    lemma_render_reparse(ip);
}

} // verus!
