//! Byte-level text helpers: splitting on a separator, joining, trimming
//! surrounding whitespace, and searches from either end.

use vstd::prelude::*;

verus! {

/// ASCII whitespace, as trimmed from around chain tokens.
pub open spec fn is_space(b: u8) -> bool {
    b == 32 || b == 9 || b == 13 || b == 10
}

/// The pieces of `s` between occurrences of `sep`; always at least one piece.
pub open spec fn split_bytes(s: Seq<u8>, sep: u8) -> Seq<Seq<u8>>
    decreases s.len(),
{
    if s.len() == 0 {
        seq![Seq::<u8>::empty()]
    } else if s[0] == sep {
        seq![Seq::<u8>::empty()] + split_bytes(s.skip(1), sep)
    } else {
        let rest = split_bytes(s.skip(1), sep);
        seq![seq![s[0]] + rest[0]] + rest.skip(1)
    }
}

/// The pieces glued back together with `sep` between them.
pub open spec fn join_bytes(parts: Seq<Seq<u8>>, sep: u8) -> Seq<u8>
    decreases parts.len(),
{
    if parts.len() == 0 {
        Seq::<u8>::empty()
    } else if parts.len() == 1 {
        parts[0]
    } else {
        parts[0] + seq![sep] + join_bytes(parts.skip(1), sep)
    }
}

/// `s` without leading and trailing ASCII whitespace.
pub open spec fn trim_bytes(s: Seq<u8>) -> Seq<u8>
    decreases s.len(),
{
    if s.len() > 0 && is_space(s[0]) {
        trim_bytes(s.skip(1))
    } else if s.len() > 0 && is_space(s[s.len() - 1]) {
        trim_bytes(s.take(s.len() - 1))
    } else {
        s
    }
}

/// The index of the last occurrence of `b` in `s`.
pub open spec fn rfind_byte(s: Seq<u8>, b: u8) -> Option<int>
    decreases s.len(),
{
    if s.len() == 0 {
        None
    } else if s[s.len() - 1] == b {
        Some(s.len() - 1)
    } else {
        rfind_byte(s.take(s.len() - 1), b)
    }
}

/// The index of the first place where `b` occurs twice in a row.
pub open spec fn find_pair(s: Seq<u8>, b: u8) -> Option<int>
    decreases s.len(),
{
    if s.len() < 2 {
        None
    } else if s[0] == b && s[1] == b {
        Some(0int)
    } else {
        match find_pair(s.skip(1), b) {
            Some(i) => Some(i + 1),
            None => None,
        }
    }
}

pub proof fn lemma_split_nonempty(s: Seq<u8>, sep: u8)
    ensures
        split_bytes(s, sep).len() >= 1,
    decreases s.len(),
{
    if s.len() == 0 {
    } else {
        lemma_split_nonempty(s.skip(1), sep);
    }
}

/// The first piece extended at its front, the rest untouched.
pub open spec fn prepend_first(pre: Seq<u8>, parts: Seq<Seq<u8>>) -> Seq<Seq<u8>> {
    seq![pre + parts[0]] + parts.skip(1)
}

pub proof fn lemma_prepend_first_empty(parts: Seq<Seq<u8>>)
    requires
        parts.len() >= 1,
    ensures
        prepend_first(Seq::<u8>::empty(), parts) == parts,
{
    assert(prepend_first(Seq::<u8>::empty(), parts) =~~= parts);
}

pub proof fn lemma_prepend_first_concat(x: Seq<u8>, y: Seq<u8>, parts: Seq<Seq<u8>>)
    requires
        parts.len() >= 1,
    ensures
        prepend_first(x, prepend_first(y, parts)) == prepend_first(x + y, parts),
{
    assert(prepend_first(x, prepend_first(y, parts)) =~~= prepend_first(x + y, parts));
}

/// Splits a byte string on a separator; the executable form of `split_bytes`.
pub fn split_exec(s: &[u8], sep: u8) -> (parts: Vec<Vec<u8>>)
    ensures
        parts@.map_values(|p: Vec<u8>| p@) == split_bytes(s@, sep),
{
    let mut parts: Vec<Vec<u8>> = Vec::new();
    let mut cur: Vec<u8> = Vec::new();
    let mut i: usize = 0;
    proof {
        lemma_split_nonempty(s@, sep);
        assert(s@.skip(0) =~= s@);
        lemma_prepend_first_empty(split_bytes(s@, sep));
        assert(parts@.map_values(|p: Vec<u8>| p@) =~~= Seq::<Seq<u8>>::empty());
    }
    while i < s.len()
        invariant
            i <= s@.len(),
            split_bytes(s@, sep) == parts@.map_values(|p: Vec<u8>| p@) + prepend_first(
                cur@,
                split_bytes(s@.skip(i as int), sep),
            ),
        decreases s@.len() - i,
    {
        let ghost t = s@.skip(i as int);
        let ghost r = split_bytes(t.skip(1), sep);
        proof {
            assert(t.len() > 0);
            assert(t[0] == s@[i as int]);
            assert(t.skip(1) =~= s@.skip(i as int + 1));
            lemma_split_nonempty(t.skip(1), sep);
        }
        if s[i] == sep {
            proof {
                assert(t[0] == sep);
                assert(split_bytes(t, sep) == seq![Seq::<u8>::empty()] + r);
                assert(prepend_first(cur@, seq![Seq::<u8>::empty()] + r) =~~= seq![cur@]
                    + prepend_first(Seq::<u8>::empty(), r));
                lemma_prepend_first_empty(r);
            }
            let ghost old_parts = parts@;
            let ghost old_cur = cur@;
            parts.push(cur);
            cur = Vec::new();
            proof {
                assert(parts@.map_values(|p: Vec<u8>| p@) =~~= old_parts.map_values(
                    |p: Vec<u8>| p@,
                ) + seq![old_cur]);
                assert(old_parts.map_values(|p: Vec<u8>| p@) + (seq![old_cur] + prepend_first(
                    Seq::<u8>::empty(),
                    r,
                )) =~~= parts@.map_values(|p: Vec<u8>| p@) + prepend_first(cur@, r));
                assert(s@.skip(i as int + 1) =~= t.skip(1));
            }
        } else {
            proof {
                assert(t[0] != sep);
                assert(split_bytes(t, sep) == seq![seq![t[0]] + r[0]] + r.skip(1));
                assert(seq![seq![t[0]] + r[0]] + r.skip(1) =~~= prepend_first(seq![t[0]], r));
                lemma_prepend_first_concat(cur@, seq![s@[i as int]], r);
            }
            let ghost old_cur = cur@;
            cur.push(s[i]);
            proof {
                assert(cur@ =~= old_cur + seq![s@[i as int]]);
                assert(s@.skip(i as int + 1) =~= t.skip(1));
            }
        }
        i += 1;
    }
    proof {
        assert(s@.skip(i as int) =~= Seq::<u8>::empty());
        assert(split_bytes(s@.skip(i as int), sep) == seq![Seq::<u8>::empty()]);
        assert(prepend_first(cur@, seq![Seq::<u8>::empty()]) =~~= seq![cur@]);
    }
    let ghost old_parts = parts@;
    let ghost last = cur@;
    parts.push(cur);
    proof {
        assert(parts@.map_values(|p: Vec<u8>| p@) =~~= old_parts.map_values(|p: Vec<u8>| p@)
            + seq![last]);
    }
    parts
}

/// Whether a byte is ASCII whitespace; the executable form of `is_space`.
pub fn is_space_b(b: u8) -> (r: bool)
    ensures
        r == is_space(b),
{
    b == 32 || b == 9 || b == 13 || b == 10
}

pub proof fn lemma_trim_subrange(s: Seq<u8>, lo: int, hi: int)
    requires
        0 <= lo <= hi <= s.len(),
        forall|k: int| 0 <= k < lo ==> is_space(s[k]),
        forall|k: int| hi <= k < s.len() ==> is_space(s[k]),
        lo == hi || (!is_space(s[lo]) && !is_space(s[hi - 1])),
    ensures
        trim_bytes(s) == s.subrange(lo, hi),
    decreases s.len(),
{
    if s.len() > 0 && is_space(s[0]) {
        assert(lo > 0 || lo == hi) by {
            if lo == 0 && lo < hi {
                assert(!is_space(s[lo]));
            }
        }
        if lo == hi && lo == 0 {
            // every byte of s is whitespace
            assert(forall|k: int| 0 <= k < s.len() ==> is_space(s[k]));
            let t = s.skip(1);
            assert(forall|k: int| 0 <= k < t.len() ==> is_space(#[trigger] t[k]));
            lemma_trim_subrange(t, 0, 0);
            assert(s.subrange(0, 0) =~= t.subrange(0, 0));
        } else {
            let t = s.skip(1);
            assert(forall|k: int| 0 <= k < lo - 1 ==> is_space(#[trigger] t[k]));
            assert(forall|k: int| hi - 1 <= k < t.len() ==> is_space(#[trigger] t[k]));
            lemma_trim_subrange(t, lo - 1, hi - 1);
            assert(s.subrange(lo, hi) =~= t.subrange(lo - 1, hi - 1));
        }
    } else if s.len() > 0 && is_space(s[s.len() - 1]) {
        // the last byte is whitespace, so hi < s.len()
        assert(hi < s.len()) by {
            if hi == s.len() {
                assert(lo < hi);
                assert(!is_space(s[hi - 1]));
            }
        }
        let t = s.take(s.len() - 1);
        assert(forall|k: int| 0 <= k < lo ==> is_space(#[trigger] t[k]));
        assert(forall|k: int| hi <= k < t.len() ==> is_space(#[trigger] t[k]));
        lemma_trim_subrange(t, lo, hi);
        assert(s.subrange(lo, hi) =~= t.subrange(lo, hi));
    } else {
        assert(lo == 0) by {
            if lo > 0 {
                assert(is_space(s[0]));
            }
        }
        assert(hi == s.len()) by {
            if hi < s.len() {
                assert(is_space(s[s.len() - 1]));
            }
        }
        assert(s.subrange(0, s.len() as int) =~= s);
    }
}

/// Strips leading and trailing ASCII whitespace; the executable form of
/// `trim_bytes`.
pub fn trim_exec<'a>(s: &'a [u8]) -> (r: &'a [u8])
    ensures
        r@ == trim_bytes(s@),
{
    let n = s.len();
    let mut lo: usize = 0;
    while lo < n && is_space_b(s[lo])
        invariant
            0 <= lo <= n,
            n == s@.len(),
            forall|k: int| 0 <= k < lo ==> is_space(s@[k]),
        decreases n - lo,
    {
        lo += 1;
    }
    let mut hi: usize = n;
    while hi > lo && is_space_b(s[hi - 1])
        invariant
            lo <= hi <= n,
            n == s@.len(),
            forall|k: int| hi <= k < n ==> is_space(s@[k]),
        decreases hi,
    {
        hi -= 1;
    }
    proof {
        lemma_trim_subrange(s@, lo as int, hi as int);
    }
    vstd::slice::slice_subrange(s, lo, hi)
}

pub proof fn lemma_rfind_at(s: Seq<u8>, b: u8, i: int)
    requires
        0 <= i < s.len(),
        s[i] == b,
        forall|k: int| i < k < s.len() ==> s[k] != b,
    ensures
        rfind_byte(s, b) == Some(i),
    decreases s.len(),
{
    if i == s.len() - 1 {
    } else {
        let t = s.take(s.len() - 1);
        assert(forall|k: int| i < k < t.len() ==> #[trigger] t[k] != b);
        lemma_rfind_at(t, b, i);
    }
}

pub proof fn lemma_rfind_none(s: Seq<u8>, b: u8)
    requires
        forall|k: int| 0 <= k < s.len() ==> s[k] != b,
    ensures
        rfind_byte(s, b) == None::<int>,
    decreases s.len(),
{
    if s.len() > 0 {
        let t = s.take(s.len() - 1);
        assert(forall|k: int| 0 <= k < t.len() ==> #[trigger] t[k] != b);
        lemma_rfind_none(t, b);
    }
}

pub proof fn lemma_find_pair_at(s: Seq<u8>, b: u8, i: int)
    requires
        0 <= i < s.len() - 1,
        s[i] == b && s[i + 1] == b,
        forall|k: int| 0 <= k < i ==> !(#[trigger] s[k] == b && s[k + 1] == b),
    ensures
        find_pair(s, b) == Some(i),
    decreases s.len(),
{
    if i == 0 {
    } else {
        assert(!(s[0] == b && s[1] == b));
        let t = s.skip(1);
        assert(t[i - 1] == b && t[i] == b);
        assert(forall|k: int| 0 <= k < i - 1 ==> !(#[trigger] t[k] == b && t[k + 1] == b));
        lemma_find_pair_at(t, b, i - 1);
    }
}

pub proof fn lemma_find_pair_none(s: Seq<u8>, b: u8)
    requires
        forall|k: int| 0 <= k < s.len() - 1 ==> !(#[trigger] s[k] == b && s[k + 1] == b),
    ensures
        find_pair(s, b) == None::<int>,
    decreases s.len(),
{
    if s.len() >= 2 {
        assert(!(s[0] == b && s[1] == b));
        let t = s.skip(1);
        assert(forall|k: int| 0 <= k < t.len() - 1 ==> !(#[trigger] t[k] == b && t[k + 1] == b));
        lemma_find_pair_none(t, b);
    }
}

/// A piece with no separator in it splits to itself alone.
pub proof fn lemma_split_single(p: Seq<u8>, sep: u8)
    requires
        forall|k: int| 0 <= k < p.len() ==> p[k] != sep,
    ensures
        split_bytes(p, sep) == seq![p],
    decreases p.len(),
{
    if p.len() == 0 {
        assert(split_bytes(p, sep) =~~= seq![p]);
    } else {
        let t = p.skip(1);
        assert(forall|k: int| 0 <= k < t.len() ==> #[trigger] t[k] != sep);
        lemma_split_single(t, sep);
        assert(split_bytes(p, sep) =~~= seq![p]) by {
            assert(seq![p[0]] + t =~= p);
        }
    }
}

/// Splitting a separator-free piece, a separator, and a remainder yields the
/// piece followed by the split of the remainder.
pub proof fn lemma_split_step(p: Seq<u8>, rest: Seq<u8>, sep: u8)
    requires
        forall|k: int| 0 <= k < p.len() ==> p[k] != sep,
    ensures
        split_bytes(p + seq![sep] + rest, sep) == seq![p] + split_bytes(rest, sep),
    decreases p.len(),
{
    let s = p + seq![sep] + rest;
    if p.len() == 0 {
        assert(s[0] == sep);
        assert(s.skip(1) =~= rest);
        assert(split_bytes(s, sep) =~~= seq![p] + split_bytes(rest, sep));
    } else {
        let t = p.skip(1);
        assert(forall|k: int| 0 <= k < t.len() ==> #[trigger] t[k] != sep);
        lemma_split_step(t, rest, sep);
        assert(s[0] == p[0]);
        assert(s[0] != sep);
        assert(s.skip(1) =~= t + seq![sep] + rest);
        lemma_split_nonempty(rest, sep);
        assert(split_bytes(s, sep) =~~= seq![p] + split_bytes(rest, sep)) by {
            assert(split_bytes(s.skip(1), sep) == seq![t] + split_bytes(rest, sep));
            assert((seq![t] + split_bytes(rest, sep))[0] == t);
            assert(seq![s[0]] + t =~= p);
            assert((seq![t] + split_bytes(rest, sep)).skip(1) =~= split_bytes(rest, sep));
        }
    }
}

/// Splitting undoes joining, as long as no piece holds the separator.
pub proof fn lemma_split_join(parts: Seq<Seq<u8>>, sep: u8)
    requires
        parts.len() >= 1,
        forall|j: int, k: int|
            0 <= j < parts.len() && 0 <= k < parts[j].len() ==> parts[j][k] != sep,
    ensures
        split_bytes(join_bytes(parts, sep), sep) == parts,
    decreases parts.len(),
{
    if parts.len() == 1 {
        assert(forall|k: int| 0 <= k < parts[0].len() ==> #[trigger] parts[0][k] != sep);
        lemma_split_single(parts[0], sep);
        assert(seq![parts[0]] =~~= parts);
    } else {
        let rest = parts.skip(1);
        assert(forall|j: int, k: int|
            0 <= j < rest.len() && 0 <= k < rest[j].len() ==> #[trigger] rest[j][k] != sep);
        lemma_split_join(rest, sep);
        assert(forall|k: int| 0 <= k < parts[0].len() ==> #[trigger] parts[0][k] != sep);
        lemma_split_step(parts[0], join_bytes(rest, sep), sep);
        assert(seq![parts[0]] + rest =~~= parts);
    }
}

/// Joining undoes splitting.
pub proof fn lemma_join_split(s: Seq<u8>, sep: u8)
    ensures
        join_bytes(split_bytes(s, sep), sep) == s,
    decreases s.len(),
{
    if s.len() == 0 {
    } else if s[0] == sep {
        lemma_join_split(s.skip(1), sep);
        lemma_split_nonempty(s.skip(1), sep);
        let parts = seq![Seq::<u8>::empty()] + split_bytes(s.skip(1), sep);
        assert(parts.skip(1) =~~= split_bytes(s.skip(1), sep));
        assert(join_bytes(parts, sep) =~= s) by {
            assert(parts[0] + seq![sep] + join_bytes(parts.skip(1), sep) =~= seq![sep] + s.skip(
                1,
            ));
            assert(seq![sep] + s.skip(1) =~= s);
        }
    } else {
        lemma_join_split(s.skip(1), sep);
        lemma_split_nonempty(s.skip(1), sep);
        let rest = split_bytes(s.skip(1), sep);
        let parts = seq![seq![s[0]] + rest[0]] + rest.skip(1);
        if rest.len() == 1 {
            assert(join_bytes(rest, sep) == rest[0]);
            assert(parts.len() == 1);
            assert(join_bytes(parts, sep) =~= s) by {
                assert(seq![s[0]] + rest[0] =~= seq![s[0]] + s.skip(1));
                assert(seq![s[0]] + s.skip(1) =~= s);
            }
        } else {
            assert(join_bytes(parts, sep) =~= s) by {
                assert(parts.skip(1) =~~= rest.skip(1));
                assert(join_bytes(rest, sep) == rest[0] + seq![sep] + join_bytes(
                    rest.skip(1),
                    sep,
                ));
                assert(parts[0] + seq![sep] + join_bytes(parts.skip(1), sep) =~= seq![s[0]] + (
                rest[0] + seq![sep] + join_bytes(rest.skip(1), sep)));
                assert(seq![s[0]] + join_bytes(rest, sep) =~= s);
            }
        }
    }
}

} // verus!
