//! Byte-level pattern matcher: locates the first occurrence of a fixed byte
//! pattern inside a buffer with a Rabin-Karp rolling hash, confirming every
//! hash hit by a byte-wise comparison so that hash collisions cannot produce
//! a wrong answer.

use vstd::arithmetic::div_mod::{
    lemma_add_mod_noop_right, lemma_mul_mod_noop_left, lemma_mul_mod_noop_right, lemma_small_mod,
};
use vstd::prelude::*;

verus! {

/// Base of the rolling hash.
pub const HASH_BASE: u64 = 31;

/// Prime modulus of the rolling hash.
pub const HASH_MOD: u64 = 1_000_000_009;

/// `pattern` occurs contiguously in `buffer` starting at offset `k`.
pub open spec fn is_match_at(buffer: Seq<u8>, pattern: Seq<u8>, k: int) -> bool {
    &&& 0 <= k
    &&& k + pattern.len() <= buffer.len()
    &&& forall|t: int| 0 <= t < pattern.len() ==> buffer[k + t] == pattern[t]
}

/// `pattern` occurs somewhere in `buffer`.
pub open spec fn has_match(buffer: Seq<u8>, pattern: Seq<u8>) -> bool {
    exists|k: int| is_match_at(buffer, pattern, k)
}

/// The lowest offset at or after `from` where `pattern` occurs, or `-1` if
/// there is none.
pub open spec fn first_match_from(buffer: Seq<u8>, pattern: Seq<u8>, from: int) -> int
    decreases buffer.len() + 1 - from,
{
    if from < 0 || from + pattern.len() > buffer.len() {
        -1
    } else if is_match_at(buffer, pattern, from) {
        from
    } else {
        first_match_from(buffer, pattern, from + 1)
    }
}

/// The lowest offset at which `pattern` occurs in `buffer`, or `-1` if it
/// occurs nowhere.
pub open spec fn first_match(buffer: Seq<u8>, pattern: Seq<u8>) -> int {
    first_match_from(buffer, pattern, 0)
}

proof fn lemma_first_match_from_props(buffer: Seq<u8>, pattern: Seq<u8>, from: int)
    requires
        0 <= from,
    ensures
        first_match_from(buffer, pattern, from) == -1 ==> forall|k: int|
            from <= k ==> !is_match_at(buffer, pattern, k),
        first_match_from(buffer, pattern, from) != -1 ==> {
            let r = first_match_from(buffer, pattern, from);
            &&& from <= r
            &&& is_match_at(buffer, pattern, r)
            &&& forall|k: int| from <= k < r ==> !is_match_at(buffer, pattern, k)
        },
    decreases buffer.len() + 1 - from,
{
    if from + pattern.len() > buffer.len() {
        assert forall|k: int| from <= k implies !is_match_at(buffer, pattern, k) by {
            assert(k + pattern.len() > buffer.len());
        }
    } else if is_match_at(buffer, pattern, from) {
    } else {
        lemma_first_match_from_props(buffer, pattern, from + 1);
    }
}

/// The characterization of `first_match`: it is the least matching offset,
/// and it is `-1` exactly when no offset matches.
pub proof fn lemma_first_match_props(buffer: Seq<u8>, pattern: Seq<u8>)
    ensures
        has_match(buffer, pattern) <==> first_match(buffer, pattern) != -1,
        first_match(buffer, pattern) != -1 ==> {
            let r = first_match(buffer, pattern);
            &&& 0 <= r
            &&& is_match_at(buffer, pattern, r)
            &&& forall|k: int| 0 <= k < r ==> !is_match_at(buffer, pattern, k)
        },
{
    lemma_first_match_from_props(buffer, pattern, 0);
    if first_match(buffer, pattern) != -1 {
        assert(is_match_at(buffer, pattern, first_match(buffer, pattern)));
    }
}

/// The least matching offset is the unique offset that matches and has no
/// match before it.
pub proof fn lemma_first_match_is(buffer: Seq<u8>, pattern: Seq<u8>, k: int)
    requires
        is_match_at(buffer, pattern, k),
        forall|j: int| 0 <= j < k ==> !is_match_at(buffer, pattern, j),
    ensures
        first_match(buffer, pattern) == k,
{
    lemma_first_match_props(buffer, pattern);
    assert(has_match(buffer, pattern));
    let r = first_match(buffer, pattern);
    assert(!(r < k) && !(k < r));
}

/// `HASH_BASE` to the power `i`, reduced modulo `HASH_MOD`.
pub open spec fn pow_mod(i: nat) -> int
    decreases i,
{
    if i == 0 {
        1
    } else {
        ((HASH_BASE as int) * pow_mod((i - 1) as nat)) % (HASH_MOD as int)
    }
}

/// Hash of the first `i` bytes of `b`: the sum of `b[j] * HASH_BASE^j`
/// over `j < i`, reduced modulo `HASH_MOD`.
pub open spec fn prefix_hash(b: Seq<u8>, i: nat) -> int
    decreases i,
{
    if i == 0 {
        0
    } else {
        (prefix_hash(b, (i - 1) as nat) + (b[i - 1] as int) * pow_mod((i - 1) as nat)) % (
        HASH_MOD as int)
    }
}

/// Hash of a whole pattern.
pub open spec fn pattern_hash(p: Seq<u8>) -> int {
    prefix_hash(p, p.len())
}

proof fn lemma_pow_mod_bounds(i: nat)
    ensures
        0 <= pow_mod(i) < HASH_MOD,
    decreases i,
{
    if i > 0 {
        lemma_pow_mod_bounds((i - 1) as nat);
        assert((HASH_BASE as int) * pow_mod((i - 1) as nat) >= 0) by (nonlinear_arith)
            requires
                pow_mod((i - 1) as nat) >= 0,
        ;
    }
}

proof fn lemma_prefix_hash_bounds(b: Seq<u8>, i: nat)
    ensures
        0 <= prefix_hash(b, i) < HASH_MOD,
    decreases i,
{
    if i > 0 {
        lemma_prefix_hash_bounds(b, (i - 1) as nat);
        lemma_pow_mod_bounds((i - 1) as nat);
        assert((b[i - 1] as int) * pow_mod((i - 1) as nat) >= 0) by (nonlinear_arith)
            requires
                b[i - 1] as int >= 0,
                pow_mod((i - 1) as nat) >= 0,
        ;
    }
}

proof fn lemma_pow_mod_add(i: nat, j: nat)
    ensures
        pow_mod(i + j) == (pow_mod(i) * pow_mod(j)) % (HASH_MOD as int),
    decreases j,
{
    let m = HASH_MOD as int;
    lemma_pow_mod_bounds(i);
    if j == 0 {
        assert(pow_mod(i) * 1 == pow_mod(i)) by (nonlinear_arith);
        lemma_small_mod(pow_mod(i) as nat, HASH_MOD as nat);
    } else {
        let j1 = (j - 1) as nat;
        lemma_pow_mod_add(i, j1);
        let b = HASH_BASE as int;
        let pi = pow_mod(i);
        let pj1 = pow_mod(j1);
        // pow_mod(i + j) unfolds to (b * pow_mod(i + j - 1)) % m
        assert(i + j != 0 && (i + j - 1) as nat == i + j1);
        assert(pow_mod(i + j) == (b * ((pi * pj1) % m)) % m);
        lemma_mul_mod_noop_right(b, pi * pj1, m);
        assert((b * ((pi * pj1) % m)) % m == (b * (pi * pj1)) % m);
        assert(b * (pi * pj1) == pi * (b * pj1)) by (nonlinear_arith);
        lemma_mul_mod_noop_right(pi, b * pj1, m);
        assert((pi * ((b * pj1) % m)) % m == (pi * (b * pj1)) % m);
        assert(pow_mod(j) == (b * pj1) % m);
    }
}

/// If the `t` bytes of `b` starting at `k` agree with the first `t` bytes of
/// `p`, the prefix hashes of `b` relate to the hash of those bytes of `p`
/// shifted by `HASH_BASE^k`.
proof fn lemma_match_window_hash(b: Seq<u8>, p: Seq<u8>, k: nat, t: nat)
    requires
        k + t <= b.len(),
        t <= p.len(),
        forall|j: int| 0 <= j < t ==> b[k + j] == p[j],
    ensures
        prefix_hash(b, k + t) == (prefix_hash(b, k) + prefix_hash(p, t) * pow_mod(k)) % (
        HASH_MOD as int),
    decreases t,
{
    let m = HASH_MOD as int;
    lemma_prefix_hash_bounds(b, k);
    if t == 0 {
        assert(prefix_hash(p, 0) * pow_mod(k) == 0) by (nonlinear_arith)
            requires
                prefix_hash(p, 0) == 0,
        ;
        lemma_small_mod(prefix_hash(b, k) as nat, HASH_MOD as nat);
    } else {
        let t1 = (t - 1) as nat;
        lemma_match_window_hash(b, p, k, t1);
        let h = prefix_hash(b, k);
        let pt1 = prefix_hash(p, t1);
        let pk = pow_mod(k);
        let pt = pow_mod(t1);
        let d = p[t1 as int] as int;
        // unfold prefix_hash(b, k + t)
        assert(k + t != 0 && (k + t - 1) as nat == k + t1);
        assert(b[k + t1 as int] == p[t1 as int]);
        assert(prefix_hash(b, k + t) == (prefix_hash(b, k + t1) + d * pow_mod(k + t1)) % m);
        // replace prefix_hash(b, k + t1) by the induction hypothesis
        lemma_add_mod_noop_right((h + pt1 * pk), d * pow_mod(k + t1), m);
        assert((prefix_hash(b, k + t1) + d * pow_mod(k + t1)) % m == ((h + pt1 * pk) % m + d
            * pow_mod(k + t1)) % m);
        assert(((h + pt1 * pk) % m + d * pow_mod(k + t1)) % m == ((h + pt1 * pk) + d * pow_mod(
            k + t1,
        )) % m) by {
            lemma_add_mod_noop_right(d * pow_mod(k + t1), h + pt1 * pk, m);
            assert((d * pow_mod(k + t1) + (h + pt1 * pk) % m) % m == (d * pow_mod(k + t1) + (h
                + pt1 * pk)) % m);
        }
        // replace pow_mod(k + t1) by pow_mod(k) * pow_mod(t1)
        lemma_pow_mod_add(k, t1);
        assert(pow_mod(k + t1) == (pk * pt) % m);
        lemma_mul_mod_noop_right(d, pk * pt, m);
        assert((d * ((pk * pt) % m)) % m == (d * (pk * pt)) % m);
        lemma_add_mod_noop_right(h + pt1 * pk, d * pow_mod(k + t1), m);
        lemma_add_mod_noop_right(h + pt1 * pk, d * (pk * pt), m);
        assert(d * pow_mod(k + t1) == d * ((pk * pt) % m));
        assert((h + pt1 * pk + d * pow_mod(k + t1)) % m == (h + pt1 * pk + (d * ((pk * pt) % m))
            % m) % m) by {
            lemma_add_mod_noop_right(h + pt1 * pk, d * ((pk * pt) % m), m);
        }
        assert((h + pt1 * pk + (d * (pk * pt)) % m) % m == (h + pt1 * pk + d * (pk * pt)) % m) by {
            lemma_add_mod_noop_right(h + pt1 * pk, d * (pk * pt), m);
        }
        // now the target: prefix_hash(p, t) == (pt1 + d * pow_mod(t1)) % m
        assert(prefix_hash(p, t) == (pt1 + d * pt) % m);
        lemma_mul_mod_noop_left(pt1 + d * pt, pk, m);
        assert((((pt1 + d * pt) % m) * pk) % m == ((pt1 + d * pt) * pk) % m);
        lemma_add_mod_noop_right(h, prefix_hash(p, t) * pk, m);
        lemma_add_mod_noop_right(h, (pt1 + d * pt) * pk, m);
        assert(prefix_hash(p, t) * pk == ((pt1 + d * pt) % m) * pk);
        assert((h + prefix_hash(p, t) * pk) % m == (h + (((pt1 + d * pt) % m) * pk) % m) % m) by {
            lemma_add_mod_noop_right(h, ((pt1 + d * pt) % m) * pk, m);
        }
        assert((pt1 + d * pt) * pk == pt1 * pk + d * (pk * pt)) by (nonlinear_arith);
    }
}

/// A byte-equal window yields exactly the windowed hash the search compares
/// against: the pattern hash shifted by `HASH_BASE^k`.
proof fn lemma_match_implies_hash_eq(b: Seq<u8>, p: Seq<u8>, k: nat)
    requires
        is_match_at(b, p, k as int),
    ensures
        (prefix_hash(b, (k + p.len()) as nat) + HASH_MOD - prefix_hash(b, k)) % (HASH_MOD as int)
            == (pattern_hash(p) * pow_mod(k)) % (HASH_MOD as int),
{
    let m = HASH_MOD as int;
    lemma_match_window_hash(b, p, k, p.len());
    lemma_prefix_hash_bounds(b, k);
    lemma_prefix_hash_bounds(b, (k + p.len()) as nat);
    let h = prefix_hash(b, k);
    let u = (pattern_hash(p) * pow_mod(k)) % m;
    assert(0 <= u < m);
    lemma_add_mod_noop_right(h, pattern_hash(p) * pow_mod(k), m);
    assert(prefix_hash(b, (k + p.len()) as nat) == (h + u) % m);
    if h + u < m {
        lemma_small_mod((h + u) as nat, HASH_MOD as nat);
        assert(((h + u) + HASH_MOD - h) % m == u) by {
            assert((u + m) % m == u % m) by {
                vstd::arithmetic::div_mod::lemma_mod_add_multiples_vanish(u, m);
            }
            lemma_small_mod(u as nat, HASH_MOD as nat);
        }
    } else {
        assert((h + u) % m == h + u - m) by {
            lemma_small_mod((h + u - m) as nat, HASH_MOD as nat);
            vstd::arithmetic::div_mod::lemma_mod_add_multiples_vanish(h + u - m, m);
        }
        lemma_small_mod(u as nat, HASH_MOD as nat);
    }
}

proof fn lemma_mul_le(a: int, b: int, am: int, bm: int)
    by (nonlinear_arith)
    requires
        0 <= a <= am,
        0 <= b <= bm,
    ensures
        a * b <= am * bm,
{
}

/// Compares `pattern` against `buffer` at offset `k`, byte for byte.
fn bytes_match_at(buffer: &Vec<u8>, pattern: &[u8], k: usize) -> (r: bool)
    requires
        k + pattern@.len() <= buffer@.len(),
    ensures
        r == is_match_at(buffer@, pattern@, k as int),
{
    let n: usize = buffer.len();
    let mut t: usize = 0;
    while t < pattern.len()
        invariant
            n == buffer@.len(),
            k + pattern@.len() <= buffer@.len(),
            t <= pattern@.len(),
            forall|j: int| 0 <= j < t ==> buffer@[k + j] == pattern@[j],
        decreases pattern@.len() - t,
    {
        if buffer[k + t] != pattern[t] {
            assert(!is_match_at(buffer@, pattern@, k as int));
            return false;
        }
        t = t + 1;
    }
    true
}

/// Returns the lowest starting index in `buffer` where `pattern` occurs
/// contiguously, or `usize::MAX` if it occurs nowhere. An empty pattern is
/// defined to occur at index 0. Candidate positions are filtered with a
/// rolling hash and every hash hit is confirmed byte by byte.
pub fn find_in_buffer(buffer: &Vec<u8>, pattern: &[u8]) -> (r: usize)
    ensures
        has_match(buffer@, pattern@) ==> r == first_match(buffer@, pattern@) && is_match_at(
            buffer@,
            pattern@,
            r as int,
        ) && (forall|k: int| 0 <= k < r ==> !is_match_at(buffer@, pattern@, k)),
        !has_match(buffer@, pattern@) ==> r == usize::MAX,
{
    let pattern_sz: usize = pattern.len();
    let buffer_sz: usize = buffer.len();

    if pattern_sz == 0 {
        proof {
            assert(is_match_at(buffer@, pattern@, 0));
            lemma_first_match_is(buffer@, pattern@, 0);
        }
        return 0;
    }
    if pattern_sz > buffer_sz {
        proof {
            assert forall|k: int| !is_match_at(buffer@, pattern@, k) by {
                assert(k >= 0 ==> k + pattern@.len() > buffer@.len());
            }
        }
        return usize::MAX;
    }
    // powers[i] == HASH_BASE^i mod HASH_MOD
    let mut powers: Vec<u64> = Vec::new();
    powers.push(1);
    while powers.len() < buffer_sz
        invariant
            1 <= powers@.len() <= buffer_sz,
            forall|i: int| 0 <= i < powers@.len() ==> powers@[i] == pow_mod(i as nat),
            forall|i: int| 0 <= i < powers@.len() ==> powers@[i] < HASH_MOD,
        decreases buffer_sz - powers@.len(),
    {
        let last = powers[powers.len() - 1];
        powers.push((last * HASH_BASE) % HASH_MOD);
    }

    // prefix[i] == prefix_hash(buffer, i)
    let mut prefix: Vec<u64> = Vec::new();
    prefix.push(0);
    let mut i: usize = 0;
    while i < buffer_sz
        invariant
            buffer_sz == buffer@.len(),
            powers@.len() == buffer_sz,
            forall|j: int| 0 <= j < powers@.len() ==> powers@[j] == pow_mod(j as nat),
            forall|j: int| 0 <= j < powers@.len() ==> powers@[j] < HASH_MOD,
            i <= buffer_sz,
            prefix@.len() == i + 1,
            forall|j: int| 0 <= j <= i ==> prefix@[j] == prefix_hash(buffer@, j as nat),
            forall|j: int| 0 <= j <= i ==> prefix@[j] < HASH_MOD,
        decreases buffer_sz - i,
    {
        proof {
            lemma_prefix_hash_bounds(buffer@, (i + 1) as nat);
            lemma_mul_le(buffer@[i as int] as int, powers@[i as int] as int, 255, HASH_MOD - 1);
        }
        let next = (prefix[i] + (buffer[i] as u64) * powers[i]) % HASH_MOD;
        prefix.push(next);
        i = i + 1;
    }

    // hashed_pattern == pattern_hash(pattern)
    let mut hashed_pattern: u64 = 0;
    let mut j: usize = 0;
    while j < pattern_sz
        invariant
            pattern_sz == pattern@.len(),
            pattern_sz <= buffer_sz,
            powers@.len() == buffer_sz,
            forall|t: int| 0 <= t < powers@.len() ==> powers@[t] == pow_mod(t as nat),
            forall|t: int| 0 <= t < powers@.len() ==> powers@[t] < HASH_MOD,
            j <= pattern_sz,
            hashed_pattern == prefix_hash(pattern@, j as nat),
            hashed_pattern < HASH_MOD,
        decreases pattern_sz - j,
    {
        proof {
            lemma_prefix_hash_bounds(pattern@, (j + 1) as nat);
            lemma_mul_le(pattern@[j as int] as int, powers@[j as int] as int, 255, HASH_MOD - 1);
        }
        hashed_pattern = (hashed_pattern + (pattern[j] as u64) * powers[j]) % HASH_MOD;
        j = j + 1;
    }

    let mut idx: usize = 0;
    while idx <= buffer_sz - pattern_sz
        invariant
            buffer_sz == buffer@.len(),
            pattern_sz == pattern@.len(),
            0 < pattern_sz <= buffer_sz,
            powers@.len() == buffer_sz,
            forall|t: int| 0 <= t < powers@.len() ==> powers@[t] == pow_mod(t as nat),
            forall|t: int| 0 <= t < powers@.len() ==> powers@[t] < HASH_MOD,
            prefix@.len() == buffer_sz + 1,
            forall|t: int| 0 <= t <= buffer_sz ==> prefix@[t] == prefix_hash(buffer@, t as nat),
            forall|t: int| 0 <= t <= buffer_sz ==> prefix@[t] < HASH_MOD,
            hashed_pattern == pattern_hash(pattern@),
            hashed_pattern < HASH_MOD,
            idx <= buffer_sz - pattern_sz + 1,
            forall|k: int| 0 <= k < idx ==> !is_match_at(buffer@, pattern@, k),
        decreases buffer_sz - pattern_sz + 1 - idx,
    {
        let current_hash = (prefix[idx + pattern_sz] + HASH_MOD - prefix[idx]) % HASH_MOD;
        proof {
            lemma_mul_le(
                hashed_pattern as int,
                powers@[idx as int] as int,
                HASH_MOD - 1,
                HASH_MOD - 1,
            );
        }
        let expected = (hashed_pattern * powers[idx]) % HASH_MOD;
        if current_hash == expected {
            if bytes_match_at(buffer, pattern, idx) {
                proof {
                    lemma_first_match_is(buffer@, pattern@, idx as int);
                }
                return idx;
            }
        }
        proof {
            if is_match_at(buffer@, pattern@, idx as int) {
                lemma_match_implies_hash_eq(buffer@, pattern@, idx as nat);
            }
        }
        idx = idx + 1;
    }
    proof {
        assert forall|k: int| !is_match_at(buffer@, pattern@, k) by {
            if 0 <= k < idx {
            } else {
                assert(k < 0 || k + pattern@.len() > buffer@.len());
            }
        }
    }
    usize::MAX
}

} // verus!
