//! Decimal extractor: reads a run of bytes from the start of a buffer up to
//! the first carriage-return or line-feed (exclusive) and interprets it as a
//! base-10 number, most significant digit first. The caller positions the
//! buffer just after a known header-value prefix, so no digit validation is
//! done here: every byte contributes its distance from ASCII `'0'`.

use vstd::prelude::*;

verus! {

/// ASCII carriage return.
pub const CR: u8 = 13;

/// ASCII line feed.
pub const NEWLINE: u8 = 10;

/// The byte ends a line.
pub open spec fn is_line_end(b: u8) -> bool {
    b == CR || b == NEWLINE
}

/// Number of bytes before the first CR or LF in `s` (all of `s` if none).
pub open spec fn line_len(s: Seq<u8>) -> nat
    decreases s.len(),
{
    if s.len() == 0 {
        0
    } else if is_line_end(s[0]) {
        0
    } else {
        1 + line_len(s.subrange(1, s.len() as int))
    }
}

/// The bytes of `s` before its first CR or LF.
pub open spec fn line_prefix(s: Seq<u8>) -> Seq<u8> {
    s.take(line_len(s) as int)
}

/// Base-10 value of a byte run, each byte contributing its distance from
/// ASCII `'0'`; an empty run has value 0.
pub open spec fn weighted_value(s: Seq<u8>) -> int
    decreases s.len(),
{
    if s.len() == 0 {
        0
    } else {
        weighted_value(s.drop_last()) * 10 + (s.last() - 48)
    }
}

/// `v` clamped to the range of `i64`.
pub open spec fn clamp_i64(v: int) -> int {
    if v > i64::MAX {
        i64::MAX as int
    } else if v < i64::MIN {
        i64::MIN as int
    } else {
        v
    }
}

/// What `extract_number` returns: the value of the run before the first line
/// end, clamped to the range of `i64`.
pub open spec fn extract_spec(s: Seq<u8>) -> int {
    clamp_i64(weighted_value(line_prefix(s)))
}

/// `line_len` is the offset of the first line end: nothing before it ends a
/// line, and the byte at it (if any) does.
pub proof fn lemma_line_len_props(s: Seq<u8>)
    ensures
        line_len(s) <= s.len(),
        forall|j: int| 0 <= j < line_len(s) ==> !is_line_end(s[j]),
        line_len(s) < s.len() ==> is_line_end(s[line_len(s) as int]),
    decreases s.len(),
{
    if s.len() == 0 || is_line_end(s[0]) {
    } else {
        let tail = s.subrange(1, s.len() as int);
        lemma_line_len_props(tail);
        assert forall|j: int| 0 <= j < line_len(s) implies !is_line_end(s[j]) by {
            if j > 0 {
                assert(tail[j - 1] == s[j]);
            }
        }
        if line_len(s) < s.len() {
            assert(tail[line_len(tail) as int] == s[line_len(s) as int]);
        }
    }
}

/// Any offset with the properties of `lemma_line_len_props` is `line_len`.
pub proof fn lemma_line_len_is(s: Seq<u8>, n: int)
    requires
        0 <= n <= s.len(),
        forall|j: int| 0 <= j < n ==> !is_line_end(s[j]),
        n < s.len() ==> is_line_end(s[n]),
    ensures
        line_len(s) == n,
    decreases s.len(),
{
    if n == 0 {
    } else {
        let tail = s.subrange(1, s.len() as int);
        assert(!is_line_end(s[0]));
        assert forall|j: int| 0 <= j < n - 1 implies !is_line_end(tail[j]) by {
            assert(tail[j] == s[j + 1]);
        }
        if n - 1 < tail.len() {
            assert(tail[n - 1] == s[n]);
        }
        lemma_line_len_is(tail, n - 1);
    }
}

/// One accumulation step of `weighted_value` over a growing prefix.
proof fn lemma_weighted_step(s: Seq<u8>, i: int)
    requires
        0 <= i < s.len(),
    ensures
        weighted_value(s.take(i + 1)) == weighted_value(s.take(i)) * 10 + (s[i] - 48),
{
    assert(s.take(i + 1).drop_last() =~= s.take(i));
    assert(s.take(i + 1).last() == s[i]);
}

/// Once a prefix's value exceeds `i64::MAX`, every extension's value does:
/// each further byte multiplies by 10 and shifts by at most 48 downward.
proof fn lemma_weighted_escape_high(s: Seq<u8>, i: int)
    requires
        0 <= i <= s.len(),
        weighted_value(s.take(i)) > i64::MAX,
    ensures
        weighted_value(s) > i64::MAX,
    decreases s.len() - i,
{
    if i == s.len() {
        assert(s.take(i) =~= s);
    } else {
        lemma_weighted_step(s, i);
        let w = weighted_value(s.take(i));
        assert(w * 10 + (s[i] - 48) > i64::MAX) by (nonlinear_arith)
            requires
                w > i64::MAX,
                0 <= s[i] < 256,
        ;
        lemma_weighted_escape_high(s, i + 1);
    }
}

/// The mirror image of `lemma_weighted_escape_high` below `i64::MIN`.
proof fn lemma_weighted_escape_low(s: Seq<u8>, i: int)
    requires
        0 <= i <= s.len(),
        weighted_value(s.take(i)) < i64::MIN,
    ensures
        weighted_value(s) < i64::MIN,
    decreases s.len() - i,
{
    if i == s.len() {
        assert(s.take(i) =~= s);
    } else {
        lemma_weighted_step(s, i);
        let w = weighted_value(s.take(i));
        assert(w * 10 + (s[i] - 48) < i64::MIN) by (nonlinear_arith)
            requires
                w < i64::MIN,
                0 <= s[i] < 256,
        ;
        lemma_weighted_escape_low(s, i + 1);
    }
}

/// Scans `buffer` from the start, accumulating bytes as decimal digits until
/// a CR or LF (or the end of the buffer), and returns the accumulated value,
/// clamped to the range of `i64` when the run does not fit. An empty run
/// gives 0.
pub fn extract_number(buffer: &[u8]) -> (r: i64)
    ensures
        r == extract_spec(buffer@),
{
    let n: usize = buffer.len();
    let mut acc: i64 = 0;
    let mut i: usize = 0;
    proof {
        lemma_line_len_props(buffer@);
    }
    while i < n
        invariant
            n == buffer@.len(),
            i <= n,
            i <= line_len(buffer@),
            forall|j: int| 0 <= j < i ==> !is_line_end(buffer@[j]),
            acc == weighted_value(buffer@.take(i as int)),
        decreases n - i,
    {
        let el = buffer[i];
        if el == CR || el == NEWLINE {
            proof {
                lemma_line_len_is(buffer@, i as int);
            }
            return acc;
        }
        let wide: i128 = (acc as i128) * 10 + ((el as i128) - 48);
        proof {
            lemma_line_len_props(buffer@);
            if line_len(buffer@) <= i {
                assert(is_line_end(buffer@[line_len(buffer@) as int]));
            }
            assert(i + 1 <= line_len(buffer@));
            lemma_weighted_step(buffer@, i as int);
        }
        if wide > i64::MAX as i128 {
            proof {
                let lp = line_prefix(buffer@);
                assert(lp.take(i + 1) =~= buffer@.take(i + 1));
                assert(weighted_value(lp.take(i + 1)) > i64::MAX);
                lemma_weighted_escape_high(lp, i + 1);
            }
            return i64::MAX;
        }
        if wide < i64::MIN as i128 {
            proof {
                let lp = line_prefix(buffer@);
                assert(lp.take(i + 1) =~= buffer@.take(i + 1));
                assert(weighted_value(lp.take(i + 1)) < i64::MIN);
                lemma_weighted_escape_low(lp, i + 1);
            }
            return i64::MIN;
        }
        acc = wide as i64;
        i = i + 1;
    }
    proof {
        lemma_line_len_is(buffer@, n as int);
        assert(buffer@.take(n as int) =~= buffer@);
    }
    acc
}

} // verus!
