//! Integer arithmetic shared by the charts: rounding divisions, powers of two and
//! maxima of sequences.
use vstd::arithmetic::div_mod::*;
use vstd::arithmetic::power2::*;
use vstd::prelude::*;

verus! {

/// Division that rounds towards zero, for a positive divisor.
pub open spec fn trunc_div(a: int, b: int) -> int {
    if a >= 0 {
        a / b
    } else {
        -((-a) / b)
    }
}

/// The absolute value of `a`.
pub open spec fn abs(a: int) -> int {
    if a >= 0 {
        a
    } else {
        -a
    }
}

/// The larger of `a` and `b`.
pub open spec fn max_int(a: int, b: int) -> int {
    if a >= b {
        a
    } else {
        b
    }
}

/// The smaller of `a` and `b`.
pub open spec fn min_int(a: int, b: int) -> int {
    if a <= b {
        a
    } else {
        b
    }
}

/// `v` reinterpreted as a signed number of the same width.
pub open spec fn wrap_i64(v: int) -> int {
    if v <= i64::MAX {
        v
    } else {
        v - 0x1_0000_0000_0000_0000
    }
}

/// `v` reinterpreted as a signed number of the same width.
pub fn u64_as_i64(v: u64) -> (r: i64)
    ensures
        r == wrap_i64(v as int),
{
    assert(v <= 0x7fff_ffff_ffff_ffffu64 ==> (v as i64) == v) by (bit_vector);
    assert(v > 0x7fff_ffff_ffff_ffffu64 ==> (v as i64) == v - 0x1_0000_0000_0000_0000) by (bit_vector);
    v as i64
}

/// The quotient of `a` and `b`, rounded down.
pub fn floor_div(a: i128, b: i64) -> (r: i128)
    requires
        b > 0,
        -0x1_0000_0000_0000_0000 <= a <= 0x1_0000_0000_0000_0000,
    ensures
        r == a as int / b as int,
        abs(r as int) <= abs(a as int),
{
    proof {
        lemma_div_magnitude(a as int, b as int);
    }
    let d: i128 = b as i128;
    let r: Option<i128> = a.checked_div_euclid(d);
    r.unwrap()
}

/// The quotient of `a` and `b`, rounded towards zero.
pub fn div_to_zero(a: i128, b: i64) -> (r: i128)
    requires
        b > 0,
        -0x1_0000_0000_0000_0000 <= a <= 0x1_0000_0000_0000_0000,
    ensures
        r == trunc_div(a as int, b as int),
        abs(r as int) <= abs(a as int),
{
    if a >= 0 {
        floor_div(a, b)
    } else {
        proof {
            lemma_div_magnitude(-(a as int), b as int);
        }
        -floor_div(-a, b)
    }
}

/// A quotient by a positive number is no larger than what was divided.
pub proof fn lemma_div_magnitude(a: int, b: int)
    requires
        b > 0,
    ensures
        abs(a / b) <= abs(a),
        a >= 0 ==> a / b >= 0,
{
    if a >= 0 {
        lemma_div_pos_is_pos(a, b);
        lemma_div_is_ordered_by_denominator(a, 1, b);
        lemma_div_basics(a);
    } else {
        assert(a <= a / b <= 0) by (nonlinear_arith)
            requires
                a < 0,
                b > 0,
        ;
    }
}

/// The remainder of `a` modulo `m`, in `0..m`.
pub fn rem_floor(a: i64, m: u32) -> (r: u32)
    requires
        m > 0,
    ensures
        r == a as int % m as int,
        r < m,
{
    let d: i64 = m as i64;
    let r: Option<i64> = a.checked_rem_euclid(d);
    r.unwrap() as u32
}

/// The largest element of `s`, or 0 where there is none.
pub open spec fn seq_max(s: Seq<u32>) -> u32
    decreases s.len(),
{
    if s.len() == 0 {
        0
    } else {
        let m = seq_max(s.drop_last());
        if s.last() > m {
            s.last()
        } else {
            m
        }
    }
}

/// `a` or `b`, whichever is larger.
pub open spec fn max_u32(a: u32, b: u32) -> u32 {
    if b > a {
        b
    } else {
        a
    }
}

/// A sequence of zeros has the maximum 0.
pub proof fn lemma_max_of_zeros(s: Seq<u32>)
    requires
        forall|i: int| 0 <= i < s.len() ==> s[i] == 0,
    ensures
        seq_max(s) == 0,
    decreases s.len(),
{
    if s.len() > 0 {
        lemma_max_of_zeros(s.drop_last());
    }
}

/// Raising one element to at least `q` raises the maximum to at least `q`.
pub proof fn lemma_max_raise(s: Seq<u32>, i: int, q: u32)
    requires
        0 <= i < s.len(),
    ensures
        seq_max(s.update(i, max_u32(s[i], q))) == max_u32(seq_max(s), q),
    decreases s.len(),
{
    let t = s.update(i, max_u32(s[i], q));
    if i == s.len() - 1 {
        assert(t.drop_last() =~= s.drop_last());
    } else {
        lemma_max_raise(s.drop_last(), i, q);
        assert(t.drop_last() =~= s.drop_last().update(i, max_u32(s[i], q)));
    }
}

/// `seq_max` is an upper bound, and one of the elements unless it is 0.
pub proof fn lemma_max_bounds(s: Seq<u32>)
    ensures
        forall|i: int| 0 <= i < s.len() ==> s[i] <= seq_max(s),
        seq_max(s) > 0 ==> exists|i: int| 0 <= i < s.len() && s[i] == seq_max(s),
    decreases s.len(),
{
    if s.len() > 0 {
        let p = s.drop_last();
        lemma_max_bounds(p);
        assert forall|i: int| 0 <= i < s.len() implies s[i] <= seq_max(s) by {
            if i < s.len() - 1 {
                assert(s[i] == p[i]);
            }
        }
        if seq_max(s) > 0 {
            if s.last() > seq_max(p) {
                assert(s[s.len() - 1] == seq_max(s));
            } else {
                let k = choose|k: int| 0 <= k < p.len() && p[k] == seq_max(p);
                assert(s[k] == seq_max(s));
            }
        }
    }
}

/// The smallest power of two that is not below `n`.
pub open spec fn is_next_power_of_two(n: int, r: int) -> bool {
    &&& r >= n
    &&& exists|k: nat| r == #[trigger] pow2(k)
    &&& forall|k: nat| #[trigger] pow2(k) >= n ==> pow2(k) >= r
}

/// The smallest power of two that is not below `n`.
pub fn next_power_of_two(n: u32) -> (r: u32)
    requires
        n <= 0x8000_0000,
    ensures
        is_next_power_of_two(n as int, r as int),
        r >= 1,
{
    let mut r: u32 = 1;
    let ghost mut k: nat = 0;
    proof {
        lemma2_to64();
    }
    while r < n
        invariant
            n <= 0x8000_0000,
            1 <= r <= 0x8000_0000,
            r == pow2(k),
            k <= 31,
            forall|j: nat| j < k ==> #[trigger] pow2(j) < n,
        decreases 0x8000_0000 - r,
    {
        proof {
            lemma_pow2_unfold(k + 1);
            lemma2_to64();
            if k >= 31 {
                lemma_pow2_strictly_increases_or_equal(31, k);
            }
        }
        r = r * 2;
        proof {
            k = k + 1;
        }
    }
    proof {
        assert forall|j: nat| #[trigger] pow2(j) >= n implies pow2(j) >= r by {
            if j > k {
                lemma_pow2_strictly_increases(k, j);
            }
        }
    }
    r
}

proof fn lemma_pow2_strictly_increases_or_equal(a: nat, b: nat)
    requires
        a <= b,
    ensures
        pow2(a) <= pow2(b),
{
    if a < b {
        lemma_pow2_strictly_increases(a, b);
    }
}

/// What one more element adds to a filtered prefix.
pub proof fn lemma_filter_step<A>(s: Seq<A>, i: int, pred: spec_fn(A) -> bool)
    requires
        0 <= i < s.len(),
    ensures
        s.take(i + 1).filter(pred) == if pred(s[i]) {
            s.take(i).filter(pred).push(s[i])
        } else {
            s.take(i).filter(pred)
        },
{
    reveal(Seq::filter);
    assert(s.take(i + 1).drop_last() =~= s.take(i));
    assert(s.take(i + 1).last() == s[i]);
}

/// An empty prefix filters to nothing, a whole one is the sequence.
pub proof fn lemma_filter_ends<A>(s: Seq<A>, pred: spec_fn(A) -> bool)
    ensures
        s.take(0).filter(pred) == Seq::<A>::empty(),
        s.take(s.len() as int) == s,
{
    reveal(Seq::filter);
    assert(s.take(0) =~= Seq::<A>::empty());
    assert(s.take(s.len() as int) =~= s);
}

} // verus!
