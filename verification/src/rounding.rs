//! Rounding to the doubles of IEEE 754.
//!
//! Leaving the sign aside, the doubles stand in one ascending row: zero first,
//! then the subnormal and the normal numbers, then infinity. The place of a
//! double in that row is its *rank*, and the rank is also the number that its
//! exponent and fraction bits spell. Magnitudes are counted in units of the
//! smallest positive double, two to the power of minus 1074.

use crate::natural::Natural;
use vstd::arithmetic::power2::{
    lemma2_to64, lemma2_to64_rest, lemma_pow2_pos, lemma_pow2_unfold, pow2,
};
use vstd::prelude::*;

verus! {

/// The rank of infinity.
pub const INFINITY_RANK: u64 = 0x7ff0_0000_0000_0000;

/// The number of units that make one whole.
pub open spec fn units_per_one() -> nat {
    pow2(1074)
}

/// The magnitude of the double of a given rank, in units. Infinity counts as
/// the number that would follow the largest finite double.
pub open spec fn magnitude(rank: nat) -> nat {
    let exponent = rank / 0x10_0000_0000_0000;
    let fraction = rank % 0x10_0000_0000_0000;
    if exponent == 0 {
        fraction
    } else {
        (0x10_0000_0000_0000 + fraction) * pow2((exponent - 1) as nat)
    }
}

/// The double of rank `rank` is the one nearest to `n / d` units: `n / d` lies
/// between the points half way to its two neighbours, and a point half way
/// belongs to the neighbour of even rank.
pub open spec fn nearest(rank: nat, n: nat, d: nat) -> bool {
    &&& rank <= INFINITY_RANK
    &&& rank > 0 ==> {
        let below = (magnitude((rank - 1) as nat) + magnitude(rank)) * d;
        below < 2 * n || (below == 2 * n && rank % 2 == 0)
    }
    &&& rank < INFINITY_RANK ==> {
        let above = (magnitude(rank) + magnitude(rank + 1)) * d;
        2 * n < above || (2 * n == above && rank % 2 == 0)
    }
}

/// The rank of the double nearest to `n / d` units.
pub open spec fn rounded(n: nat, d: nat) -> nat {
    choose|rank: nat| nearest(rank, n, d)
}

pub proof fn lemma_magnitude_parts(q: nat, e: nat)
    requires
        q <= 0x20_0000_0000_0000,
        e == 0 || q >= 0x10_0000_0000_0000,
    ensures
        magnitude(e * 0x10_0000_0000_0000 + q) == q * pow2(e),
{
    let rank: nat = e * 0x10_0000_0000_0000 + q;
    lemma2_to64();
    if q < 0x10_0000_0000_0000 {
        assert(rank / 0x10_0000_0000_0000 == 0);
    } else if q < 0x20_0000_0000_0000 {
        assert(rank / 0x10_0000_0000_0000 == e + 1);
        assert(rank % 0x10_0000_0000_0000 == q - 0x10_0000_0000_0000);
    } else {
        assert(rank / 0x10_0000_0000_0000 == e + 2);
        assert(rank % 0x10_0000_0000_0000 == 0);
        lemma_pow2_unfold(e + 1);
        let p: int = pow2(e) as int;
        assert(0x10_0000_0000_0000 * (2 * p) == 0x20_0000_0000_0000 * p) by (nonlinear_arith);
    }
}

/// Magnitudes rise from each rank to the next.
pub proof fn lemma_magnitude_step(rank: nat)
    ensures
        magnitude(rank) < magnitude(rank + 1),
{
    let exponent: nat = rank / 0x10_0000_0000_0000;
    let e: nat = if exponent == 0 {
        0
    } else {
        (exponent - 1) as nat
    };
    let q: nat = (rank - e * 0x10_0000_0000_0000) as nat;
    lemma_magnitude_parts(q, e);
    lemma_magnitude_parts(q + 1, e);
    lemma_pow2_pos(e);
    let p: int = pow2(e) as int;
    assert(q * p + p == (q + 1) * p) by (nonlinear_arith);
}

/// Magnitudes are ordered as ranks are.
pub proof fn lemma_magnitude_ordered(a: nat, b: nat)
    requires
        a < b,
    ensures
        magnitude(a) < magnitude(b),
    decreases b - a,
{
    lemma_magnitude_step((b - 1) as nat);
    if a < b - 1 {
        lemma_magnitude_ordered(a, (b - 1) as nat);
    }
}

pub proof fn lemma_magnitude_zero()
    ensures
        magnitude(0) == 0,
{
}

/// Of two numbers the smaller never rounds to the greater double.
pub proof fn lemma_nearest_ordered(a: nat, n: nat, b: nat, m: nat, d: nat)
    requires
        d > 0,
        n <= m,
        nearest(a, n, d),
        nearest(b, m, d),
    ensures
        a <= b,
{
    if b < a {
        let low: nat = magnitude(b) + magnitude(b + 1);
        let high: nat = magnitude((a - 1) as nat) + magnitude(a);
        if b + 1 < a {
            lemma_magnitude_ordered(b, (a - 1) as nat);
            lemma_magnitude_ordered(b + 1, a);
            assert(low * d < high * d) by (nonlinear_arith)
                requires
                    low < high,
                    d > 0,
            ;
        } else {
            assert((a - 1) as nat == b);
        }
    }
}

/// No number has two nearest doubles.
pub proof fn lemma_nearest_unique(a: nat, b: nat, n: nat, d: nat)
    requires
        d > 0,
        nearest(a, n, d),
        nearest(b, n, d),
    ensures
        a == b,
{
    lemma_nearest_ordered(a, n, b, n, d);
    lemma_nearest_ordered(b, n, a, n, d);
}

/// A number within the gap that starts at `rank` is nearest to one of its two ends.
proof fn lemma_nearest_in_gap(rank: nat, n: nat, d: nat)
    requires
        d > 0,
        rank < INFINITY_RANK,
        magnitude(rank) * d <= n < magnitude(rank + 1) * d,
    ensures
        exists|r: nat| nearest(r, n, d),
{
    let low: int = magnitude(rank) as int;
    let high: int = magnitude(rank + 1) as int;
    let di: int = d as int;
    let middle: int = (low + high) * di;
    lemma_magnitude_step(rank);
    assert(2 * (low * di) < middle && middle < 2 * (high * di)) by (nonlinear_arith)
        requires
            low < high,
            di > 0,
            middle == (low + high) * di,
    ;
    if 2 * n < middle || (2 * n == middle && rank % 2 == 0) {
        if rank > 0 {
            lemma_magnitude_step((rank - 1) as nat);
            let prior: int = magnitude((rank - 1) as nat) as int;
            assert((prior + low) * di < 2 * (low * di)) by (nonlinear_arith)
                requires
                    prior < low,
                    di > 0,
            ;
        }
        assert(nearest(rank, n, d));
    } else {
        let up: nat = rank + 1;
        assert((up - 1) as nat == rank);
        if up < INFINITY_RANK {
            lemma_magnitude_step(up);
            let next: int = magnitude(up + 1) as int;
            assert(2 * (high * di) < (high + next) * di) by (nonlinear_arith)
                requires
                    high < next,
                    di > 0,
            ;
        }
        assert(nearest(up, n, d));
    }
}

proof fn lemma_gap_exists(top: nat, n: nat, d: nat)
    requires
        d > 0,
        top <= INFINITY_RANK,
        n < magnitude(top) * d,
    ensures
        exists|r: nat| nearest(r, n, d),
    decreases top,
{
    if top == 0 {
        assert(0 * d == 0) by (nonlinear_arith);
        assert(false);
    } else {
        let rank: nat = (top - 1) as nat;
        if n < magnitude(rank) * d {
            lemma_gap_exists(rank, n, d);
        } else {
            lemma_nearest_in_gap(rank, n, d);
        }
    }
}

/// A number too large for every finite double is nearest to infinity.
pub proof fn lemma_nearest_infinity(n: nat, d: nat)
    requires
        d > 0,
        n >= magnitude(INFINITY_RANK as nat) * d,
    ensures
        nearest(INFINITY_RANK as nat, n, d),
{
    let top: nat = INFINITY_RANK as nat;
    lemma_magnitude_step((top - 1) as nat);
    let low: int = magnitude((top - 1) as nat) as int;
    let high: int = magnitude(top) as int;
    let di: int = d as int;
    assert((low + high) * di < 2 * (high * di)) by (nonlinear_arith)
        requires
            low < high,
            di > 0,
    ;
}

/// Every number has a nearest double, so `rounded` is one.
pub proof fn lemma_rounded(n: nat, d: nat)
    requires
        d > 0,
    ensures
        nearest(rounded(n, d), n, d),
{
    let top: nat = INFINITY_RANK as nat;
    if n < magnitude(top) * d {
        lemma_gap_exists(top, n, d);
    } else {
        lemma_nearest_infinity(n, d);
    }
}

/// No double of a finite rank is closer to a number than the one nearest to it.
pub proof fn lemma_nearest_is_closest(rank: nat, other: nat, n: nat, d: nat)
    requires
        d > 0,
        nearest(rank, n, d),
        rank < INFINITY_RANK,
        other < INFINITY_RANK,
    ensures
        magnitude(rank) * d - n <= magnitude(other) * d - n || magnitude(rank) * d - n <= n
            - magnitude(other) * d,
        n - magnitude(rank) * d <= magnitude(other) * d - n || n - magnitude(rank) * d <= n
            - magnitude(other) * d,
{
    let m: int = magnitude(rank) as int;
    let o: int = magnitude(other) as int;
    let di: int = d as int;
    if other < rank {
        if other + 1 < rank {
            lemma_magnitude_ordered(other, (rank - 1) as nat);
        }
        let low: int = magnitude((rank - 1) as nat) as int;
        assert((low + m) * di == low * di + m * di) by (nonlinear_arith);
        assert(o * di <= low * di) by (nonlinear_arith)
            requires
                o <= low,
                di > 0,
        ;
        lemma_magnitude_ordered(other, rank);
        assert(o * di <= m * di) by (nonlinear_arith)
            requires
                o <= m,
                di > 0,
        ;
    } else if rank < other {
        if rank + 1 < other {
            lemma_magnitude_ordered(rank + 1, other);
        }
        let high: int = magnitude(rank + 1) as int;
        assert((m + high) * di == m * di + high * di) by (nonlinear_arith);
        assert(high * di <= o * di) by (nonlinear_arith)
            requires
                high <= o,
                di > 0,
        ;
        lemma_magnitude_ordered(rank, other);
        assert(m * di <= o * di) by (nonlinear_arith)
            requires
                m <= o,
                di > 0,
        ;
    }
}

/// Where another double is as close to a number as the one nearest to it, the
/// nearest is the one of even rank.
pub proof fn lemma_nearest_tie(rank: nat, other: nat, n: nat, d: nat)
    requires
        d > 0,
        nearest(rank, n, d),
        rank < INFINITY_RANK,
        other < INFINITY_RANK,
        other != rank,
        magnitude(rank) * d - n == n - magnitude(other) * d,
    ensures
        rank % 2 == 0,
{
    let m: int = magnitude(rank) as int;
    let o: int = magnitude(other) as int;
    let di: int = d as int;
    if other < rank {
        let low: int = magnitude((rank - 1) as nat) as int;
        if other + 1 < rank {
            lemma_magnitude_ordered(other, (rank - 1) as nat);
        }
        assert((low + m) * di == low * di + m * di) by (nonlinear_arith);
        assert(o * di <= low * di) by (nonlinear_arith)
            requires
                o <= low,
                di > 0,
        ;
    } else {
        let high: int = magnitude(rank + 1) as int;
        if rank + 1 < other {
            lemma_magnitude_ordered(rank + 1, other);
        }
        assert((m + high) * di == m * di + high * di) by (nonlinear_arith);
        assert(high * di <= o * di) by (nonlinear_arith)
            requires
                high <= o,
                di > 0,
        ;
    }
}

/// A double is nearest to its own magnitude.
pub proof fn lemma_rounded_exact(rank: nat, d: nat)
    requires
        d > 0,
        rank <= INFINITY_RANK,
    ensures
        nearest(rank, magnitude(rank) * d, d),
        rounded(magnitude(rank) * d, d) == rank,
{
    let m: int = magnitude(rank) as int;
    let di: int = d as int;
    if rank > 0 {
        lemma_magnitude_step((rank - 1) as nat);
        let low: int = magnitude((rank - 1) as nat) as int;
        assert((low + m) * di < 2 * (m * di)) by (nonlinear_arith)
            requires
                low < m,
                di > 0,
        ;
    }
    lemma_magnitude_step(rank);
    let high: int = magnitude(rank + 1) as int;
    assert(2 * (m * di) < (m + high) * di) by (nonlinear_arith)
        requires
            m < high,
            di > 0,
    ;
    lemma_rounded(magnitude(rank) * d, d);
    lemma_nearest_unique(rank, rounded(magnitude(rank) * d, d), magnitude(rank) * d, d);
}

/// The rank of the double nearest to `numerator / denominator` times two to the
/// power `exponent` units.
pub fn nearest_rank(numerator: &Natural, denominator: &Natural, exponent: u32) -> (rank: u64)
    requires
        denominator@ > 0,
        exponent <= 2045,
    ensures
        nearest(rank as nat, numerator@ * pow2(exponent as nat), denominator@),
        rank == rounded(numerator@ * pow2(exponent as nat), denominator@),
{
    let ghost x: nat = numerator@ * pow2(exponent as nat);
    let ghost d0: nat = denominator@;
    let mut t = denominator.doubled_times(53);
    let mut n = numerator.copy();
    let mut e: u32 = exponent;
    let mut twice = n.doubled();
    proof {
        lemma2_to64_rest();
        lemma_rounded(x, d0);
    }
    while e > 0 && twice.sign_against(&t) < 0
        invariant
            e <= 2045,
            twice@ == 2 * n@,
            n@ * pow2(e as nat) == x,
        decreases e,
    {
        proof {
            lemma_pow2_unfold(e as nat);
            let p: int = pow2((e - 1) as nat) as int;
            let m: int = n@ as int;
            assert((2 * m) * p == m * (2 * p)) by (nonlinear_arith);
        }
        n = twice;
        twice = n.doubled();
        e -= 1;
    }
    proof {
        let p: int = pow2(e as nat) as int;
        let m: int = n@ as int;
        let di: int = d0 as int;
        let k: int = 0x20_0000_0000_0000;
        assert((m * p) * k * di == x * (di * k)) by (nonlinear_arith)
            requires
                m * p == x,
        ;
    }
    while n.sign_against(&t) >= 0
        invariant
            e <= 2045,
            d0 > 0,
            t@ > 0,
            e == 0 || 2 * n@ >= t@,
            (n@ * pow2(e as nat)) * 0x20_0000_0000_0000 * d0 == x * t@,
            x == numerator@ * pow2(exponent as nat),
            d0 == denominator@,
            nearest(rounded(x, d0), x, d0),
        decreases 2045 - e,
    {
        if e >= 2045 {
            proof {
                let top: nat = INFINITY_RANK as nat;
                lemma_magnitude_parts(0x10_0000_0000_0000, 2046);
                lemma_pow2_unfold(2046);
                let p: int = pow2(2045) as int;
                lemma_pow2_pos(2045);
                let m: int = n@ as int;
                let ti: int = t@ as int;
                let di: int = d0 as int;
                let xi: int = x as int;
                let k: int = 0x20_0000_0000_0000;
                assert(magnitude(top) == k * p) by (nonlinear_arith)
                    requires
                        magnitude(top) == 0x10_0000_0000_0000 * (2 * p),
                        k == 0x20_0000_0000_0000,
                ;
                assert(k * p * di <= xi) by (nonlinear_arith)
                    requires
                        (m * p) * k * di == xi * ti,
                        m >= ti,
                        ti > 0,
                        p > 0,
                        k > 0,
                        di > 0,
                {
                    let c: int = p * k * di;
                    assert((m * p) * k * di == m * c);
                    assert(c > 0);
                    assert(m * c >= ti * c);
                    assert(xi * ti >= c * ti);
                    assert(xi >= c);
                    assert(c == k * p * di);
                }
                lemma_nearest_infinity(x, d0);
                lemma_nearest_unique(top, rounded(x, d0), x, d0);
            }
            return INFINITY_RANK;
        }
        proof {
            lemma_pow2_unfold((e + 1) as nat);
            let p: int = pow2(e as nat) as int;
            let m: int = n@ as int;
            let ti: int = t@ as int;
            let xi: int = x as int;
            let k: int = 0x20_0000_0000_0000;
            let di: int = d0 as int;
            assert((m * (2 * p)) * k * di == xi * (2 * ti)) by (nonlinear_arith)
                requires
                    (m * p) * k * di == xi * ti,
            ;
        }
        t = t.doubled();
        e += 1;
    }
    let mut q: u64 = 0;
    let mut r = n.copy();
    let mut i: u32 = 0;
    proof {
        lemma2_to64();
        assert(0 * t@ == 0) by (nonlinear_arith);
    }
    while i < 53
        invariant
            i <= 53,
            q < pow2(i as nat),
            pow2(53) == 0x20_0000_0000_0000,
            n@ * pow2(i as nat) == q * t@ + r@,
            r@ < t@,
        decreases 53 - i,
    {
        let ghost before: nat = r@;
        proof {
            lemma_pow2_unfold((i + 1) as nat);
            if i + 1 < 53 {
                vstd::arithmetic::power2::lemma_pow2_strictly_increases((i + 1) as nat, 53);
            }
            let p: int = pow2(i as nat) as int;
            let m: int = n@ as int;
            let ti: int = t@ as int;
            let qi: int = q as int;
            let ri: int = r@ as int;
            assert(m * (2 * p) == (2 * qi) * ti + 2 * ri) by (nonlinear_arith)
                requires
                    m * p == qi * ti + ri,
            ;
            assert((2 * qi + 1) * ti == (2 * qi) * ti + ti) by (nonlinear_arith);
        }
        r = r.doubled();
        if r.sign_against(&t) >= 0 {
            r = r.minus(&t);
            q = 2 * q + 1;
        } else {
            q = 2 * q;
        }
        i += 1;
    }
    let doubled_rest = r.doubled();
    let half: i8 = doubled_rest.sign_against(&t);
    let rank: u64 = (e as u64) * 0x10_0000_0000_0000 + q;
    let up: bool = half > 0 || (half == 0 && q % 2 == 1);
    proof {
        lemma2_to64_rest();
        lemma_pow2_pos(e as nat);
        let p: int = pow2(e as nat) as int;
        let m: int = n@ as int;
        let ti: int = t@ as int;
        let qi: int = q as int;
        let ri: int = r@ as int;
        let di: int = d0 as int;
        let xi: int = x as int;
        let k: int = 0x20_0000_0000_0000;
        if e > 0 {
            assert(qi >= 0x10_0000_0000_0000) by (nonlinear_arith)
                requires
                    m * k == qi * ti + ri,
                    2 * m >= ti,
                    ri < ti,
                    ti > 0,
                    k == 0x20_0000_0000_0000,
            {
                assert(m * k >= 0x10_0000_0000_0000 * ti);
                assert(qi * ti > (0x10_0000_0000_0000 - 1) * ti);
            }
        }
        lemma_magnitude_parts(q as nat, e as nat);
        lemma_magnitude_parts((q + 1) as nat, e as nat);
        assert(rank + 1 == e * 0x10_0000_0000_0000 + (q + 1));
        let c: int = p * di;
        assert(c > 0) by (nonlinear_arith)
            requires
                p > 0,
                di > 0,
                c == p * di,
        ;
        assert(xi * ti == (qi * ti + ri) * c) by (nonlinear_arith)
            requires
                (m * p) * k * di == xi * ti,
                m * k == qi * ti + ri,
                c == p * di,
        ;
        let low: int = (q * pow2(e as nat)) as int;
        let high: int = ((q + 1) * pow2(e as nat)) as int;
        assert(low * di == qi * c && high * di == (qi + 1) * c) by (nonlinear_arith)
            requires
                low == qi * p,
                high == (qi + 1) * p,
                c == p * di,
        ;
        assert((low + high) * di == (2 * qi + 1) * c) by (nonlinear_arith)
            requires
                low * di == qi * c,
                high * di == (qi + 1) * c,
        ;
        assert(qi * c <= xi) by (nonlinear_arith)
            requires
                xi * ti == (qi * ti + ri) * c,
                ri >= 0,
                ti > 0,
                c > 0,
        {
            assert((qi * ti + ri) * c == (qi * c) * ti + ri * c);
            assert(ri * c >= 0);
            assert(xi * ti >= (qi * c) * ti);
        }
        assert(xi < (qi + 1) * c) by (nonlinear_arith)
            requires
                xi * ti == (qi * ti + ri) * c,
                ri < ti,
                ti > 0,
                c > 0,
        {
            assert((qi * ti + ri) * c == (qi * c) * ti + ri * c);
            assert(ri * c < ti * c);
            assert(((qi + 1) * c) * ti == (qi * c) * ti + ti * c);
            assert(xi * ti < ((qi + 1) * c) * ti);
        }
        let mid: int = (2 * qi + 1) * c;
        assert((2 * xi - mid) * ti == (2 * ri - ti) * c) by (nonlinear_arith)
            requires
                xi * ti == (qi * ti + ri) * c,
                mid == (2 * qi + 1) * c,
        ;
        assert(2 * ri > ti ==> 2 * xi > mid) by (nonlinear_arith)
            requires
                (2 * xi - mid) * ti == (2 * ri - ti) * c,
                ti > 0,
                c > 0,
        ;
        assert(2 * ri == ti ==> 2 * xi == mid) by (nonlinear_arith)
            requires
                (2 * xi - mid) * ti == (2 * ri - ti) * c,
                ti > 0,
                c > 0,
        ;
        assert(2 * ri < ti ==> 2 * xi < mid) by (nonlinear_arith)
            requires
                (2 * xi - mid) * ti == (2 * ri - ti) * c,
                ti > 0,
                c > 0,
        ;
        let here: nat = rank as nat;
        if up {
            let next: nat = here + 1;
            assert((next - 1) as nat == here);
            if next < INFINITY_RANK {
                lemma_magnitude_step(next);
                let beyond: int = magnitude(next + 1) as int;
                assert(2 * (high * di) < (high + beyond) * di) by (nonlinear_arith)
                    requires
                        high < beyond,
                        di > 0,
                ;
            }
            assert(nearest(next, x, d0));
            lemma_nearest_unique(next, rounded(x, d0), x, d0);
        } else {
            if here > 0 {
                lemma_magnitude_step((here - 1) as nat);
                let prior: int = magnitude((here - 1) as nat) as int;
                assert((prior + low) * di < 2 * (low * di)) by (nonlinear_arith)
                    requires
                        prior < low,
                        di > 0,
                ;
            }
            assert(nearest(here, x, d0));
            lemma_nearest_unique(here, rounded(x, d0), x, d0);
        }
    }
    if up {
        rank + 1
    } else {
        rank
    }
}

} // verus!
