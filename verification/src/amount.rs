//! Amounts: doubles of IEEE 754, held by their bits.

use crate::natural::Natural;
use crate::rounding::{nearest_rank, units_per_one, INFINITY_RANK};
use vstd::arithmetic::power2::{lemma2_to64, lemma2_to64_rest, lemma_pow2_adds, pow2};
use vstd::prelude::*;

verus! {

/// An amount that a provider reports: a double, given by the 64 bits of its
/// IEEE 754 encoding. Two amounts are equal when their bits are.
#[derive(Clone, Copy, Debug, PartialEq, Eq, Structural)]
pub struct Amount {
    pub bits: u64,
}

/// The amount with the given sign and rank.
pub open spec fn signed(negative: bool, rank: nat) -> Amount {
    Amount {
        bits: (if negative {
            rank + 0x8000_0000_0000_0000
        } else {
            rank
        }) as u64,
    }
}

/// Zero.
pub open spec fn zero() -> Amount {
    Amount { bits: 0 }
}

/// Negative zero, which an empty sum gives.
pub open spec fn negative_zero() -> Amount {
    Amount { bits: 0x8000_0000_0000_0000 }
}

/// The amount that stands for an undefined result.
pub open spec fn not_a_number() -> Amount {
    Amount { bits: 0x7ff8_0000_0000_0000 }
}

/// The distance from one to the next larger double: two to the power of minus 52.
pub open spec fn epsilon() -> Amount {
    Amount { bits: 0x3cb0_0000_0000_0000 }
}

impl Amount {
    /// The sign bit is set.
    pub open spec fn negative(self) -> bool {
        self.bits >= 0x8000_0000_0000_0000
    }

    /// The place of the amount, its sign left aside, among the doubles.
    pub open spec fn rank(self) -> nat {
        (self.bits % 0x8000_0000_0000_0000) as nat
    }

    pub open spec fn finite(self) -> bool {
        self.rank() < INFINITY_RANK
    }

    pub open spec fn infinite(self) -> bool {
        self.rank() == INFINITY_RANK
    }

    pub open spec fn undefined(self) -> bool {
        self.rank() > INFINITY_RANK
    }

    /// The value of the amount in units of two to the power of minus 1074.
    pub open spec fn units(self) -> int {
        if self.negative() {
            -(crate::rounding::magnitude(self.rank()) as int)
        } else {
            crate::rounding::magnitude(self.rank()) as int
        }
    }
}

/// `a` is less than `b`. Nothing is less or greater than an undefined amount.
pub open spec fn less(a: Amount, b: Amount) -> bool {
    !a.undefined() && !b.undefined() && a.units() < b.units()
}

/// The amount with its sign turned.
pub open spec fn negation(a: Amount) -> Amount {
    signed(!a.negative(), a.rank())
}

/// The amount without its sign.
pub open spec fn absolute(a: Amount) -> Amount {
    signed(false, a.rank())
}

/// The double nearest to a number of units other than zero.
pub open spec fn closest(units: int) -> Amount {
    if units < 0 {
        signed(true, crate::rounding::rounded((-units) as nat, 1))
    } else {
        signed(false, crate::rounding::rounded(units as nat, 1))
    }
}

/// The sum of two amounts: the double nearest to the exact sum.
pub open spec fn sum(a: Amount, b: Amount) -> Amount {
    if a.undefined() || b.undefined() {
        not_a_number()
    } else if a.infinite() && b.infinite() && a.negative() != b.negative() {
        not_a_number()
    } else if a.infinite() {
        a
    } else if b.infinite() {
        b
    } else if a.units() + b.units() == 0 {
        signed(a.negative() && b.negative(), 0)
    } else {
        closest(a.units() + b.units())
    }
}

/// The difference of two amounts.
pub open spec fn difference(a: Amount, b: Amount) -> Amount {
    sum(a, negation(b))
}

/// A hundredth of an amount: the double nearest to the exact quotient.
pub open spec fn hundredth(a: Amount) -> Amount {
    if a.undefined() {
        not_a_number()
    } else if a.infinite() {
        a
    } else {
        signed(
            a.negative(),
            crate::rounding::rounded(crate::rounding::magnitude(a.rank()), 100),
        )
    }
}

/// The amounts added one after the other, beginning with negative zero.
pub open spec fn total(amounts: Seq<Amount>) -> Amount
    decreases amounts.len(),
{
    if amounts.len() == 0 {
        negative_zero()
    } else {
        sum(total(amounts.drop_last()), amounts.last())
    }
}

/// `a`, or the bound that it lies beyond.
pub open spec fn clamped(a: Amount, low: Amount, high: Amount) -> Amount {
    if less(a, low) {
        low
    } else if less(high, a) {
        high
    } else {
        a
    }
}

pub proof fn lemma_signed(negative: bool, rank: nat)
    requires
        rank < 0x8000_0000_0000_0000,
    ensures
        signed(negative, rank).negative() == negative,
        signed(negative, rank).rank() == rank,
{
}

pub proof fn lemma_signed_back(a: Amount)
    ensures
        signed(a.negative(), a.rank()) == a,
{
}

/// Magnitudes tell ranks apart and order them.
pub proof fn lemma_ranks_ordered(a: nat, b: nat)
    ensures
        a < b <==> crate::rounding::magnitude(a) < crate::rounding::magnitude(b),
        a == b <==> crate::rounding::magnitude(a) == crate::rounding::magnitude(b),
{
    if a < b {
        crate::rounding::lemma_magnitude_ordered(a, b);
    } else if b < a {
        crate::rounding::lemma_magnitude_ordered(b, a);
    }
}

/// A finite amount is the double nearest to its own value.
pub proof fn lemma_closest_exact(a: Amount)
    requires
        a.finite(),
        a.units() != 0,
    ensures
        closest(a.units()) == a,
{
    crate::rounding::lemma_rounded_exact(a.rank(), 1);
    lemma_signed_back(a);
}

/// The significand and the exponent of the double of a finite rank.
fn parts(rank: u64) -> (r: (u64, u32))
    requires
        rank < INFINITY_RANK,
    ensures
        r.0 < 0x20_0000_0000_0000,
        r.1 <= 2045,
        r.1 == 0 || r.0 >= 0x10_0000_0000_0000,
        rank == r.1 * 0x10_0000_0000_0000 + r.0,
        crate::rounding::magnitude(rank as nat) == r.0 * pow2(r.1 as nat),
{
    let exponent: u64 = rank / 0x10_0000_0000_0000;
    let e: u64 = if exponent == 0 {
        0
    } else {
        exponent - 1
    };
    let q: u64 = rank - e * 0x10_0000_0000_0000;
    proof {
        crate::rounding::lemma_magnitude_parts(q as nat, e as nat);
    }
    (q, e as u32)
}

impl Amount {
    /// The amount with the given sign and rank.
    fn with_sign(negative: bool, rank: u64) -> (r: Amount)
        requires
            rank < 0x8000_0000_0000_0000,
        ensures
            r == signed(negative, rank as nat),
    {
        if negative {
            Amount { bits: rank + 0x8000_0000_0000_0000 }
        } else {
            Amount { bits: rank }
        }
    }

    fn sign_bit(self) -> (r: bool)
        ensures
            r == self.negative(),
    {
        self.bits >= 0x8000_0000_0000_0000
    }

    fn place(self) -> (r: u64)
        ensures
            r == self.rank(),
            r < 0x8000_0000_0000_0000,
    {
        self.bits % 0x8000_0000_0000_0000
    }

    /// Whether the amount is an ordinary number.
    pub fn is_finite(self) -> (r: bool)
        ensures
            r == self.finite(),
    {
        self.place() < INFINITY_RANK
    }

    /// The amount with its sign turned.
    pub fn negated(self) -> (r: Amount)
        ensures
            r == negation(self),
    {
        Amount::with_sign(!self.sign_bit(), self.place())
    }

    /// The amount without its sign.
    pub fn abs(self) -> (r: Amount)
        ensures
            r == absolute(self),
    {
        Amount::with_sign(false, self.place())
    }

    /// Whether this amount is less than `other`.
    pub fn is_less(self, other: Amount) -> (r: bool)
        ensures
            r == less(self, other),
    {
        let a: u64 = self.place();
        let b: u64 = other.place();
        proof {
            lemma_ranks_ordered(a as nat, b as nat);
            lemma_ranks_ordered(b as nat, a as nat);
            lemma_ranks_ordered(0, a as nat);
            lemma_ranks_ordered(0, b as nat);
            crate::rounding::lemma_magnitude_zero();
        }
        if a > INFINITY_RANK || b > INFINITY_RANK {
            false
        } else if self.sign_bit() {
            if other.sign_bit() {
                b < a
            } else {
                a != 0 || b != 0
            }
        } else {
            !other.sign_bit() && a < b
        }
    }

    /// This amount, or the bound that it lies beyond.
    pub fn clamp(self, low: Amount, high: Amount) -> (r: Amount)
        ensures
            r == clamped(self, low, high),
    {
        if self.is_less(low) {
            low
        } else if high.is_less(self) {
            high
        } else {
            self
        }
    }

    /// The sum of two finite amounts of which the first has the greater rank.
    fn plus_smaller(self, other: Amount) -> (r: Amount)
        requires
            self.finite(),
            other.finite(),
            other.rank() <= self.rank(),
        ensures
            r == sum(self, other),
            r == sum(other, self),
    {
        let a: u64 = self.place();
        let b: u64 = other.place();
        let (qa, ea) = parts(a);
        let (qb, eb) = parts(b);
        proof {
            crate::rounding::lemma_magnitude_zero();
            lemma_ranks_ordered(b as nat, a as nat);
            lemma_ranks_ordered(0, a as nat);
            lemma_ranks_ordered(0, b as nat);
        }
        if b == 0 {
            if a == 0 {
                return Amount::with_sign(self.sign_bit() && other.sign_bit(), 0);
            }
            proof {
                lemma_closest_exact(self);
            }
            return self;
        }
        let same: bool = self.sign_bit() == other.sign_bit();
        if !same && a == b {
            return Amount::with_sign(false, 0);
        }
        assert(eb <= ea) by {
            if ea < eb {
                assert(ea * 0x10_0000_0000_0000 + qa < eb * 0x10_0000_0000_0000 + qb);
            }
        }
        let wide = Natural::from_u64(qa).doubled_times(ea - eb);
        let narrow = Natural::from_u64(qb);
        let one = Natural::from_u64(1);
        proof {
            let ma: int = crate::rounding::magnitude(a as nat) as int;
            let mb: int = crate::rounding::magnitude(b as nat) as int;
            let p: int = pow2(eb as nat) as int;
            let g: int = pow2((ea - eb) as nat) as int;
            lemma_pow2_adds((ea - eb) as nat, eb as nat);
            vstd::arithmetic::power2::lemma_pow2_pos(eb as nat);
            assert((qa * g) * p == qa * (g * p)) by (nonlinear_arith);
            assert(wide@ * p == ma);
            assert(narrow@ * p == mb);
            let w: int = wide@ as int;
            let n: int = narrow@ as int;
            assert((w + n) * p == ma + mb && (w - n) * p == ma - mb) by (nonlinear_arith)
                requires
                    w * p == ma,
                    n * p == mb,
            ;
            assert(ma >= mb ==> w >= n) by (nonlinear_arith)
                requires
                    w * p == ma,
                    n * p == mb,
                    p > 0,
            ;
        }
        let magnitude = if same {
            wide.plus(&narrow)
        } else {
            wide.minus(&narrow)
        };
        let rank: u64 = nearest_rank(&magnitude, &one, eb);
        Amount::with_sign(self.sign_bit(), rank)
    }

    /// The sum of two amounts.
    pub fn plus(self, other: Amount) -> (r: Amount)
        ensures
            r == sum(self, other),
    {
        let a: u64 = self.place();
        let b: u64 = other.place();
        if a > INFINITY_RANK || b > INFINITY_RANK {
            Amount { bits: 0x7ff8_0000_0000_0000 }
        } else if a == INFINITY_RANK {
            if b == INFINITY_RANK && self.sign_bit() != other.sign_bit() {
                Amount { bits: 0x7ff8_0000_0000_0000 }
            } else {
                self
            }
        } else if b == INFINITY_RANK {
            other
        } else if b <= a {
            self.plus_smaller(other)
        } else {
            other.plus_smaller(self)
        }
    }

    /// The difference of two amounts.
    pub fn minus(self, other: Amount) -> (r: Amount)
        ensures
            r == difference(self, other),
    {
        self.plus(other.negated())
    }

    /// A hundredth of the amount.
    pub fn hundredth(self) -> (r: Amount)
        ensures
            r == hundredth(self),
    {
        let a: u64 = self.place();
        if a > INFINITY_RANK {
            Amount { bits: 0x7ff8_0000_0000_0000 }
        } else if a == INFINITY_RANK {
            self
        } else {
            let (q, e) = parts(a);
            let rank: u64 = nearest_rank(&Natural::from_u64(q), &Natural::from_u64(100), e);
            Amount::with_sign(self.sign_bit(), rank)
        }
    }

    /// The amounts added one after the other.
    pub fn total_of(amounts: &Vec<Amount>) -> (r: Amount)
        ensures
            r == total(amounts@),
    {
        let mut result = Amount { bits: 0x8000_0000_0000_0000 };
        let mut i: usize = 0;
        proof {
            assert(amounts@.take(0) =~= Seq::<Amount>::empty());
        }
        while i < amounts.len()
            invariant
                i <= amounts@.len(),
                result == total(amounts@.take(i as int)),
            decreases amounts@.len() - i,
        {
            proof {
                assert(amounts@.take(i + 1).drop_last() =~= amounts@.take(i as int));
            }
            result = result.plus(amounts[i]);
            i += 1;
        }
        proof {
            assert(amounts@.take(i as int) =~= amounts@);
        }
        result
    }
}

/// Addition does not depend on the order of its two operands.
pub proof fn law_sum_commutes(a: Amount, b: Amount)
    ensures
        sum(a, b) == sum(b, a),
{
    if a.infinite() && b.infinite() && a.negative() == b.negative() {
        lemma_signed_back(a);
        lemma_signed_back(b);
    }
}

/// Where the exact sum of two finite amounts is itself a double, nothing is lost.
pub proof fn law_sum_exact(a: Amount, b: Amount, s: Amount)
    requires
        a.finite(),
        b.finite(),
        s.finite(),
        s.units() == a.units() + b.units(),
    ensures
        sum(a, b).units() == s.units(),
        sum(a, b).finite(),
{
    if s.units() != 0 {
        lemma_closest_exact(s);
    } else {
        lemma_signed(a.negative() && b.negative(), 0);
        crate::rounding::lemma_magnitude_zero();
    }
}

/// What is taken from an amount without going below zero leaves an amount
/// between zero and the one it was taken from.
pub proof fn law_difference_bounded(a: Amount, b: Amount)
    requires
        a.finite(),
        0 <= b.units() <= a.units(),
        b.finite(),
    ensures
        difference(a, b).finite(),
        0 <= difference(a, b).units() <= a.units(),
{
    let n: Amount = negation(b);
    lemma_signed(!b.negative(), b.rank());
    crate::rounding::lemma_magnitude_zero();
    let rest: int = a.units() - b.units();
    assert(n.units() == -b.units());
    if rest == 0 {
        lemma_signed(a.negative() && n.negative(), 0);
    } else {
        crate::rounding::lemma_rounded(rest as nat, 1);
        crate::rounding::lemma_rounded_exact(a.rank(), 1);
        let r: nat = crate::rounding::rounded(rest as nat, 1);
        crate::rounding::lemma_nearest_ordered(r, rest as nat, a.rank(), a.units() as nat, 1);
        lemma_signed(false, r);
        lemma_ranks_ordered(r, a.rank());
    }
}

/// How far a number of units is from another.
pub open spec fn distance(a: int, b: int) -> int {
    if a < b {
        b - a
    } else {
        a - b
    }
}

/// No finite amount is closer to the exact sum of two than their sum is, and the
/// sum is finite wherever the exact one is no larger than some finite amount.
pub proof fn law_sum_is_nearest(a: Amount, b: Amount, c: Amount)
    requires
        a.finite(),
        b.finite(),
        c.finite(),
    ensures
        sum(a, b).finite() ==> distance(sum(a, b).units(), a.units() + b.units()) <= distance(
            c.units(),
            a.units() + b.units(),
        ),
        distance(a.units() + b.units(), 0) <= distance(c.units(), 0) ==> sum(a, b).finite(),
        !sum(a, b).undefined(),
{
    let exact: int = a.units() + b.units();
    crate::rounding::lemma_magnitude_zero();
    if exact == 0 {
        lemma_signed(a.negative() && b.negative(), 0);
    } else {
        let n: nat = distance(exact, 0) as nat;
        crate::rounding::lemma_rounded(n, 1);
        let r: nat = crate::rounding::rounded(n, 1);
        lemma_signed(exact < 0, r);
        crate::rounding::lemma_rounded_exact(c.rank(), 1);
        if n <= crate::rounding::magnitude(c.rank()) {
            crate::rounding::lemma_nearest_ordered(
                r,
                n,
                c.rank(),
                crate::rounding::magnitude(c.rank()),
                1,
            );
        }
        if r < INFINITY_RANK {
            crate::rounding::lemma_nearest_is_closest(r, c.rank(), n, 1);
            crate::rounding::lemma_nearest_is_closest(r, 0, n, 1);
        }
    }
}

/// Where two amounts are as close to an exact sum, the sum is the one whose last
/// bit is zero.
pub proof fn law_sum_of_a_tie_is_even(a: Amount, b: Amount, c: Amount)
    requires
        a.finite(),
        b.finite(),
        c.finite(),
        sum(a, b).finite(),
        c.units() != sum(a, b).units(),
        distance(c.units(), a.units() + b.units()) == distance(
            sum(a, b).units(),
            a.units() + b.units(),
        ),
    ensures
        sum(a, b).bits % 2 == 0,
{
    let exact: int = a.units() + b.units();
    crate::rounding::lemma_magnitude_zero();
    if exact == 0 {
        lemma_signed(a.negative() && b.negative(), 0);
    } else {
        let n: nat = distance(exact, 0) as nat;
        crate::rounding::lemma_rounded(n, 1);
        let r: nat = crate::rounding::rounded(n, 1);
        lemma_signed(exact < 0, r);
        let m: nat = crate::rounding::magnitude(r);
        let o: nat = crate::rounding::magnitude(c.rank());
        crate::rounding::lemma_nearest_is_closest(r, 0, n, 1);
        lemma_ranks_ordered(r, c.rank());
        if c.units() == 0 || c.negative() == (exact < 0) {
            crate::rounding::lemma_nearest_tie(r, c.rank(), n, 1);
        } else {
            assert(o > 0);
            assert(distance(c.units(), exact) == n + o);
        }
    }
}

/// A sum beyond the largest double by half its last place or more is infinite,
/// with the sign of the exact sum.
pub proof fn law_sum_overflows_to_infinity(a: Amount, b: Amount)
    requires
        a.finite(),
        b.finite(),
        2 * distance(a.units() + b.units(), 0) >= crate::rounding::magnitude(
            (INFINITY_RANK - 1) as nat,
        ) + crate::rounding::magnitude(INFINITY_RANK as nat),
    ensures
        sum(a, b).infinite(),
        sum(a, b).negative() == (a.units() + b.units() < 0),
{
    let exact: int = a.units() + b.units();
    let top: nat = INFINITY_RANK as nat;
    crate::rounding::lemma_magnitude_step((top - 1) as nat);
    let n: nat = distance(exact, 0) as nat;
    assert(crate::rounding::nearest(top, n, 1));
    crate::rounding::lemma_rounded(n, 1);
    crate::rounding::lemma_nearest_unique(crate::rounding::rounded(n, 1), top, n, 1);
    lemma_signed(exact < 0, top);
}

/// What is not finite stays so: an undefined amount makes every sum undefined,
/// and so do two infinite ones of opposite signs. Else an infinite amount is the
/// sum. Nothing is less or greater than an undefined amount, and every finite
/// one lies between the two infinite ones.
pub proof fn law_amounts_that_are_not_finite(a: Amount, b: Amount)
    ensures
        a.undefined() || b.undefined() ==> sum(a, b).undefined() && !less(a, b),
        a.infinite() && b.infinite() && a.negative() != b.negative() ==> sum(a, b).undefined(),
        a.infinite() && (b.finite() || b.infinite() && a.negative() == b.negative()) ==> sum(a, b)
            == a,
        a.finite() && b.infinite() ==> sum(a, b) == b && less(a, b) == !b.negative() && less(b, a)
            == b.negative(),
        a.finite() && b.finite() ==> less(a, b) == (a.units() < b.units()),
        a.undefined() ==> hundredth(a).undefined(),
        a.infinite() ==> hundredth(a) == a,
{
    if a.finite() && b.infinite() {
        lemma_ranks_ordered(a.rank(), b.rank());
    }
}

/// A hundredth is finite, and no finite amount comes closer, taken a hundred
/// times, to the amount that it is a hundredth of.
pub proof fn law_hundredth_is_nearest(a: Amount, c: Amount)
    requires
        a.finite(),
        c.finite(),
    ensures
        hundredth(a).finite(),
        hundredth(a).negative() == a.negative(),
        distance(100 * hundredth(a).units(), a.units()) <= distance(100 * c.units(), a.units()),
{
    let n: nat = crate::rounding::magnitude(a.rank());
    crate::rounding::lemma_magnitude_zero();
    crate::rounding::lemma_rounded(n, 100);
    let r: nat = crate::rounding::rounded(n, 100);
    crate::rounding::lemma_rounded_exact(a.rank(), 100);
    crate::rounding::lemma_nearest_ordered(r, n, a.rank(), n * 100, 100);
    lemma_signed(a.negative(), r);
    crate::rounding::lemma_nearest_is_closest(r, c.rank(), n, 100);
    crate::rounding::lemma_nearest_is_closest(r, 0, n, 100);
    if a.units() == 0 {
        lemma_ranks_ordered(a.rank(), 0);
    }
}

/// Where two amounts are as close to an exact hundredth, the hundredth is the one
/// whose last bit is zero.
pub proof fn law_hundredth_of_a_tie_is_even(a: Amount, c: Amount)
    requires
        a.finite(),
        c.finite(),
        c.units() != hundredth(a).units(),
        distance(100 * c.units(), a.units()) == distance(100 * hundredth(a).units(), a.units()),
    ensures
        hundredth(a).bits % 2 == 0,
{
    let n: nat = crate::rounding::magnitude(a.rank());
    crate::rounding::lemma_magnitude_zero();
    crate::rounding::lemma_rounded(n, 100);
    let r: nat = crate::rounding::rounded(n, 100);
    crate::rounding::lemma_rounded_exact(a.rank(), 100);
    crate::rounding::lemma_nearest_ordered(r, n, a.rank(), n * 100, 100);
    lemma_signed(a.negative(), r);
    crate::rounding::lemma_nearest_is_closest(r, 0, n, 100);
    lemma_ranks_ordered(r, c.rank());
    if c.units() == 0 || c.negative() == a.negative() {
        crate::rounding::lemma_nearest_tie(r, c.rank(), n, 100);
    } else if n == 0 {
        lemma_ranks_ordered(a.rank(), 0);
    }
}

/// An amount lies within the bounds that it is clamped to. It is left as it is
/// where it lay there already, and else becomes the bound that it lay beyond.
pub proof fn law_clamped_lies_within(a: Amount, low: Amount, high: Amount)
    requires
        a.finite(),
        low.finite(),
        high.finite(),
        low.units() <= high.units(),
    ensures
        low.units() <= clamped(a, low, high).units() <= high.units(),
        low.units() <= a.units() <= high.units() ==> clamped(a, low, high) == a,
        a.units() < low.units() ==> clamped(a, low, high) == low,
        a.units() > high.units() ==> clamped(a, low, high) == high,
{
}

/// The absolute amount is as far from zero, and not below it.
pub proof fn law_absolute_has_no_sign(a: Amount)
    requires
        a.finite(),
    ensures
        absolute(a).finite(),
        absolute(a).units() == distance(a.units(), 0),
{
    lemma_signed(false, a.rank());
}

/// What is taken from an amount is what added to it gives the amount back, up to
/// the rounding: no finite amount is closer to the exact difference.
pub proof fn law_difference_is_nearest(a: Amount, b: Amount, c: Amount)
    requires
        a.finite(),
        b.finite(),
        c.finite(),
    ensures
        difference(a, b).finite() ==> distance(difference(a, b).units(), a.units() - b.units())
            <= distance(c.units(), a.units() - b.units()),
        distance(a.units() - b.units(), 0) <= distance(c.units(), 0) ==> difference(a, b).finite(),
{
    lemma_signed(!b.negative(), b.rank());
    crate::rounding::lemma_magnitude_zero();
    law_sum_is_nearest(a, negation(b), c);
}

/// An amount counts as nothing where it is below two to the power of minus 52.
pub proof fn law_epsilon_is_the_gap_above_one()
    ensures
        epsilon().finite(),
        epsilon().units() * pow2(52) == units_per_one(),
{
    assert(epsilon().rank() / 0x10_0000_0000_0000 == 971);
    assert(epsilon().rank() % 0x10_0000_0000_0000 == 0);
    lemma2_to64();
    lemma2_to64_rest();
    lemma_pow2_adds(52, 970);
    lemma_pow2_adds(1022, 52);
    assert(0x10_0000_0000_0000 == pow2(52));
}

} // verus!
