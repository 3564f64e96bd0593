//! Natural numbers of any size.

use vstd::prelude::*;

verus! {

/// What one unit of the limb at position `i` is worth.
pub closed spec fn weight(i: nat) -> nat
    decreases i,
{
    if i == 0 {
        1
    } else {
        0x1_0000_0000 * weight((i - 1) as nat)
    }
}

/// The limb at position `i`; every position past the end holds zero.
pub closed spec fn limb(limbs: Seq<u32>, i: int) -> nat {
    if 0 <= i < limbs.len() {
        limbs[i] as nat
    } else {
        0
    }
}

/// What the first `n` limbs are worth together.
pub closed spec fn prefix(limbs: Seq<u32>, n: nat) -> nat
    decreases n,
{
    if n == 0 {
        0
    } else {
        prefix(limbs, (n - 1) as nat) + limb(limbs, n - 1) * weight((n - 1) as nat)
    }
}

/// A natural number, held as limbs of 32 bits with the least significant first.
pub struct Natural {
    limbs: Vec<u32>,
}

impl View for Natural {
    type V = nat;

    closed spec fn view(&self) -> nat {
        prefix(self.limbs@, self.limbs@.len())
    }
}

proof fn lemma_prefix_agrees(a: Seq<u32>, b: Seq<u32>, n: nat)
    requires
        forall|i: int| 0 <= i < n ==> limb(a, i) == limb(b, i),
    ensures
        prefix(a, n) == prefix(b, n),
    decreases n,
{
    if n > 0 {
        lemma_prefix_agrees(a, b, (n - 1) as nat);
        assert(limb(a, n - 1) == limb(b, n - 1));
    }
}

proof fn lemma_prefix_past_end(limbs: Seq<u32>, n: nat)
    requires
        n >= limbs.len(),
    ensures
        prefix(limbs, n) == prefix(limbs, limbs.len()),
    decreases n,
{
    if n > limbs.len() {
        lemma_prefix_past_end(limbs, (n - 1) as nat);
        assert(0 * weight((n - 1) as nat) == 0) by (nonlinear_arith);
    }
}

proof fn lemma_prefix_bound(limbs: Seq<u32>, n: nat)
    ensures
        prefix(limbs, n) < weight(n),
    decreases n,
{
    if n > 0 {
        let m: nat = (n - 1) as nat;
        lemma_prefix_bound(limbs, m);
        let top: nat = limb(limbs, m as int);
        let w: nat = weight(m);
        assert(top * w + w <= 0x1_0000_0000 * w) by (nonlinear_arith)
            requires
                top < 0x1_0000_0000,
        ;
    }
}

proof fn lemma_prefix_push(limbs: Seq<u32>, x: u32)
    ensures
        prefix(limbs.push(x), limbs.len() + 1) == prefix(limbs, limbs.len()) + x * weight(
            limbs.len(),
        ),
{
    lemma_prefix_agrees(limbs.push(x), limbs, limbs.len());
}

impl Natural {
    /// The number `n`.
    pub fn from_u64(n: u64) -> (r: Natural)
        ensures
            r@ == n,
    {
        let low: u32 = (n % 0x1_0000_0000) as u32;
        let high: u32 = (n / 0x1_0000_0000) as u32;
        let mut limbs: Vec<u32> = Vec::new();
        proof {
            lemma_prefix_push(limbs@, low);
            lemma_prefix_push(limbs@.push(low), high);
            assert(weight(0) == 1 && weight(1) == 0x1_0000_0000) by {
                reveal_with_fuel(weight, 2);
            }
            assert(low * weight(0) == low) by (nonlinear_arith)
                requires
                    weight(0) == 1,
            ;
            assert(high * weight(1) == high * 0x1_0000_0000) by (nonlinear_arith)
                requires
                    weight(1) == 0x1_0000_0000,
            ;
        }
        limbs.push(low);
        limbs.push(high);
        Natural { limbs }
    }

    /// A number equal to this one.
    pub fn copy(&self) -> (r: Natural)
        ensures
            r@ == self@,
    {
        Natural { limbs: self.limbs.clone() }
    }

    fn limb_at(&self, i: usize) -> (r: u32)
        ensures
            r == limb(self.limbs@, i as int),
    {
        if i < self.limbs.len() {
            self.limbs[i]
        } else {
            0
        }
    }

    /// This number times `factor`, plus `addend`.
    pub fn times_plus(&self, factor: u32, addend: u32) -> (r: Natural)
        ensures
            r@ == self@ * factor + addend,
    {
        let mut out: Vec<u32> = Vec::new();
        let mut carry: u64 = addend as u64;
        let mut i: usize = 0;
        proof {
            assert(0 * factor == 0) by (nonlinear_arith);
            assert(carry * weight(0) == carry) by (nonlinear_arith)
                requires
                    weight(0) == 1,
            ;
        }
        while i < self.limbs.len()
            invariant
                i <= self.limbs@.len(),
                out@.len() == i,
                carry < 0x1_0000_0000,
                prefix(out@, i as nat) + carry * weight(i as nat) == prefix(self.limbs@, i as nat)
                    * factor + addend,
            decreases self.limbs@.len() - i,
        {
            let x: u64 = self.limbs[i] as u64;
            assert(x * factor + carry <= 0xffff_ffff_ffff_ffff) by (nonlinear_arith)
                requires
                    x <= 0xffff_ffff,
                    factor <= 0xffff_ffff,
                    carry <= 0xffff_ffff,
            ;
            assert(x * factor <= 0xffff_ffff_ffff_ffff && x * factor >= 0) by (nonlinear_arith)
                requires
                    x <= 0xffff_ffff,
                    factor <= 0xffff_ffff,
            ;
            let t: u64 = x * (factor as u64) + carry;
            let low: u32 = (t % 0x1_0000_0000) as u32;
            let high: u64 = t / 0x1_0000_0000;
            proof {
                lemma_prefix_push(out@, low);
                let w: int = weight(i as nat) as int;
                let before: int = prefix(self.limbs@, i as nat) as int;
                let done: int = prefix(out@, i as nat) as int;
                assert(t == low + high * 0x1_0000_0000);
                assert(done + low * w + high * (0x1_0000_0000 * w) == (before + x * w) * factor
                    + addend) by (nonlinear_arith)
                    requires
                        done + carry * w == before * factor + addend,
                        t == low + high * 0x1_0000_0000,
                        t == x * factor + carry,
                ;
            }
            out.push(low);
            carry = high;
            i += 1;
        }
        let last: u32 = carry as u32;
        proof {
            lemma_prefix_push(out@, last);
        }
        if last != 0 {
            out.push(last);
        } else {
            assert(0 * weight(i as nat) == 0) by (nonlinear_arith);
        }
        Natural { limbs: out }
    }

    /// Twice this number.
    pub fn doubled(&self) -> (r: Natural)
        ensures
            r@ == 2 * self@,
    {
        self.times_plus(2, 0)
    }

    /// This number times two to the power `n`.
    pub fn doubled_times(&self, n: u32) -> (r: Natural)
        ensures
            r@ == self@ * vstd::arithmetic::power2::pow2(n as nat),
    {
        let mut out = self.copy();
        let mut i: u32 = 0;
        proof {
            vstd::arithmetic::power2::lemma2_to64();
        }
        while i < n
            invariant
                i <= n,
                out@ == self@ * vstd::arithmetic::power2::pow2(i as nat),
            decreases n - i,
        {
            proof {
                vstd::arithmetic::power2::lemma_pow2_unfold((i + 1) as nat);
                let p: int = vstd::arithmetic::power2::pow2(i as nat) as int;
                let s: int = self@ as int;
                assert(2 * (s * p) == s * (2 * p)) by (nonlinear_arith);
            }
            out = out.doubled();
            i += 1;
        }
        out
    }

    fn longer(&self, other: &Natural) -> (r: usize)
        ensures
            r >= self.limbs@.len(),
            r >= other.limbs@.len(),
    {
        if self.limbs.len() < other.limbs.len() {
            other.limbs.len()
        } else {
            self.limbs.len()
        }
    }

    /// How this number stands to `other`: negative for less, zero for equal,
    /// positive for greater.
    pub fn sign_against(&self, other: &Natural) -> (r: i8)
        ensures
            r < 0 <==> self@ < other@,
            r == 0 <==> self@ == other@,
            r > 0 <==> self@ > other@,
    {
        let n: usize = self.longer(other);
        let mut r: i8 = 0;
        let mut i: usize = 0;
        while i < n
            invariant
                i <= n,
                r < 0 <==> prefix(self.limbs@, i as nat) < prefix(other.limbs@, i as nat),
                r == 0 <==> prefix(self.limbs@, i as nat) == prefix(other.limbs@, i as nat),
                r > 0 <==> prefix(self.limbs@, i as nat) > prefix(other.limbs@, i as nat),
            decreases n - i,
        {
            let a: u32 = self.limb_at(i);
            let b: u32 = other.limb_at(i);
            proof {
                lemma_prefix_bound(self.limbs@, i as nat);
                lemma_prefix_bound(other.limbs@, i as nat);
                let w: int = weight(i as nat) as int;
                assert(a < b ==> a * w + w <= b * w) by (nonlinear_arith)
                    requires
                        w >= 0,
                ;
                assert(b < a ==> b * w + w <= a * w) by (nonlinear_arith)
                    requires
                        w >= 0,
                ;
            }
            if a < b {
                r = -1;
            } else if a > b {
                r = 1;
            }
            i += 1;
        }
        proof {
            lemma_prefix_past_end(self.limbs@, n as nat);
            lemma_prefix_past_end(other.limbs@, n as nat);
        }
        r
    }

    /// The sum of this number and `other`.
    pub fn plus(&self, other: &Natural) -> (r: Natural)
        ensures
            r@ == self@ + other@,
    {
        let n: usize = self.longer(other);
        let mut out: Vec<u32> = Vec::new();
        let mut carry: u64 = 0;
        let mut i: usize = 0;
        while i < n
            invariant
                i <= n,
                out@.len() == i,
                carry <= 1,
                prefix(out@, i as nat) + carry * weight(i as nat) == prefix(self.limbs@, i as nat)
                    + prefix(other.limbs@, i as nat),
            decreases n - i,
        {
            let a: u64 = self.limb_at(i) as u64;
            let b: u64 = other.limb_at(i) as u64;
            let t: u64 = a + b + carry;
            let low: u32 = (t % 0x1_0000_0000) as u32;
            let high: u64 = t / 0x1_0000_0000;
            proof {
                lemma_prefix_push(out@, low);
                let w: int = weight(i as nat) as int;
                assert(low * w + high * (0x1_0000_0000 * w) == a * w + b * w + carry * w)
                    by (nonlinear_arith)
                    requires
                        a + b + carry == low + high * 0x1_0000_0000,
                ;
            }
            out.push(low);
            carry = high;
            i += 1;
        }
        let last: u32 = carry as u32;
        proof {
            lemma_prefix_past_end(self.limbs@, n as nat);
            lemma_prefix_past_end(other.limbs@, n as nat);
            lemma_prefix_push(out@, last);
        }
        out.push(last);
        Natural { limbs: out }
    }

    /// What is left of this number when `other` is taken away.
    pub fn minus(&self, other: &Natural) -> (r: Natural)
        requires
            other@ <= self@,
        ensures
            r@ == self@ - other@,
    {
        let n: usize = self.longer(other);
        let mut out: Vec<u32> = Vec::new();
        let mut borrow: u64 = 0;
        let mut i: usize = 0;
        while i < n
            invariant
                i <= n,
                out@.len() == i,
                borrow <= 1,
                prefix(out@, i as nat) - borrow * weight(i as nat) == prefix(self.limbs@, i as nat)
                    - prefix(other.limbs@, i as nat),
            decreases n - i,
        {
            let a: u64 = self.limb_at(i) as u64;
            let b: u64 = other.limb_at(i) as u64;
            let t: u64 = 0x1_0000_0000 + a - b - borrow;
            let low: u32 = (t % 0x1_0000_0000) as u32;
            let high: u64 = 1 - t / 0x1_0000_0000;
            proof {
                lemma_prefix_push(out@, low);
                let w: int = weight(i as nat) as int;
                assert(low * w - high * (0x1_0000_0000 * w) == a * w - b * w - borrow * w)
                    by (nonlinear_arith)
                    requires
                        a - b - borrow == low - high * 0x1_0000_0000,
                ;
            }
            out.push(low);
            borrow = high;
            i += 1;
        }
        proof {
            lemma_prefix_past_end(self.limbs@, n as nat);
            lemma_prefix_past_end(other.limbs@, n as nat);
            lemma_prefix_bound(out@, n as nat);
            let w: int = weight(n as nat) as int;
            assert(borrow == 1 ==> borrow * w == w) by (nonlinear_arith);
            assert(borrow == 0 ==> borrow * w == 0) by (nonlinear_arith);
        }
        Natural { limbs: out }
    }
}

} // verus!
