//! Amounts written as decimal text.
//!
//! The notation is that of `f64`'s `FromStr`: an optional sign, digits with an
//! optional point among them or at either end, and an optional exponent. The
//! words for infinity and for undefined amounts are left out, because only
//! finite amounts are of use here.

use crate::amount::{distance, negation, signed, Amount};
use crate::natural::Natural;
use crate::rounding::{nearest_rank, rounded, units_per_one, INFINITY_RANK};
use crate::text::{characters, digits, number};
use vstd::arithmetic::power2::{lemma_pow2_adds, lemma_pow2_pos, lemma_pow2_unfold, pow2};
use vstd::prelude::*;

verus! {

pub open spec fn is_digit(c: char) -> bool {
    0x30 <= c as u32 <= 0x39
}

pub open spec fn is_sign(c: char) -> bool {
    c == '+' || c == '-'
}

/// The position behind the digits that start at `from`.
pub open spec fn digits_end(s: Seq<char>, from: int) -> int
    decreases s.len() - from,
{
    if 0 <= from < s.len() && is_digit(s[from]) {
        digits_end(s, from + 1)
    } else {
        from
    }
}

/// The number whose digits are those of `n` followed by those of `s`.
pub open spec fn continued(n: nat, s: Seq<char>) -> nat
    decreases s.len(),
{
    if s.len() == 0 {
        n
    } else {
        10 * continued(n, s.drop_last()) + (s.last() as u32 - 0x30) as nat
    }
}

/// Ten to the power `n`.
pub open spec fn ten_to(n: nat) -> nat
    decreases n,
{
    if n == 0 {
        1
    } else {
        10 * ten_to((n - 1) as nat)
    }
}

/// A number in decimal notation: a sign, and digits times a power of ten.
pub struct Literal {
    pub negative: bool,
    pub digits: nat,
    pub exponent: int,
}

/// The number that a text denotes, if it denotes one.
pub open spec fn literal(s: Seq<char>) -> Option<Literal> {
    let start: int = if s.len() > 0 && is_sign(s[0]) {
        1
    } else {
        0
    };
    let point = digits_end(s, start);
    let pointed = point < s.len() && s[point] == '.';
    let fraction: int = if pointed {
        point + 1
    } else {
        point
    };
    let end = if pointed {
        digits_end(s, fraction)
    } else {
        point
    };
    let digits = continued(continued(0, s.subrange(start, point)), s.subrange(fraction, end));
    let negative = start == 1 && s[0] == '-';
    if point == start && end == fraction {
        None
    } else if end == s.len() {
        Some(Literal { negative, digits, exponent: -(end - fraction) })
    } else if s[end] == 'e' || s[end] == 'E' {
        let signed_exponent = end + 1 < s.len() && is_sign(s[end + 1]);
        let from: int = if signed_exponent {
            end + 2
        } else {
            end + 1
        };
        if from < s.len() && digits_end(s, from) == s.len() {
            let size = continued(0, s.subrange(from, s.len() as int)) as int;
            let exponent = if signed_exponent && s[end + 1] == '-' {
                -size
            } else {
                size
            };
            Some(Literal { negative, digits, exponent: exponent - (end - fraction) })
        } else {
            None
        }
    } else {
        None
    }
}

/// The rank of the double nearest to the number, its sign left aside.
pub open spec fn literal_rank(l: Literal) -> nat {
    if l.exponent >= 0 {
        rounded(l.digits * ten_to(l.exponent as nat) * units_per_one(), 1)
    } else {
        rounded(l.digits * units_per_one(), ten_to((-l.exponent) as nat))
    }
}

/// The finite amount nearest to the number that a text denotes, if there is one.
pub open spec fn amount_of_text(s: Seq<char>) -> Option<Amount> {
    match literal(s) {
        None => None,
        Some(l) => if literal_rank(l) < INFINITY_RANK {
            Some(signed(l.negative, literal_rank(l)))
        } else {
            None
        },
    }
}

proof fn lemma_digits_end(s: Seq<char>, from: int)
    requires
        0 <= from <= s.len(),
    ensures
        from <= digits_end(s, from) <= s.len(),
        forall|i: int| from <= i < digits_end(s, from) ==> is_digit(#[trigger] s[i]),
    decreases s.len() - from,
{
    if from < s.len() && is_digit(s[from]) {
        lemma_digits_end(s, from + 1);
    }
}

proof fn lemma_ten_to_large(n: nat)
    ensures
        ten_to(n) >= pow2(3 * n),
        ten_to(n) > 0,
    decreases n,
{
    vstd::arithmetic::power2::lemma2_to64();
    if n > 0 {
        let m: nat = (n - 1) as nat;
        lemma_ten_to_large(m);
        lemma_pow2_adds(3, 3 * m);
    }
}

proof fn lemma_ten_to_adds(a: nat, b: nat)
    ensures
        ten_to(a + b) == ten_to(a) * ten_to(b),
    decreases b,
{
    if b > 0 {
        let c: nat = (b - 1) as nat;
        lemma_ten_to_adds(a, c);
        let x: int = ten_to(a) as int;
        let y: int = ten_to(c) as int;
        assert(10 * (x * y) == x * (10 * y)) by (nonlinear_arith);
    } else {
        assert(ten_to(a) * 1 == ten_to(a));
    }
}

proof fn lemma_ten_to_ordered(a: nat, b: nat)
    requires
        a <= b,
    ensures
        ten_to(a) <= ten_to(b),
    decreases b - a,
{
    if a < b {
        lemma_ten_to_ordered(a, (b - 1) as nat);
    }
}

proof fn lemma_continued_bound(n: nat, s: Seq<char>)
    requires
        forall|i: int| 0 <= i < s.len() ==> is_digit(#[trigger] s[i]),
    ensures
        continued(n, s) < (n + 1) * ten_to(s.len()),
    decreases s.len(),
{
    if s.len() > 0 {
        lemma_continued_bound(n, s.drop_last());
        assert(is_digit(s[s.len() - 1]));
        let c: int = continued(n, s.drop_last()) as int;
        let t: int = ten_to((s.len() - 1) as nat) as int;
        let m: int = (n + 1) as int;
        assert(10 * c + 9 < m * (10 * t)) by (nonlinear_arith)
            requires
                c + 1 <= m * t,
        ;
    } else {
        assert((n + 1) * 1 == n + 1);
    }
}

/// Ten to the power of 400 or more is past every finite double.
proof fn lemma_too_large(digits: nat, exponent: nat)
    requires
        digits > 0,
        exponent >= 400,
    ensures
        rounded(digits * ten_to(exponent) * units_per_one(), 1) == INFINITY_RANK,
{
    lemma_ten_to_large(exponent);
    if 1200 < 3 * exponent {
        vstd::arithmetic::power2::lemma_pow2_strictly_increases(1200, 3 * exponent);
    }
    let t: int = ten_to(exponent) as int;
    let u: int = units_per_one() as int;
    let n: nat = digits * ten_to(exponent) * units_per_one();
    lemma_pow2_pos(1074);
    lemma_pow2_adds(1200, 1074);
    let g: int = digits as int;
    assert(g * t * u >= pow2(1200) * u) by (nonlinear_arith)
        requires
            g >= 1,
            t >= pow2(1200),
            u > 0,
    ;
    crate::rounding::lemma_magnitude_parts(0x10_0000_0000_0000, 2046);
    vstd::arithmetic::power2::lemma2_to64_rest();
    lemma_pow2_adds(52, 2046);
    vstd::arithmetic::power2::lemma_pow2_strictly_increases(2098, 2274);
    crate::rounding::lemma_nearest_infinity(n, 1);
    crate::rounding::lemma_rounded(n, 1);
    crate::rounding::lemma_nearest_unique(INFINITY_RANK as nat, rounded(n, 1), n, 1);
}

/// A number below ten to the power of minus 400 is nearest to zero.
proof fn lemma_too_small(digits: nat, count: nat, exponent: nat)
    requires
        digits < ten_to(count),
        exponent >= count + 400,
    ensures
        rounded(digits * units_per_one(), ten_to(exponent)) == 0,
{
    let n: nat = digits * units_per_one();
    let d: nat = ten_to(exponent);
    lemma_ten_to_large(400);
    lemma_ten_to_large(exponent);
    lemma_ten_to_large(count);
    lemma_ten_to_adds(count, 400);
    lemma_ten_to_ordered(count + 400, exponent);
    lemma_pow2_unfold(1075);
    vstd::arithmetic::power2::lemma_pow2_strictly_increases(1075, 1200);
    let g: int = digits as int;
    let c: int = ten_to(count) as int;
    let h: int = ten_to(400) as int;
    let u: int = units_per_one() as int;
    lemma_pow2_pos(1074);
    assert(2 * (g * u) < c * h) by (nonlinear_arith)
        requires
            g < c,
            2 * u <= h,
            u > 0,
            g >= 0,
    ;
    assert(crate::rounding::magnitude(1) == 1);
    assert((0 + 1) * d == d) by (nonlinear_arith);
    assert(crate::rounding::nearest(0, n, d));
    crate::rounding::lemma_rounded(n, d);
    crate::rounding::lemma_nearest_unique(0, rounded(n, d), n, d);
}

fn is_digit_char(c: char) -> (r: bool)
    ensures
        r == is_digit(c),
{
    let code: u32 = c as u32;
    0x30 <= code && code <= 0x39
}

fn run_end(s: &Vec<char>, from: usize) -> (r: usize)
    requires
        from <= s@.len(),
    ensures
        r == digits_end(s@, from as int),
        from <= r <= s@.len(),
{
    let mut i: usize = from;
    while i < s.len() && is_digit_char(s[i])
        invariant
            from <= i <= s@.len(),
            digits_end(s@, i as int) == digits_end(s@, from as int),
        decreases s@.len() - i,
    {
        i += 1;
    }
    i
}

fn continued_by(n: &Natural, s: &Vec<char>, from: usize, to: usize) -> (r: Natural)
    requires
        from <= to <= s@.len(),
        forall|i: int| from <= i < to ==> is_digit(#[trigger] s@[i]),
    ensures
        r@ == continued(n@, s@.subrange(from as int, to as int)),
{
    let mut out = n.copy();
    let mut i: usize = from;
    while i < to
        invariant
            from <= i <= to <= s@.len(),
            forall|j: int| from <= j < to ==> is_digit(#[trigger] s@[j]),
            out@ == continued(n@, s@.subrange(from as int, i as int)),
        decreases to - i,
    {
        proof {
            assert(is_digit(s@[i as int]));
            assert(s@.subrange(from as int, i + 1).drop_last() =~= s@.subrange(
                from as int,
                i as int,
            ));
        }
        let d: u32 = s[i] as u32 - 0x30;
        out = out.times_plus(10, d);
        i += 1;
    }
    out
}

/// The number that a run of digits spells, or ten to the power of 30 where it is larger.
fn exponent_size(s: &Vec<char>, from: usize, to: usize) -> (r: i128)
    requires
        from <= to <= s@.len(),
        forall|i: int| from <= i < to ==> is_digit(#[trigger] s@[i]),
    ensures
        ({
            let size = continued(0, s@.subrange(from as int, to as int));
            r == if size < 1_000_000_000_000_000_000_000_000_000_000 {
                size as int
            } else {
                1_000_000_000_000_000_000_000_000_000_000
            }
        }),
{
    let mut out: i128 = 0;
    let mut i: usize = from;
    while i < to
        invariant
            from <= i <= to <= s@.len(),
            forall|j: int| from <= j < to ==> is_digit(#[trigger] s@[j]),
            ({
                let size = continued(0, s@.subrange(from as int, i as int));
                out == if size < 1_000_000_000_000_000_000_000_000_000_000 {
                    size as int
                } else {
                    1_000_000_000_000_000_000_000_000_000_000
                }
            }),
        decreases to - i,
    {
        proof {
            assert(is_digit(s@[i as int]));
            assert(s@.subrange(from as int, i + 1).drop_last() =~= s@.subrange(
                from as int,
                i as int,
            ));
        }
        let d: u32 = s[i] as u32 - 0x30;
        out = out * 10 + d as i128;
        if out > 1_000_000_000_000_000_000_000_000_000_000 {
            out = 1_000_000_000_000_000_000_000_000_000_000;
        }
        i += 1;
    }
    out
}

fn times_ten_to(n: &Natural, e: i128) -> (r: Natural)
    requires
        e >= 0,
    ensures
        r@ == n@ * ten_to(e as nat),
{
    let mut out = n.copy();
    let mut i: i128 = 0;
    proof {
        let m: int = n@ as int;
        assert(m * 1 == m) by (nonlinear_arith);
    }
    while i < e
        invariant
            0 <= i <= e,
            out@ == n@ * ten_to(i as nat),
        decreases e - i,
    {
        proof {
            let m: int = n@ as int;
            let t: int = ten_to(i as nat) as int;
            assert((m * t) * 10 == m * (10 * t)) by (nonlinear_arith);
            assert(ten_to((i + 1) as nat) == 10 * ten_to(i as nat));
        }
        out = out.times_plus(10, 0);
        i += 1;
    }
    out
}

/// The rank of the double nearest to `digits` times ten to the power `exponent`,
/// where `digits` has at most `count` digits.
fn rank_of(digits: &Natural, count: i128, exponent: i128) -> (r: u64)
    requires
        0 <= count <= 0x1_0000_0000_0000_0000,
        digits@ < ten_to(count as nat),
        -2_000_000_000_000_000_000_000_000_000_000 <= exponent,
        exponent <= 1_000_000_000_000_000_000_000_000_000_000,
    ensures
        forall|negative: bool|
            r == #[trigger] literal_rank(
                Literal { negative, digits: digits@, exponent: exponent as int },
            ),
{
    let zero = Natural::from_u64(0);
    let one = Natural::from_u64(1);
    if digits.sign_against(&zero) == 0 {
        proof {
            assert forall|negative: bool|
                #[trigger] literal_rank(
                    Literal { negative, digits: digits@, exponent: exponent as int },
                ) == 0 by {
                lemma_zero_digits(Literal { negative, digits: digits@, exponent: exponent as int });
            }
        }
        0
    } else if exponent > 400 {
        proof {
            lemma_too_large(digits@, exponent as nat);
        }
        INFINITY_RANK
    } else if exponent < -(count + 400) {
        proof {
            lemma_too_small(digits@, count as nat, (-exponent) as nat);
        }
        0
    } else if exponent >= 0 {
        nearest_rank(&times_ten_to(digits, exponent), &one, 1074)
    } else {
        let power = times_ten_to(&one, -exponent);
        proof {
            lemma_ten_to_large((-exponent) as nat);
        }
        nearest_rank(digits, &power, 1074)
    }
}

/// Where the parts of a number stand in its text.
struct Layout {
    negative: bool,
    start: usize,
    point: usize,
    fraction: usize,
    end: usize,
    /// The exponent as written, cut off at ten to the power of 30 on either side.
    exponent: i128,
}

impl Layout {
    /// The layout describes how `s` denotes `l`.
    spec fn describes(self, s: Seq<char>, l: Literal) -> bool {
        let written = l.exponent + (self.end - self.fraction);
        let cut: int = 1_000_000_000_000_000_000_000_000_000_000;
        &&& self.start <= self.point <= self.fraction <= self.end <= s.len()
        &&& forall|i: int| self.start <= i < self.point ==> is_digit(#[trigger] s[i])
        &&& forall|i: int| self.fraction <= i < self.end ==> is_digit(#[trigger] s[i])
        &&& l.negative == self.negative
        &&& l.digits == continued(
            continued(0, s.subrange(self.start as int, self.point as int)),
            s.subrange(self.fraction as int, self.end as int),
        )
        &&& self.exponent == if written >= cut {
            cut
        } else if written <= -cut {
            -cut
        } else {
            written
        }
    }
}

fn layout(s: &Vec<char>) -> (r: Option<Layout>)
    ensures
        r is Some <==> literal(s@) is Some,
        r is Some ==> r->0.describes(s@, literal(s@)->0),
{
    let len: usize = s.len();
    let signed_number: bool = len > 0 && (s[0] == '+' || s[0] == '-');
    let start: usize = if signed_number {
        1
    } else {
        0
    };
    let negative: bool = signed_number && s[0] == '-';
    let point: usize = run_end(s, start);
    let pointed: bool = point < len && s[point] == '.';
    let fraction: usize = if pointed {
        point + 1
    } else {
        point
    };
    let end: usize = if pointed {
        run_end(s, fraction)
    } else {
        point
    };
    proof {
        lemma_digits_end(s@, start as int);
        if pointed {
            lemma_digits_end(s@, fraction as int);
        }
    }
    if point == start && end == fraction {
        return None;
    }
    if end == len {
        return Some(Layout { negative, start, point, fraction, end, exponent: 0 });
    }
    if s[end] != 'e' && s[end] != 'E' {
        return None;
    }
    let signed_exponent: bool = end + 1 < len && (s[end + 1] == '+' || s[end + 1] == '-');
    let from: usize = if signed_exponent {
        end + 2
    } else {
        end + 1
    };
    if from >= len || run_end(s, from) != len {
        return None;
    }
    proof {
        lemma_digits_end(s@, from as int);
    }
    let size: i128 = exponent_size(s, from, len);
    let exponent: i128 = if signed_exponent && s[end + 1] == '-' {
        -size
    } else {
        size
    };
    Some(Layout { negative, start, point, fraction, end, exponent })
}

/// The finite amount that a text denotes, if it denotes one.
pub fn parse_amount(text: &str) -> (r: Option<Amount>)
    ensures
        r == amount_of_text(text@),
{
    let s = characters(text);
    let parts = match layout(&s) {
        None => return None,
        Some(parts) => parts,
    };
    let ghost l: Literal = literal(s@)->0;
    let zero = Natural::from_u64(0);
    let whole = continued_by(&zero, &s, parts.start, parts.point);
    let digits = continued_by(&whole, &s, parts.fraction, parts.end);
    let places: i128 = (parts.end - parts.fraction) as i128;
    let count: i128 = (parts.point - parts.start) as i128 + places;
    proof {
        let a: Seq<char> = s@.subrange(parts.start as int, parts.point as int);
        let b: Seq<char> = s@.subrange(parts.fraction as int, parts.end as int);
        lemma_continued_bound(0, a);
        lemma_continued_bound(continued(0, a), b);
        lemma_ten_to_adds(a.len(), b.len());
        let w: int = continued(0, a) as int;
        let ta: int = ten_to(a.len()) as int;
        let tb: int = ten_to(b.len()) as int;
        assert((0 + 1) * ta == ta) by (nonlinear_arith);
        assert((w + 1) * tb <= ta * tb) by (nonlinear_arith)
            requires
                w < ta,
                tb >= 0,
        ;
    }
    let rank: u64 = rank_of(&digits, count, parts.exponent - places);
    proof {
        let near: Literal = Literal {
            negative: l.negative,
            digits: digits@,
            exponent: parts.exponent - places,
        };
        assert(literal_rank(near) == rank);
        if l.exponent == near.exponent {
            assert(l == near);
        } else if digits@ == 0 {
            lemma_zero_digits(l);
            lemma_zero_digits(near);
        } else if parts.exponent > 0 {
            lemma_too_large(l.digits, l.exponent as nat);
            lemma_too_large(l.digits, near.exponent as nat);
        } else {
            lemma_too_small(l.digits, count as nat, (-l.exponent) as nat);
            lemma_too_small(l.digits, count as nat, (-near.exponent) as nat);
        }
    }
    if rank >= INFINITY_RANK {
        None
    } else if parts.negative {
        Some(Amount { bits: rank + 0x8000_0000_0000_0000 })
    } else {
        Some(Amount { bits: rank })
    }
}

proof fn lemma_zero_digits(l: Literal)
    requires
        l.digits == 0,
    ensures
        literal_rank(l) == 0,
{
    let d: nat = if l.exponent >= 0 {
        1
    } else {
        ten_to((-l.exponent) as nat)
    };
    if l.exponent < 0 {
        lemma_ten_to_large((-l.exponent) as nat);
    } else {
        let t: int = ten_to(l.exponent as nat) as int;
        assert(0 * t == 0) by (nonlinear_arith);
    }
    let u: int = units_per_one() as int;
    assert(0 * u == 0) by (nonlinear_arith);
    crate::rounding::lemma_rounded_exact(0, d);
    crate::rounding::lemma_magnitude_zero();
    assert(0 * d == 0) by (nonlinear_arith);
}

/// An amount that a numeral stands for is finite.
pub proof fn lemma_amount_is_finite(s: Seq<char>)
    ensures
        amount_of_text(s) is Some ==> amount_of_text(s)->0.finite(),
{
    if let Some(l) = literal(s) {
        if literal_rank(l) < INFINITY_RANK {
            crate::amount::lemma_signed(l.negative, literal_rank(l));
        }
    }
}

proof fn lemma_run_of_digits(s: Seq<char>, from: int, to: int)
    requires
        0 <= from <= to <= s.len(),
        forall|i: int| from <= i < to ==> is_digit(#[trigger] s[i]),
        to == s.len() || !is_digit(s[to]),
    ensures
        digits_end(s, from) == to,
    decreases to - from,
{
    if from < to {
        lemma_run_of_digits(s, from + 1, to);
    }
}

proof fn lemma_continued_joined(n: nat, s: Seq<char>, t: Seq<char>)
    ensures
        continued(n, s + t) == continued(continued(n, s), t),
    decreases t.len(),
{
    if t.len() == 0 {
        assert(s + t =~= s);
    } else {
        lemma_continued_joined(n, s, t.drop_last());
        assert((s + t).drop_last() =~= s + t.drop_last());
    }
}

/// A text holds digits and nothing else.
pub open spec fn all_digits(s: Seq<char>) -> bool {
    forall|i: int| 0 <= i < s.len() ==> is_digit(#[trigger] s[i])
}

/// A fraction of powers of ten: the number that `n` digits times ten to the power
/// of `exponent` is, as a numerator and a denominator.
pub open spec fn scaled(n: nat, exponent: int) -> (nat, nat) {
    if exponent >= 0 {
        (n * ten_to(exponent as nat), 1)
    } else {
        (n, ten_to((-exponent) as nat))
    }
}

/// An amount is one of those closest to a fraction: taken as many times as the
/// denominator says, no finite amount comes closer to the numerator.
pub open spec fn closest_to(a: Amount, fraction: (nat, nat)) -> bool {
    a.finite() && !a.negative() && forall|c: Amount|
        #[trigger] c.finite() ==> distance(
            a.units() * fraction.1,
            (fraction.0 * units_per_one()) as int,
        ) <= distance(c.units() * fraction.1, (fraction.0 * units_per_one()) as int)
}

proof fn lemma_literal_is_closest(n: nat, exponent: int)
    ensures
        ({
            let l = Literal { negative: false, digits: n, exponent };
            let a = signed(false, literal_rank(l));
            let fraction = scaled(n, exponent);
            &&& literal_rank(l) < INFINITY_RANK ==> closest_to(a, fraction)
            &&& literal_rank(l) >= INFINITY_RANK ==> forall|c: Amount|
                #[trigger] c.finite() ==> c.units() * fraction.1 < fraction.0 * units_per_one()
        }),
{
    let l: Literal = Literal { negative: false, digits: n, exponent };
    let rank: nat = literal_rank(l);
    let fraction: (nat, nat) = scaled(n, exponent);
    let q: nat = fraction.1;
    let m: nat = fraction.0 * units_per_one();
    lemma_ten_to_large(
        if exponent < 0 {
            (-exponent) as nat
        } else {
            0
        },
    );
    assert(rank == rounded(m, q));
    crate::rounding::lemma_rounded(m, q);
    crate::rounding::lemma_magnitude_zero();
    if rank < INFINITY_RANK {
        let a: Amount = signed(false, rank);
        crate::amount::lemma_signed(false, rank);
        assert forall|c: Amount| #[trigger] c.finite() implies distance(a.units() * q, m as int)
            <= distance(c.units() * q, m as int) by {
            crate::rounding::lemma_nearest_is_closest(rank, c.rank(), m, q);
            crate::rounding::lemma_nearest_is_closest(rank, 0, m, q);
            let size: int = crate::rounding::magnitude(c.rank()) as int;
            assert(0 * q == 0) by (nonlinear_arith);
            assert(size * q >= 0) by (nonlinear_arith)
                requires
                    size >= 0,
            ;
            assert((-size) * q == -(size * q)) by (nonlinear_arith);
        }
    } else {
        assert forall|c: Amount| #[trigger] c.finite() implies c.units() * q < m by {
            let size: int = crate::rounding::magnitude(c.rank()) as int;
            assert((-size) * q <= size * q) by (nonlinear_arith)
                requires
                    size >= 0,
            ;
            if m <= size * q {
                crate::rounding::lemma_rounded_exact(c.rank(), q);
                crate::rounding::lemma_nearest_ordered(
                    rank,
                    m,
                    c.rank(),
                    crate::rounding::magnitude(c.rank()) * q,
                    q,
                );
            }
        }
    }
}

/// A numeral is read as the amount closest to the number that it denotes: the
/// digits before and behind its point, times a power of ten where it has one.
/// It has no amount only where the number is beyond every finite amount.
#[verifier::spinoff_prover]
#[verifier::rlimit(40)]
pub proof fn law_numeral_is_read_as_the_closest_amount(
    whole: Seq<char>,
    part: Seq<char>,
    exponent: int,
)
    requires
        all_digits(whole),
        all_digits(part),
        whole.len() + part.len() > 0,
    ensures
        ({
            let n = continued(0, whole + part);
            let pointed = whole + "."@ + part;
            let full = pointed + "e"@ + number(exponent, 0);
            let plain = scaled(n, -part.len());
            let fraction = scaled(n, exponent - part.len());
            &&& amount_of_text(pointed) is Some ==> closest_to(amount_of_text(pointed)->0, plain)
            &&& amount_of_text(pointed) is None ==> forall|c: Amount|
                #[trigger] c.finite() ==> c.units() * plain.1 < plain.0 * units_per_one()
            &&& amount_of_text(full) is Some ==> closest_to(amount_of_text(full)->0, fraction)
            &&& amount_of_text(full) is None ==> forall|c: Amount|
                #[trigger] c.finite() ==> c.units() * fraction.1 < fraction.0 * units_per_one()
            &&& part.len() == 0 ==> amount_of_text(whole) == amount_of_text(pointed)
        }),
{
    reveal_strlit(".");
    reveal_strlit("e");
    let n: nat = continued(0, whole + part);
    let k: int = part.len() as int;
    let w: int = whole.len() as int;
    lemma_continued_joined(0, whole, part);
    lemma_literal_is_closest(n, -k);
    lemma_literal_is_closest(n, exponent - k);
    let pointed: Seq<char> = whole + "."@ + part;
    lemma_pointed(whole, part, pointed);
    assert(literal(pointed) == Some(Literal { negative: false, digits: n, exponent: -k })) by {
        lemma_run_of_digits(pointed, w + 1, w + 1 + k);
    }
    let tail: Seq<char> = number(exponent, 0);
    let full: Seq<char> = pointed + "e"@ + tail;
    lemma_pointed(whole, part, full);
    let size: nat = if exponent < 0 {
        (-exponent) as nat
    } else {
        exponent as nat
    };
    let d: Seq<char> = digits(size);
    crate::counts::lemma_digits(size);
    assert(tail =~= if exponent < 0 {
        seq!['-'] + d
    } else {
        d
    });
    assert(full[w + 1 + k] == 'e');
    lemma_run_of_digits(full, w + 1, w + 1 + k);
    let from: int = w + 2 + k + if exponent < 0 {
        1int
    } else {
        0
    };
    assert forall|i: int| from <= i < full.len() implies is_digit(#[trigger] full[i]) by {
        assert(full[i] == d[i - from]);
    }
    lemma_run_of_digits(full, from, full.len() as int);
    assert(full.subrange(from, full.len() as int) =~= d);
    assert(full[w + 2 + k] == tail[0]);
    if exponent >= 0 {
        assert(is_digit(d[0]));
    }
    assert(literal(full) == Some(
        Literal { negative: false, digits: n, exponent: exponent - k },
    ));
    if k == 0 {
        lemma_run_of_digits(whole, 0, w);
        assert(whole + part =~= whole);
        assert(whole.subrange(0, w) =~= whole);
        assert(whole.subrange(w, w) =~= Seq::<char>::empty());
        assert(is_digit(whole[0]));
        assert(literal(whole) == Some(Literal { negative: false, digits: n, exponent: 0 }));
    }
}

/// A text that starts with digits, a point and digits.
proof fn lemma_pointed(whole: Seq<char>, part: Seq<char>, s: Seq<char>)
    requires
        all_digits(whole),
        all_digits(part),
        s.len() > whole.len() + part.len(),
        forall|i: int| 0 <= i < whole.len() ==> s[i] == whole[i],
        s[whole.len() as int] == '.',
        forall|i: int| 0 <= i < part.len() ==> s[whole.len() + 1 + i] == part[i],
    ensures
        digits_end(s, 0) == whole.len(),
        !is_sign(s[0]),
        s.subrange(0, whole.len() as int) == whole,
        s.subrange(whole.len() as int + 1, whole.len() as int + 1 + part.len()) == part,
        forall|i: int|
            whole.len() + 1 <= i < whole.len() + 1 + part.len() ==> is_digit(#[trigger] s[i]),
{
    let w: int = whole.len() as int;
    assert forall|i: int| 0 <= i < w implies is_digit(#[trigger] s[i]) by {
        assert(s[i] == whole[i]);
    }
    assert forall|i: int| w + 1 <= i < w + 1 + part.len() implies is_digit(#[trigger] s[i]) by {
        assert(s[i] == part[i - w - 1]);
    }
    lemma_run_of_digits(s, 0, w);
    assert(s.subrange(0, w) =~= whole);
    assert(s.subrange(w + 1, w + 1 + part.len()) =~= part);
    if w > 0 {
        assert(is_digit(s[0]));
    }
}

proof fn lemma_digits_end_shifted(c: char, s: Seq<char>, from: int)
    requires
        0 <= from <= s.len(),
    ensures
        digits_end(seq![c] + s, from + 1) == digits_end(s, from) + 1,
        from <= digits_end(s, from) <= s.len(),
    decreases s.len() - from,
{
    if from < s.len() {
        assert((seq![c] + s)[from + 1] == s[from]);
        lemma_digits_end_shifted(c, s, from + 1);
    }
}

/// A minus in front of a numeral turns its sign, and a plus changes nothing.
pub proof fn law_sign_of_a_numeral(s: Seq<char>)
    requires
        s.len() > 0,
        s[0] != '+',
        s[0] != '-',
    ensures
        amount_of_text(seq!['+'] + s) == amount_of_text(s),
        amount_of_text(s) is None ==> amount_of_text(seq!['-'] + s) is None,
        amount_of_text(s) is Some ==> amount_of_text(seq!['-'] + s) == Some(
            negation(amount_of_text(s)->0),
        ),
{
    lemma_literal_signed('+', s);
    lemma_literal_signed('-', s);
    if let Some(l) = literal(s) {
        if literal_rank(l) < INFINITY_RANK {
            crate::amount::lemma_signed(false, literal_rank(l));
        }
    }
}

#[verifier::spinoff_prover]
#[verifier::rlimit(40)]
proof fn lemma_literal_signed(c: char, s: Seq<char>)
    requires
        s.len() > 0,
        !is_sign(s[0]),
        is_sign(c),
    ensures
        literal(s) is Some <==> literal(seq![c] + s) is Some,
        literal(s) is Some ==> literal(seq![c] + s) == Some(
            Literal { negative: c == '-', ..literal(s)->0 },
        ) && !literal(s)->0.negative,
{
    let t: Seq<char> = seq![c] + s;
    assert(t[0] == c);
    assert forall|i: int| 0 <= i < s.len() implies t[i + 1] == #[trigger] s[i] by {}
    lemma_digits_end_shifted(c, s, 0);
    let point: int = digits_end(s, 0);
    let pointed: bool = point < s.len() && s[point] == '.';
    let fraction: int = if pointed {
        point + 1
    } else {
        point
    };
    lemma_digits_end_shifted(c, s, fraction);
    let end: int = if pointed {
        digits_end(s, fraction)
    } else {
        point
    };
    assert(t.subrange(1, point + 1) =~= s.subrange(0, point));
    assert(t.subrange(fraction + 1, end + 1) =~= s.subrange(fraction, end));
    if end < s.len() {
        assert(t[end + 1] == s[end]);
        if end + 1 < s.len() {
            assert(t[end + 2] == s[end + 1]);
            lemma_digits_end_shifted(c, s, end + 1);
            assert(t.subrange(end + 2, t.len() as int) =~= s.subrange(end + 1, s.len() as int));
        }
        if end + 2 < s.len() {
            lemma_digits_end_shifted(c, s, end + 2);
            assert(t.subrange(end + 3, t.len() as int) =~= s.subrange(end + 2, s.len() as int));
        }
    }
}

/// A text with any character beside digits, signs, points and the letter of the
/// exponent is no numeral, and neither is one without a digit.
#[verifier::spinoff_prover]
#[verifier::rlimit(40)]
pub proof fn law_other_texts_are_no_numerals(s: Seq<char>)
    ensures
        (exists|i: int|
            0 <= i < s.len() && !is_digit(#[trigger] s[i]) && !is_sign(s[i]) && s[i] != '.' && s[i]
                != 'e' && s[i] != 'E') ==> amount_of_text(s) is None,
        (forall|i: int| 0 <= i < s.len() ==> !is_digit(#[trigger] s[i])) ==> amount_of_text(s)
            is None,
{
    let start: int = if s.len() > 0 && is_sign(s[0]) {
        1
    } else {
        0
    };
    lemma_digits_end(s, start);
    let point: int = digits_end(s, start);
    let pointed: bool = point < s.len() && s[point] == '.';
    let fraction: int = if pointed {
        point + 1
    } else {
        point
    };
    lemma_digits_end(s, fraction);
    let end: int = if pointed {
        digits_end(s, fraction)
    } else {
        point
    };
    if end + 1 <= s.len() {
        lemma_digits_end(s, end + 1);
    }
    if end + 2 <= s.len() {
        lemma_digits_end(s, end + 2);
    }
    if amount_of_text(s) is Some {
        assert forall|i: int| 0 <= i < s.len() implies is_digit(#[trigger] s[i]) || is_sign(s[i])
            || s[i] == '.' || s[i] == 'e' || s[i] == 'E' by {}
        if point > start {
            assert(is_digit(s[start]));
        } else {
            assert(is_digit(s[fraction]));
        }
    }
}

} // verus!
