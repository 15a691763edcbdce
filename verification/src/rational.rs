//! Exact rational exposure values.

use vstd::arithmetic::div_mod::{
    lemma_fundamental_div_mod, lemma_mod_bound, lemma_mod_multiples_vanish, lemma_mod_self_0,
};
use vstd::arithmetic::mul::{
    lemma_mul_basics, lemma_mul_equality_converse, lemma_mul_inequality, lemma_mul_is_associative,
    lemma_mul_is_commutative, lemma_mul_is_distributive_add, lemma_mul_is_distributive_sub,
    lemma_mul_is_distributive_sub_other_way, lemma_mul_left_inequality, lemma_mul_nonnegative,
    lemma_mul_unary_negation, lemma_mul_upper_bound,
};
use vstd::prelude::*;

verus! {

/// `k` divides `n`.
pub open spec fn divides(k: int, n: int) -> bool {
    n % k == 0
}

/// No integer above 1 divides both `a` and `b`.
pub open spec fn no_common_divisor(a: int, b: int) -> bool {
    forall|k: int| k > 1 ==> !(#[trigger] divides(k, a) && divides(k, b))
}

/// A fraction `num / den` of mathematical integers: the model of an
/// exposure value in contracts.
pub struct Rational {
    pub num: int,
    pub den: int,
}

impl Rational {
    /// Equality of the two fractions as numbers, by cross-multiplication.
    /// Meaningful where both denominators are nonzero.
    pub open spec fn same(self, other: Rational) -> bool {
        self.num * other.den == other.num * self.den
    }

    /// The fraction is the number zero.
    pub open spec fn is_zero(self) -> bool {
        self.num == 0
    }

    /// The difference `self - other`, not reduced.
    pub open spec fn minus(self, other: Rational) -> Rational {
        Rational { num: self.num * other.den - other.num * self.den, den: self.den * other.den }
    }

    /// The denominator is positive and no integer above 1 divides both parts.
    pub open spec fn lowest_terms(self) -> bool {
        self.den > 0 && no_common_divisor(self.num, self.den)
    }

    /// Both parts are 32-bit signed integers.
    pub open spec fn fits_i32(self) -> bool {
        &&& i32::MIN <= self.num <= i32::MAX
        &&& i32::MIN <= self.den <= i32::MAX
    }
}

/// The fractions `numer / denom` of 32-bit integers whose lowest terms are
/// again 32-bit integers. The denominator is not zero, and making it
/// positive does not negate `i32::MIN`: under a negative denominator, a part
/// that is `i32::MIN`, a power of two, stays so in lowest terms exactly where
/// the other part is odd.
pub open spec fn reduces_in_range(numer: int, denom: int) -> bool {
    &&& denom != 0
    &&& !(denom < 0 && numer == i32::MIN && denom % 2 != 0)
    &&& !(denom == i32::MIN && numer % 2 != 0)
}

/// Lowest terms of `numer / denom`, computed by `num_rational::Ratio::new`.
///
/// Trusted: the result has a positive denominator, is the same number as
/// `numer / denom`, and its parts have no common divisor above 1. The
/// inputs left out are those on which `Ratio::new` panics: a zero
/// denominator, and the two cases in which it would negate `i32::MIN`.
#[verifier::external_body]
fn lowest_terms_of(numer: i32, denom: i32) -> (r: (i32, i32))
    requires
        reduces_in_range(numer as int, denom as int),
    ensures
        (Rational { num: r.0 as int, den: r.1 as int }).lowest_terms(),
        (Rational { num: r.0 as int, den: r.1 as int }).same(
            Rational { num: numer as int, den: denom as int },
        ),
{
    let q = num_rational::Ratio::<i32>::new(numer, denom);
    (*q.numer(), *q.denom())
}

/// The product of two bounded integers is bounded by the product of the bounds.
pub proof fn lemma_product_bound(x: int, y: int, bx: int, by: int)
    requires
        -bx <= x <= bx,
        -by <= y <= by,
    ensures
        -(bx * by) <= x * y <= bx * by,
{
    let ax = if x < 0 {
        -x
    } else {
        x
    };
    let ay = if y < 0 {
        -y
    } else {
        y
    };
    lemma_mul_upper_bound(ax, bx, ay, by);
    lemma_mul_nonnegative(ax, ay);
    lemma_mul_unary_negation(x, y);
    lemma_mul_unary_negation(-x, y);
    lemma_mul_unary_negation(x, -y);
    lemma_mul_unary_negation(-x, -y);
}

/// What divides two numbers divides each sum of a multiple of the first
/// and the second.
proof fn lemma_divides_combination(k: int, b: int, q: int, m: int)
    requires
        k > 0,
        divides(k, b),
        divides(k, m),
    ensures
        divides(k, b * q + m),
{
    lemma_fundamental_div_mod(b, k);
    lemma_mul_is_associative(k, b / k, q);
    lemma_mod_multiples_vanish((b / k) * q, m, k);
}

/// Two numbers without common divisor combine to 1: there are `x` and `y`
/// with `a * x + b * y == 1`.
proof fn lemma_combine_to_one(a: int, b: int) -> (r: (int, int))
    requires
        b > 0,
        no_common_divisor(a, b),
    ensures
        a * r.0 + b * r.1 == 1,
    decreases b,
{
    let q = a / b;
    let m = a % b;
    lemma_fundamental_div_mod(a, b);
    lemma_mod_bound(a, b);
    if m == 0 {
        lemma_mod_self_0(b);
        assert(divides(b, a) && divides(b, b));
        assert(b == 1);
        lemma_mul_basics(a);
        (0, 1)
    } else {
        assert forall|k: int| k > 1 implies !(#[trigger] divides(k, b) && divides(k, m)) by {
            if divides(k, b) && divides(k, m) {
                lemma_divides_combination(k, b, q, m);
                assert(divides(k, a));
            }
        }
        let (x, y) = lemma_combine_to_one(b, m);
        // b * x + (a - b * q) * y == 1
        lemma_mul_is_distributive_sub_other_way(y, a, b * q);
        lemma_mul_is_associative(b, q, y);
        lemma_mul_is_distributive_sub(b, x, q * y);
        (y, x - q * y)
    }
}

/// Where `n1 / d1` and `n2 / d2` are one number and `n1` and `d1` combine
/// to 1, `d2` is a multiple of `d1`.
proof fn lemma_denominator_divides(n1: int, d1: int, n2: int, d2: int, x: int, y: int)
    requires
        n1 * d2 == n2 * d1,
        n1 * x + d1 * y == 1,
    ensures
        d2 == d1 * (n2 * x + d2 * y),
{
    lemma_mul_is_distributive_add(d2, n1 * x, d1 * y);
    lemma_mul_is_associative(d2, n1, x);
    lemma_mul_is_commutative(d2, n1);
    lemma_mul_is_commutative(n2, d1);
    lemma_mul_is_associative(d1, n2, x);
    lemma_mul_is_associative(d2, d1, y);
    lemma_mul_is_commutative(d2, d1);
    lemma_mul_is_associative(d1, d2, y);
    lemma_mul_is_distributive_add(d1, n2 * x, d2 * y);
    lemma_mul_basics(d2);
}

/// A positive multiple of a positive number is not below it.
proof fn lemma_multiple_is_not_below(d: int, m: int)
    requires
        d > 0,
        d * m > 0,
    ensures
        d <= d * m,
{
    if m <= 0 {
        lemma_mul_inequality(m, 0, d);
        lemma_mul_is_commutative(m, d);
        lemma_mul_basics(d);
    } else {
        lemma_mul_left_inequality(d, 1, m);
        lemma_mul_basics(d);
    }
}

/// A number has one fraction in lowest terms: two fractions in lowest terms
/// that are the same number have the same parts.
pub proof fn lemma_lowest_terms_unique(a: Rational, b: Rational)
    requires
        a.lowest_terms(),
        b.lowest_terms(),
        a.same(b),
    ensures
        a == b,
{
    let (x, y) = lemma_combine_to_one(a.num, a.den);
    lemma_denominator_divides(a.num, a.den, b.num, b.den, x, y);
    lemma_multiple_is_not_below(a.den, b.num * x + b.den * y);
    let (u, v) = lemma_combine_to_one(b.num, b.den);
    lemma_denominator_divides(b.num, b.den, a.num, a.den, u, v);
    lemma_multiple_is_not_below(b.den, a.num * u + a.den * v);
    assert(a.den == b.den);
    lemma_mul_is_commutative(a.num, a.den);
    lemma_mul_is_commutative(b.num, a.den);
    lemma_mul_equality_converse(a.den, a.num, b.num);
}

/// An exposure bias in EV: an exact fraction of 32-bit integers, kept in
/// lowest terms with a positive denominator.
#[derive(Clone, Copy, Debug)]
pub struct ExposureValue {
    numer: i32,
    denom: i32,
}

impl View for ExposureValue {
    type V = Rational;

    closed spec fn view(&self) -> Rational {
        Rational { num: self.numer as int, den: self.denom as int }
    }
}

impl ExposureValue {
    #[verifier::type_invariant]
    closed spec fn inv(self) -> bool {
        self@.lowest_terms()
    }

    /// What holds of every exposure value: it is in lowest terms, so that
    /// one number has one value (`lemma_lowest_terms_unique`), and its parts
    /// are 32-bit integers.
    pub open spec fn wf(self) -> bool {
        self@.lowest_terms() && self@.fits_i32()
    }

    /// The value `numer / denom` in lowest terms, where 32-bit integers can
    /// hold it.
    pub fn new(numer: i32, denom: i32) -> (r: Option<ExposureValue>)
        ensures
            r is Some <==> reduces_in_range(numer as int, denom as int),
            r matches Some(v) ==> v.wf() && v@.same(
                Rational { num: numer as int, den: denom as int },
            ),
    {
        if denom == 0 {
            return None;
        }
        if denom < 0 && numer == i32::MIN && denom % 2 != 0 {
            return None;
        }
        if denom == i32::MIN && numer % 2 != 0 {
            return None;
        }
        let (n, d) = lowest_terms_of(numer, denom);
        Some(ExposureValue { numer: n, denom: d })
    }

    /// The whole number `n`.
    pub fn from_integer(n: i32) -> (r: ExposureValue)
        ensures
            r.wf(),
            r@ == (Rational { num: n as int, den: 1 }),
    {
        proof {
            assert forall|k: int| k > 1 implies !(#[trigger] divides(k, n as int) && divides(
                k,
                1,
            )) by {
                vstd::arithmetic::div_mod::lemma_small_mod(1, k as nat);
            }
        }
        ExposureValue { numer: n, denom: 1 }
    }

    /// The numerator of the value in lowest terms.
    pub fn numer(&self) -> (n: i32)
        ensures
            n == self@.num,
            self.wf(),
    {
        proof {
            use_type_invariant(self);
        }
        self.numer
    }

    /// The denominator of the value in lowest terms; it is positive.
    pub fn denom(&self) -> (d: i32)
        ensures
            d == self@.den,
            d > 0,
            self.wf(),
    {
        proof {
            use_type_invariant(self);
        }
        self.denom
    }

    /// Whether the value is zero.
    pub fn is_zero(&self) -> (b: bool)
        ensures
            b == self@.is_zero(),
    {
        self.numer == 0
    }

    /// Whether `self - base` is the number `delta`, in exact arithmetic.
    pub fn differs_by(&self, base: &ExposureValue, delta: &ExposureValue) -> (b: bool)
        ensures
            b == self@.minus(base@).same(delta@),
    {
        let an: i128 = self.numer as i128;
        let ad: i128 = self.denom as i128;
        let bn: i128 = base.numer as i128;
        let bd: i128 = base.denom as i128;
        let tn: i128 = delta.numer as i128;
        let td: i128 = delta.denom as i128;
        proof {
            lemma_product_bound(an as int, bd as int, 0x8000_0000, 0x8000_0000);
            lemma_product_bound(bn as int, ad as int, 0x8000_0000, 0x8000_0000);
            lemma_product_bound(ad as int, bd as int, 0x8000_0000, 0x8000_0000);
        }
        let difference: i128 = an * bd - bn * ad;
        let denominator: i128 = ad * bd;
        proof {
            lemma_product_bound(
                difference as int,
                td as int,
                0x8000_0000_0000_0000,
                0x8000_0000,
            );
            lemma_product_bound(
                tn as int,
                denominator as int,
                0x8000_0000,
                0x4000_0000_0000_0000,
            );
        }
        difference * td == tn * denominator
    }
}

impl PartialEq for ExposureValue {
    /// Equality as numbers.
    fn eq(&self, other: &ExposureValue) -> (r: bool) {
        let an: i64 = self.numer as i64;
        let ad: i64 = self.denom as i64;
        let bn: i64 = other.numer as i64;
        let bd: i64 = other.denom as i64;
        proof {
            lemma_product_bound(an as int, bd as int, 0x8000_0000, 0x8000_0000);
            lemma_product_bound(bn as int, ad as int, 0x8000_0000, 0x8000_0000);
        }
        an * bd == bn * ad
    }
}

impl vstd::std_specs::cmp::PartialEqSpecImpl for ExposureValue {
    open spec fn obeys_eq_spec() -> bool {
        true
    }

    open spec fn eq_spec(&self, other: &ExposureValue) -> bool {
        self@.same(other@)
    }
}

} // verus!
