//! Common divisors of share values.

use vstd::prelude::*;

verus! {

/// Whether `n` is a multiple of `d`. Zero divides only zero.
pub open spec fn divides(d: nat, n: nat) -> bool {
    if d == 0 {
        n == 0
    } else {
        n % d == 0
    }
}

/// Whether `d` is a positive number that divides both `a` and `b`.
pub open spec fn is_common_divisor(d: nat, a: nat, b: nat) -> bool {
    d > 0 && a % d == 0 && b % d == 0
}

/// Whether `g` is the greatest of the common divisors of `a` and `b`.
/// Where both are zero every number divides them, and `g` is zero.
pub open spec fn is_greatest_common_divisor(g: nat, a: nat, b: nat) -> bool {
    if a == 0 && b == 0 {
        g == 0
    } else {
        &&& is_common_divisor(g, a, b)
        &&& forall|d: nat| #[trigger] is_common_divisor(d, a, b) ==> d <= g
    }
}

/// The greatest common divisor of `a` and `b`; that of zero and zero is zero.
pub open spec fn gcd(a: nat, b: nat) -> nat
    decreases b,
{
    if b == 0 {
        a
    } else {
        gcd(b, a % b)
    }
}

/// A multiple of `d` is `d` times its quotient by `d`.
pub proof fn lemma_multiple_is_product(d: nat, n: nat)
    requires
        divides(d, n),
    ensures
        n == d * (n / d),
{
    if d > 0 {
        assert(n == d * (n / d) + n % d) by (nonlinear_arith)
            requires
                d > 0,
        ;
    } else {
        assert(d * (n / d) == 0) by (nonlinear_arith)
            requires
                d == 0,
        ;
    }
}

/// Every product with `d` is a multiple of `d`.
pub proof fn lemma_product_is_multiple(d: nat, k: nat)
    ensures
        divides(d, d * k),
{
    if d > 0 {
        assert((d * k) % d == 0) by (nonlinear_arith)
            requires
                d > 0,
        ;
    } else {
        assert(d * k == 0) by (nonlinear_arith)
            requires
                d == 0,
        ;
    }
}

/// Sums of multiples of `d` are multiples of `d`.
pub proof fn lemma_divides_sum(d: nat, a: nat, b: nat)
    requires
        divides(d, a),
        divides(d, b),
    ensures
        divides(d, a + b),
{
    lemma_multiple_is_product(d, a);
    lemma_multiple_is_product(d, b);
    let ka = a / d;
    let kb = b / d;
    assert(a + b == d * (ka + kb)) by (nonlinear_arith)
        requires
            a == d * ka,
            b == d * kb,
    ;
    lemma_product_is_multiple(d, ka + kb);
}

/// The difference of two multiples of `d` is a multiple of `d`.
pub proof fn lemma_divides_difference(d: nat, a: nat, b: nat)
    requires
        divides(d, a),
        divides(d, b),
        b <= a,
    ensures
        divides(d, (a - b) as nat),
{
    lemma_multiple_is_product(d, a);
    lemma_multiple_is_product(d, b);
    let ka = a / d;
    let kb = b / d;
    if d > 0 {
        assert(kb <= ka) by (nonlinear_arith)
            requires
                d > 0,
                b <= a,
                a == d * ka,
                b == d * kb,
        ;
        let k = (ka - kb) as nat;
        assert(a - b == d * k) by (nonlinear_arith)
            requires
                a == d * ka,
                b == d * kb,
                k == ka - kb,
        ;
        lemma_product_is_multiple(d, k);
    }
}

/// Multiples of a multiple of `d` are multiples of `d`.
pub proof fn lemma_divides_product(d: nat, n: nat, k: nat)
    requires
        divides(d, n),
    ensures
        divides(d, n * k),
{
    lemma_multiple_is_product(d, n);
    let q = n / d;
    assert(n * k == d * (q * k)) by (nonlinear_arith)
        requires
            n == d * q,
    ;
    lemma_product_is_multiple(d, q * k);
}

/// Divisibility is transitive.
pub proof fn lemma_divides_transitive(d: nat, m: nat, n: nat)
    requires
        divides(d, m),
        divides(m, n),
    ensures
        divides(d, n),
{
    lemma_multiple_is_product(m, n);
    lemma_divides_product(d, m, n / m);
}

/// A positive multiple of `d` is at least `d`.
pub proof fn lemma_divisor_is_at_most(d: nat, n: nat)
    requires
        divides(d, n),
        n > 0,
    ensures
        0 < d <= n,
{
    lemma_multiple_is_product(d, n);
    let q = n / d;
    assert(0 < d <= n) by (nonlinear_arith)
        requires
            n == d * q,
            n > 0,
    ;
}

/// `gcd(a, b)` divides both `a` and `b`.
pub proof fn lemma_gcd_divides_both(a: nat, b: nat)
    ensures
        divides(gcd(a, b), a),
        divides(gcd(a, b), b),
    decreases b,
{
    if b == 0 {
        lemma_product_is_multiple(a, 1);
        assert(a * 1 == a) by (nonlinear_arith);
    } else {
        let g = gcd(a, b);
        let r = a % b;
        lemma_gcd_divides_both(b, r);
        lemma_divides_product(g, b, a / b);
        lemma_divides_sum(g, b * (a / b), r);
        assert(a == b * (a / b) + a % b) by (nonlinear_arith)
            requires
                b > 0,
        ;
    }
}

/// Whatever divides both `a` and `b` divides `gcd(a, b)`.
pub proof fn lemma_gcd_is_multiple_of_common_divisors(d: nat, a: nat, b: nat)
    requires
        divides(d, a),
        divides(d, b),
    ensures
        divides(d, gcd(a, b)),
    decreases b,
{
    if b != 0 {
        let q = a / b;
        let r = a % b;
        assert(a == b * q + r) by (nonlinear_arith)
            requires
                b > 0,
                q == a / b,
                r == a % b,
        ;
        lemma_divides_product(d, b, q);
        lemma_divides_difference(d, a, b * q);
        lemma_gcd_is_multiple_of_common_divisors(d, b, r);
    }
}

/// `gcd(a, b)` is zero only where both `a` and `b` are.
pub proof fn lemma_gcd_zero(a: nat, b: nat)
    ensures
        gcd(a, b) == 0 <==> a == 0 && b == 0,
    decreases b,
{
    if b != 0 {
        lemma_gcd_zero(b, a % b);
    }
}

/// `gcd(a, b)` is the greatest common divisor of `a` and `b`.
pub proof fn lemma_gcd_is_greatest(a: nat, b: nat)
    ensures
        is_greatest_common_divisor(gcd(a, b), a, b),
{
    let g = gcd(a, b);
    lemma_gcd_zero(a, b);
    lemma_gcd_divides_both(a, b);
    if a != 0 || b != 0 {
        assert forall|d: nat| #[trigger] is_common_divisor(d, a, b) implies d <= g by {
            lemma_gcd_is_multiple_of_common_divisors(d, a, b);
            lemma_divisor_is_at_most(d, g);
        }
    }
}

/// Two numbers have one greatest common divisor, and it is `gcd(a, b)`.
pub proof fn lemma_greatest_common_divisor_is_gcd(g: nat, a: nat, b: nat)
    requires
        is_greatest_common_divisor(g, a, b),
    ensures
        g == gcd(a, b),
{
    lemma_gcd_is_greatest(a, b);
    if a != 0 || b != 0 {
        assert(is_common_divisor(g, a, b));
        assert(is_common_divisor(gcd(a, b), a, b));
    }
}

/// The greatest common divisor of two share values, computed by
/// `num_integer::gcd`. That function returns the largest number that divides
/// both arguments, and zero where both are zero; it does not fail.
#[verifier::external_body]
fn greatest_common_divisor(a: u16, b: u16) -> (g: u16)
    ensures
        is_greatest_common_divisor(g as nat, a as nat, b as nat),
{
    num_integer::gcd(a, b)
}

/// The greatest common divisor of two share values.
pub(crate) fn gcd_of(a: u16, b: u16) -> (g: u16)
    ensures
        g == gcd(a as nat, b as nat),
{
    let g = greatest_common_divisor(a, b);
    proof {
        lemma_greatest_common_divisor_is_gcd(g as nat, a as nat, b as nat);
    }
    g
}

} // verus!
