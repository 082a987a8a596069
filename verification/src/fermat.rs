//! Fermat's little theorem, proved from first principles, and the law that
//! division by the Fermat inverse really does invert multiplication: the
//! ground the `div_mod` construction stands on.
//!
//! The proof is the product argument: multiplication by a unit permutes the
//! nonzero residues, so the product of the scaled residues equals the
//! factorial both exactly (through the permutation) and as `b^(p-1)` times
//! the factorial (through the scaling), and the factorial cancels.

use vstd::prelude::*;

verus! {

use vstd::arithmetic::power::{pow, lemma_pow0, lemma_pow1, lemma_pow_adds, lemma_pow_mod_noop};
use vstd::arithmetic::div_mod::{
    lemma_small_mod, lemma_mod_bound, lemma_fundamental_div_mod, lemma_mul_mod_noop_general,
};
use crate::field::fe_div;

/// `p` is prime: at least two, with no divisor strictly between one and
/// itself.
pub open spec fn is_prime(p: int) -> bool {
    p >= 2 && forall|d: int| 2 <= d < p ==> #[trigger] (p % d) != 0
}

/// The product `h(1) * h(2) * ... * h(n)`.
spec fn prod_range(n: nat, h: spec_fn(int) -> int) -> int
    decreases n,
{
    if n == 0 {
        1
    } else {
        prod_range((n - 1) as nat, h) * h(n as int)
    }
}

/// The factorial `1 * 2 * ... * n`.
spec fn fact(n: nat) -> int
    decreases n,
{
    if n == 0 {
        1
    } else {
        fact((n - 1) as nat) * n
    }
}

/// Products of pointwise-equal maps are equal.
proof fn lemma_prod_congruent(n: nat, h1: spec_fn(int) -> int, h2: spec_fn(int) -> int)
    requires
        forall|i: int| 1 <= i <= n ==> #[trigger] h1(i) == h2(i),
    ensures
        prod_range(n, h1) == prod_range(n, h2),
    decreases n,
{
    if n > 0 {
        lemma_prod_congruent((n - 1) as nat, h1, h2);
    }
}

/// Two maps that agree everywhere on the range but at one position satisfy
/// the cross identity `prod(h1) * h2(t) == prod(h2) * h1(t)`.
proof fn lemma_prod_single_swap(n: nat, t: int, h1: spec_fn(int) -> int, h2: spec_fn(int) -> int)
    requires
        1 <= t <= n,
        forall|i: int| 1 <= i <= n && i != t ==> #[trigger] h1(i) == h2(i),
    ensures
        prod_range(n, h1) * h2(t) == prod_range(n, h2) * h1(t),
    decreases n,
{
    let pn1 = prod_range((n - 1) as nat, h1);
    let pn2 = prod_range((n - 1) as nat, h2);
    if t == n {
        lemma_prod_congruent((n - 1) as nat, h1, h2);
        assert((pn1 * h1(n as int)) * h2(t) == (pn1 * h2(n as int)) * h1(t)) by (nonlinear_arith)
            requires
                t == n,
        ;
    } else {
        lemma_prod_single_swap((n - 1) as nat, t, h1, h2);
        assert((pn1 * h1(n as int)) * h2(t) == (pn2 * h2(n as int)) * h1(t)) by (nonlinear_arith)
            requires
                pn1 * h2(t) == pn2 * h1(t),
                h1(n as int) == h2(n as int),
        ;
    }
}

/// The product of a self-inverse pair of maps over the whole range is the
/// factorial: a bijection of `1..=m` only reorders the factors.
proof fn lemma_prod_bijection(m: nat, f: spec_fn(int) -> int, g: spec_fn(int) -> int)
    requires
        forall|i: int| 1 <= i <= m ==> 1 <= #[trigger] f(i) <= m,
        forall|j: int| 1 <= j <= m ==> 1 <= #[trigger] g(j) <= m,
        forall|i: int| 1 <= i <= m ==> g(#[trigger] f(i)) == i,
        forall|j: int| 1 <= j <= m ==> f(#[trigger] g(j)) == j,
    ensures
        prod_range(m, f) == fact(m),
    decreases m,
{
    if m > 0 {
        let mi = m as int;
        let t = g(mi);
        if t == mi {
            assert(f(mi) == mi);
            assert forall|i: int| 1 <= i <= m - 1 implies 1 <= #[trigger] f(i) <= m - 1 by {
                if f(i) == mi {
                    assert(g(f(i)) == i);
                }
            }
            assert forall|j: int| 1 <= j <= m - 1 implies 1 <= #[trigger] g(j) <= m - 1 by {
                if g(j) == mi {
                    assert(f(g(j)) == j);
                }
            }
            lemma_prod_bijection((m - 1) as nat, f, g);
        } else {
            let fm = f(mi);
            assert(f(t) == mi);
            assert(1 <= t <= m - 1);
            // the image of m is not m itself, since t already maps there
            assert(fm != mi) by {
                if fm == mi {
                    assert(g(f(mi)) == mi);
                }
            }
            assert(1 <= fm <= m - 1);
            let f2 = |i: int| if i == t { fm } else { f(i) };
            let g2 = |j: int| if j == fm { t } else { g(j) };
            assert forall|i: int| 1 <= i <= m - 1 implies 1 <= #[trigger] f2(i) <= m - 1 by {
                if i != t {
                    if f(i) == mi {
                        assert(g(f(i)) == i);
                    }
                    if f(i) == fm {
                        assert(g(f(i)) == i);
                        assert(g(f(mi)) == mi);
                    }
                }
            }
            assert forall|j: int| 1 <= j <= m - 1 implies 1 <= #[trigger] g2(j) <= m - 1 by {
                if j != fm {
                    if g(j) == mi {
                        assert(f(g(j)) == j);
                    }
                    if g(j) == t {
                        assert(f(g(j)) == j);
                    }
                }
            }
            assert forall|i: int| 1 <= i <= m - 1 implies g2(#[trigger] f2(i)) == i by {
                if i == t {
                    assert(f2(t) == fm && g2(fm) == t);
                } else {
                    assert(f(i) != fm) by {
                        if f(i) == fm {
                            assert(g(f(i)) == i);
                            assert(g(f(mi)) == mi);
                        }
                    }
                }
            }
            assert forall|j: int| 1 <= j <= m - 1 implies f2(#[trigger] g2(j)) == j by {
                if j == fm {
                    assert(g2(fm) == t && f2(t) == fm);
                } else {
                    assert(g(j) != t) by {
                        if g(j) == t {
                            assert(f(g(j)) == j);
                        }
                    }
                    assert(f2(g(j)) == f(g(j)));
                }
            }
            lemma_prod_bijection((m - 1) as nat, f2, g2);
            lemma_prod_single_swap((m - 1) as nat, t, f, f2);
            // prod(m-1, f) * f2(t) == prod(m-1, f2) * f(t), with f2(t) = f(m)
            // and f(t) = m, so prod(m, f) == fact(m - 1) * m
            let pf = prod_range((m - 1) as nat, f);
            assert(pf * fm == fact((m - 1) as nat) * mi);
            assert(pf * f(mi) == fact((m - 1) as nat) * mi);
        }
    }
}


/// The product of the scaled residues `(b*1)%p, ..., (b*n)%p` is, modulo
/// `p`, the power `b^n` times the factorial.
proof fn lemma_prod_scaled(n: nat, b: int, p: int, f: spec_fn(int) -> int)
    requires
        p >= 1,
        forall|i: int| 1 <= i <= n ==> #[trigger] f(i) == (b * i) % p,
    ensures
        prod_range(n, f) % p == (pow(b, n) * fact(n)) % p,
    decreases n,
{
    if n == 0 {
        lemma_pow0(b);
    } else {
        lemma_prod_scaled((n - 1) as nat, b, p, f);
        let ni = n as int;
        let pf = prod_range((n - 1) as nat, f);
        let pw = pow(b, (n - 1) as nat);
        let fc = fact((n - 1) as nat);
        assert(pow(b, n) == pw * b) by {
            lemma_pow1(b);
            lemma_pow_adds(b, (n - 1) as nat, 1);
        }
        // (pf * ((b n) % p)) % p == (pf * (b n)) % p == ((pf % p) * (b n)) % p
        lemma_mul_mod_noop_general(pf, b * ni, p);
        assert(prod_range(n, f) % p == ((pf % p) * (b * ni)) % p);
        lemma_mul_mod_noop_general(pw * fc, b * ni, p);
        assert(((pw * fc) % p * (b * ni)) % p == ((pw * fc) * (b * ni)) % p);
        assert((pw * fc) * (b * ni) == pow(b, n) * fact(n)) by (nonlinear_arith)
            requires
                pow(b, n) == pw * b,
                fact(n) == fc * ni,
        ;
    }
}

/// Every residue prime to `p` has a multiplicative inverse: by descent on
/// `b`, using that a prime has no small divisor.
proof fn lemma_inverse_exists(b: int, p: int)
    requires
        is_prime(p),
        1 <= b < p,
    ensures
        exists|u: int| 1 <= u < p && #[trigger] ((b * u) % p) == 1,
    decreases b,
{
    if b == 1 {
        lemma_small_mod(1nat, p as nat);
        assert((1int * 1) % p == 1);
    } else {
        let r = p % b;
        let q = p / b;
        lemma_mod_bound(p, b);
        assert(r != 0);  // b would otherwise divide the prime
        lemma_inverse_exists(r, p);
        let y = choose|y: int| 1 <= y < p && #[trigger] ((r * y) % p) == 1;
        lemma_fundamental_div_mod(p, b);
        assert(r == p - q * b);
        let u = (-(q * y)) % p;
        lemma_mod_bound(-(q * y), p);
        // b * u == b * (-(q y)) (mod p), and b * (-(q y)) == r y - p y
        lemma_mul_mod_noop_general(b, -(q * y), p);
        assert((b * u) % p == (b * -(q * y)) % p);
        assert(b * -(q * y) == r * y - p * y) by (nonlinear_arith)
            requires
                r == p - q * b,
        ;
        assert((r * y - p * y) % p == (r * y) % p) by {
            assert(r * y - p * y == p * (-y) + r * y) by (nonlinear_arith);
            vstd::arithmetic::div_mod::lemma_mod_multiples_vanish(-y, r * y, p);
        }
        assert((b * u) % p == 1);
        assert(u != 0) by {
            if u == 0 {
                assert((b * 0) % p == 0int % p);
                lemma_small_mod(0nat, p as nat);
            }
        }
    }
}

/// The factorial of anything below `p` is also prime to `p`, with an
/// inverse built factor by factor.
proof fn lemma_fact_inverse_exists(n: nat, p: int)
    requires
        is_prime(p),
        n < p,
    ensures
        exists|v: int| 1 <= v < p && #[trigger] ((fact(n) * v) % p) == 1,
    decreases n,
{
    if n == 0 {
        lemma_small_mod(1nat, p as nat);
        assert((fact(0) * 1) % p == 1);
    } else {
        lemma_fact_inverse_exists((n - 1) as nat, p);
        let w = choose|w: int| 1 <= w < p && #[trigger] ((fact((n - 1) as nat) * w) % p) == 1;
        lemma_inverse_exists(n as int, p);
        let u = choose|u: int| 1 <= u < p && #[trigger] ((n as int * u) % p) == 1;
        let fc = fact((n - 1) as nat);
        let ni = n as int;
        let v = (w * u) % p;
        lemma_mod_bound(w * u, p);
        lemma_mul_mod_noop_general(fact(n), w * u, p);
        assert((fact(n) * v) % p == (fact(n) * (w * u)) % p);
        assert(fact(n) * (w * u) == (fc * w) * (ni * u)) by (nonlinear_arith)
            requires
                fact(n) == fc * ni,
        ;
        lemma_mul_mod_noop_general(fc * w, ni * u, p);
        assert(((fc * w) * (ni * u)) % p == (((fc * w) % p) * ((ni * u) % p)) % p);
        lemma_small_mod(1nat, p as nat);
        assert((fact(n) * v) % p == 1);
        assert(v != 0) by {
            if v == 0 {
                assert((fact(n) * 0) % p == 0int % p);
                lemma_small_mod(0nat, p as nat);
            }
        }
    }
}


/// Fermat's little theorem: modulo a prime `p`, every residue `b` prime to
/// `p` satisfies `b^(p-1) == 1`.
pub proof fn lemma_fermat_little(b: int, p: int)
    requires
        is_prime(p),
        1 <= b < p,
    ensures
        pow(b, (p - 1) as nat) % p == 1,
{
    let m = (p - 1) as nat;
    lemma_inverse_exists(b, p);
    let u = choose|u: int| 1 <= u < p && #[trigger] ((b * u) % p) == 1;
    let f = |i: int| (b * i) % p;
    let g = |j: int| (u * j) % p;
    assert((b * u) % p == 1);
    assert forall|i: int| 1 <= i <= m implies (u * (#[trigger] ((b * i) % p))) % p == i by {
        lemma_mul_mod_noop_general(u, b * i, p);
        assert((u * ((b * i) % p)) % p == (u * (b * i)) % p);
        assert(u * (b * i) == (b * u) * i) by (nonlinear_arith);
        lemma_mul_mod_noop_general(b * u, i, p);
        assert(((b * u) * i) % p == (((b * u) % p) * i) % p);
        assert((((b * u) % p) * i) % p == (1int * i) % p);
        lemma_small_mod(i as nat, p as nat);
        assert((1int * i) % p == i);
    }
    assert forall|j: int| 1 <= j <= m implies (b * (#[trigger] ((u * j) % p))) % p == j by {
        lemma_mul_mod_noop_general(b, u * j, p);
        assert(b * (u * j) == (b * u) * j) by (nonlinear_arith);
        lemma_mul_mod_noop_general(b * u, j, p);
        lemma_small_mod(j as nat, p as nat);
    }
    assert forall|i: int| 1 <= i <= m implies 1 <= #[trigger] f(i) <= m by {
        lemma_mod_bound(b * i, p);
        if f(i) == 0 {
            assert((u * ((b * i) % p)) % p == i);
            assert((u * 0) % p == 0int % p);
            lemma_small_mod(0nat, p as nat);
        }
    }
    assert forall|j: int| 1 <= j <= m implies 1 <= #[trigger] g(j) <= m by {
        lemma_mod_bound(u * j, p);
        if g(j) == 0 {
            assert((b * ((u * j) % p)) % p == j);
            assert((b * 0) % p == 0int % p);
            lemma_small_mod(0nat, p as nat);
        }
    }
    assert forall|i: int| 1 <= i <= m implies g(#[trigger] f(i)) == i by {
        assert((u * ((b * i) % p)) % p == i);
    }
    assert forall|j: int| 1 <= j <= m implies f(#[trigger] g(j)) == j by {
        assert((b * ((u * j) % p)) % p == j);
    }
    lemma_prod_bijection(m, f, g);
    lemma_prod_scaled(m, b, p, f);
    let x = pow(b, m);
    let fm = fact(m);
    assert((x * fm) % p == fm % p);
    lemma_fact_inverse_exists(m, p);
    let v = choose|v: int| 1 <= v < p && #[trigger] ((fact(m) * v) % p) == 1;
    assert((fm * v) % p == 1);
    // multiply both sides of the product identity by the factorial's inverse
    lemma_mul_mod_noop_general(x * fm, v, p);
    lemma_mul_mod_noop_general(fm, v, p);
    assert(((x * fm) % p * v) % p == (x * fm * v) % p);
    assert((fm % p * v) % p == (fm * v) % p);
    assert(x * fm * v == x * (fm * v)) by (nonlinear_arith);
    lemma_mul_mod_noop_general(x, fm * v, p);
    assert((x * (fm * v)) % p == (x * ((fm * v) % p)) % p);
    assert(x % p == 1);
}

/// Law: dividing by the Fermat inverse inverts multiplication: for a prime
/// modulus and a divisor that is no multiple of it, the quotient times the
/// divisor gives back the dividend, modulo `p`.
pub proof fn lemma_div_mod_inverse(a: int, b: int, p: int)
    requires
        is_prime(p),
        0 <= a,
        0 <= b,
        b % p != 0,
    ensures
        (fe_div(a, b, p) * b) % p == a % p,
{
    let e = (p - 2) as nat;
    let w = pow(b, e) % p;
    // fe_div(a, b, p) == (a * w) % p
    lemma_mul_mod_noop_general(a * w, b, p);
    assert((fe_div(a, b, p) * b) % p == ((a * w) * b) % p);
    assert((a * w) * b == a * (w * b)) by (nonlinear_arith);
    lemma_mul_mod_noop_general(a, w * b, p);
    // w * b collapses to b^(p-1) modulo p
    lemma_mul_mod_noop_general(pow(b, e), b, p);
    assert((w * b) % p == (pow(b, e) * b) % p);
    assert(pow(b, e) * b == pow(b, (p - 1) as nat)) by {
        lemma_pow1(b);
        lemma_pow_adds(b, e, 1);
    }
    // reduce the base into the field and apply the little theorem
    let b0 = b % p;
    lemma_mod_bound(b, p);
    lemma_pow_mod_noop(b, (p - 1) as nat, p);
    lemma_fermat_little(b0, p);
    assert(pow(b, (p - 1) as nat) % p == 1);
    assert((fe_div(a, b, p) * b) % p == (a * 1) % p) by {
        lemma_mul_mod_noop_general(a, pow(b, (p - 1) as nat), p);
    }
}


/// Law: the quotient is unique: two field elements with the same product
/// against an invertible `b` are equal, so `div_mod` returns the one and
/// only solution of `x * b == a (mod p)`.
pub proof fn lemma_quotient_unique(x: int, y: int, b: int, p: int)
    requires
        is_prime(p),
        0 <= x < p,
        0 <= y < p,
        0 <= b,
        b % p != 0,
        (x * b) % p == (y * b) % p,
    ensures
        x == y,
{
    let b0 = b % p;
    lemma_mod_bound(b, p);
    lemma_inverse_exists(b0, p);
    let u = choose|u: int| 1 <= u < p && #[trigger] ((b0 * u) % p) == 1;
    assert forall|z: int| 0 <= z < p implies #[trigger] ((z * b * u) % p) == z by {
        assert(z * b * u == z * (b * u)) by (nonlinear_arith);
        lemma_mul_mod_noop_general(z, b * u, p);
        assert((z * (b * u)) % p == (z * ((b * u) % p)) % p);
        lemma_mul_mod_noop_general(b, u, p);
        assert((b * u) % p == (b0 * u) % p);
        assert((b0 * u) % p == 1);
        assert((z * (b * u)) % p == (z * 1) % p);
        lemma_small_mod(z as nat, p as nat);
        assert((z * 1) % p == z);
    }
    lemma_mul_mod_noop_general(x * b, u, p);
    lemma_mul_mod_noop_general(y * b, u, p);
    assert((x * b * u) % p == (y * b * u) % p);
}

} // verus!
