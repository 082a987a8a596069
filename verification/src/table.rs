//! The evaluation-point table: each index is assigned the generator raised to
//! the bit-reversed index, the permuted order the recursive transform expects.

use vstd::prelude::*;

verus! {

use num_bigint::BigUint;
use vstd::arithmetic::power::lemma_pow0;
use vstd::arithmetic::power2::{
    pow2, lemma_pow2_unfold, lemma_pow2_strictly_increases, lemma2_to64, lemma2_to64_rest,
};
use vstd::arithmetic::div_mod::{lemma_small_mod, lemma_mod_bound};
use crate::bigint::{nat_of, vals, big_from_u64, big_modpow};
use crate::field::pow_mod;

/// The low `k` bits of `x` in reverse order: bit 0 moves up to bit `k - 1`,
/// and so on down.
pub open spec fn bitrev(x: nat, k: nat) -> nat
    decreases k,
{
    if k == 0 {
        0
    } else {
        (x % 2) * pow2((k - 1) as nat) + bitrev(x / 2, (k - 1) as nat)
    }
}

/// `n` is a power of two.
pub open spec fn is_pow2(n: nat) -> bool
    decreases n,
{
    if n == 0 {
        false
    } else if n == 1 {
        true
    } else {
        n % 2 == 0 && is_pow2(n / 2)
    }
}

/// The base-two logarithm of a power of two: the number of halvings to one.
pub open spec fn log2(n: nat) -> nat
    decreases n,
{
    if n <= 1 {
        0
    } else {
        1 + log2(n / 2)
    }
}

/// The table for a transform of length `n` with `k` index bits: entry `i` is
/// `g^bitrev_k(i) mod p`.
pub open spec fn table_spec(n: nat, k: nat, g: int, p: int) -> Seq<int> {
    Seq::new(n, |i: int| pow_mod(g, bitrev(i as nat, k), p))
}

/// Index zero reverses to zero at any width.
pub proof fn lemma_bitrev_zero(k: nat)
    ensures
        bitrev(0, k) == 0,
    decreases k,
{
    if k > 0 {
        lemma_bitrev_zero((k - 1) as nat);
        assert(bitrev(0, k) == (0nat % 2) * pow2((k - 1) as nat) + bitrev(0nat / 2, (k - 1) as nat));
        assert((0nat % 2) * pow2((k - 1) as nat) == 0) by (nonlinear_arith);
    }
}

/// `pow2` is monotone.
proof fn lemma_pow2_le(e1: nat, e2: nat)
    requires
        e1 <= e2,
    ensures
        pow2(e1) <= pow2(e2),
{
    if e1 < e2 {
        lemma_pow2_strictly_increases(e1, e2);
    }
}

/// Reverses the low `k` bits of `x`.
pub fn bit_reverse(x: u64, k: usize) -> (r: u64)
    requires
        k <= 63,
    ensures
        r as nat == bitrev(x as nat, k as nat),
{
    let mut r: u64 = 0;
    let mut cur: u64 = x;
    let mut j: usize = 0;
    proof {
        lemma2_to64();
    }
    while j < k
        invariant
            j <= k <= 63,
            (r as nat) < pow2(j as nat),
            bitrev(x as nat, k as nat) == (r as nat) * pow2((k - j) as nat) + bitrev(
                cur as nat,
                (k - j) as nat,
            ),
        decreases k - j,
    {
        let ghost m: nat = (k - j) as nat;
        let ghost rv: int = r as int;
        let ghost cv: nat = cur as nat;
        proof {
            lemma2_to64();
            lemma2_to64_rest();
            lemma_pow2_unfold(m);
            lemma_pow2_unfold((j + 1) as nat);
            lemma_pow2_le((j + 1) as nat, 63);
            // the reversed prefix grows by the next bit of `cur`
            assert(rv * pow2(m) + bitrev(cv, m) == (2 * rv + cv % 2) * pow2((m - 1) as nat)
                + bitrev(cv / 2, (m - 1) as nat)) by (nonlinear_arith)
                requires
                    pow2(m) == 2 * pow2((m - 1) as nat),
                    bitrev(cv, m) == (cv % 2) * pow2((m - 1) as nat) + bitrev(
                        cv / 2,
                        (m - 1) as nat,
                    ),
            ;
        }
        let bit = cur % 2;
        r = r * 2 + bit;
        cur = cur / 2;
        j = j + 1;
    }
    proof {
        lemma2_to64();
        assert(j == k);
        assert(bitrev(cur as nat, 0) == 0);
        assert(pow2(0) == 1);
        assert(bitrev(x as nat, k as nat) == (r as nat) * pow2(0) + bitrev(cur as nat, 0));
        assert((r as nat) * pow2(0) == r as nat) by (nonlinear_arith)
            requires
                pow2(0) == 1,
        ;
    }
    r
}

/// Builds the evaluation-point table of a transform of length `n`: entry `i`
/// is `g^bitrev_k(i) mod p`, where `k = log2(n)`.
pub fn evaluation_point_table(n: usize, g: &BigUint, p: &BigUint) -> (t: Vec<BigUint>)
    requires
        is_pow2(n as nat),
        nat_of(*p) > 0,
    ensures
        t@.len() == n,
        vals(t@) == table_spec(n as nat, log2(n as nat), nat_of(*g) as int, nat_of(*p) as int),
        forall|i: int| 0 <= i < n ==> nat_of(t@[i]) < nat_of(*p),
{
    let mut k: usize = 0;
    let mut m: usize = n;
    proof {
        lemma2_to64();
    }
    while m > 1
        invariant
            is_pow2(m as nat),
            m >= 1,
            k <= 64,
            log2(n as nat) == k as nat + log2(m as nat),
            pow2(k as nat) * (m as nat) == n as nat,
            n <= usize::MAX,
        decreases m,
    {
        proof {
            lemma_pow2_unfold((k + 1) as nat);
            assert(pow2((k + 1) as nat) * ((m as nat) / 2) == pow2(k as nat) * (m as nat))
                by (nonlinear_arith)
                requires
                    pow2((k + 1) as nat) == 2 * pow2(k as nat),
                    m as nat % 2 == 0,
                    m >= 1,
            ;
            // k + 1 stays within range: pow2(k + 1) divides n
            lemma2_to64();
            lemma2_to64_rest();
            if k + 1 > 64 {
                lemma_pow2_le(65, (k + 1) as nat);
                lemma_pow2_unfold(65);
                assert(pow2((k + 1) as nat) * ((m as nat) / 2) >= pow2(65)) by (nonlinear_arith)
                    requires
                        pow2((k + 1) as nat) >= pow2(65),
                        (m as nat) / 2 >= 1,
                ;
            }
        }
        m = m / 2;
        k = k + 1;
    }
    proof {
        lemma2_to64();
        lemma2_to64_rest();
        assert(pow2(k as nat) == n as nat);
        if k > 63 {
            lemma_pow2_le(64, k as nat);
        }
    }
    let mut t: Vec<BigUint> = Vec::new();
    let mut i: usize = 0;
    while i < n
        invariant
            i <= n,
            t@.len() == i,
            k <= 63,
            k as nat == log2(n as nat),
            nat_of(*p) > 0,
            forall|j: int|
                0 <= j < i ==> nat_of(t@[j]) as int == pow_mod(
                    nat_of(*g) as int,
                    bitrev(j as nat, k as nat),
                    nat_of(*p) as int,
                ) && nat_of(t@[j]) < nat_of(*p),
        decreases n - i,
    {
        let rb = bit_reverse(i as u64, k);
        let e = big_from_u64(rb);
        let entry = big_modpow(g, &e, p);
        proof {
            lemma_mod_bound(
                vstd::arithmetic::power::pow(nat_of(*g) as int, bitrev(i as nat, k as nat)),
                nat_of(*p) as int,
            );
        }
        t.push(entry);
        i = i + 1;
    }
    proof {
        assert(vals(t@) =~= table_spec(
            n as nat,
            log2(n as nat),
            nat_of(*g) as int,
            nat_of(*p) as int,
        ));
    }
    t
}

/// Law: the first entry of every table is 1, since index 0 bit-reverses to 0
/// and `g^0 mod p == 1`.
pub proof fn lemma_table_first_entry(n: nat, k: nat, g: int, p: int)
    requires
        n >= 1,
        p >= 2,
    ensures
        table_spec(n, k, g, p)[0] == 1,
{
    lemma_bitrev_zero(k);
    lemma_pow0(g);
    lemma_small_mod(1nat, p as nat);
}

} // verus!
