//! The recursive inverse transform: splits the evaluation vector into
//! butterfly pairs, recurses on the two half-size problems over the squared
//! points, and interleaves the results.
//!
//! The divisors of one level's odd butterflies are shared by both recursive
//! branches, so their Fermat inverses are computed once per level and handed
//! down, not recomputed in every branch; the results are identical.

use vstd::prelude::*;

verus! {

use num_bigint::BigUint;
use crate::bigint::{nat_of, vals, big_from_u64, big_add, big_mul, big_rem, big_sub, big_modpow,
    big_clone};
use crate::field::{fe_div, fe_diff, pow_mod, mod_sub};
use crate::table::is_pow2;

/// One butterfly's even output: `(a + b) / 2` in the field.
pub open spec fn butterfly_even(a: int, b: int, p: int) -> int {
    fe_div(a + b, 2, p)
}

/// One butterfly's odd output: `(a - b) / (2 x)` in the field.
pub open spec fn butterfly_odd(a: int, b: int, x: int, p: int) -> int {
    fe_div(fe_diff(a, b, p), 2 * x, p)
}

/// The next level's point table: each kept point squared modulo `p`.
pub open spec fn squared_points(xs: Seq<int>, n: nat, p: int) -> Seq<int> {
    Seq::new(n, |i: int| pow_mod(xs[2 * i], 2, p))
}

/// The value of the recursive inverse transform: a single element is its own
/// coefficient form; otherwise the interleaving of the transforms of the even
/// and odd butterfly halves over the squared points.
pub open spec fn ifft_spec(arr: Seq<int>, xs: Seq<int>, p: int) -> Seq<int>
    decreases arr.len(),
{
    if arr.len() <= 1 {
        arr
    } else {
        let n = arr.len() / 2;
        let nxs = squared_points(xs, n, p);
        let evens = ifft_spec(
            Seq::new(n, |i: int| butterfly_even(arr[2 * i], arr[2 * i + 1], p)),
            nxs,
            p,
        );
        let odds = ifft_spec(
            Seq::new(n, |i: int| butterfly_odd(arr[2 * i], arr[2 * i + 1], xs[2 * i], p)),
            nxs,
            p,
        );
        Seq::new((2 * n) as nat, |i: int| if i % 2 == 0 {
            evens[i / 2]
        } else {
            odds[i / 2]
        })
    }
}

/// Law: the base case of the transform is the identity: a single value is at
/// once its own evaluation and coefficient form, whatever the point.
pub proof fn lemma_ifft_base(v: int, x: int, p: int)
    ensures
        ifft_spec(seq![v], seq![x], p) == seq![v],
{
}

/// Copies a vector of big integers, value for value.
fn clone_vec(v: &Vec<BigUint>) -> (r: Vec<BigUint>)
    ensures
        r@.len() == v@.len(),
        vals(r@) == vals(v@),
{
    let mut r: Vec<BigUint> = Vec::new();
    let mut i: usize = 0;
    while i < v.len()
        invariant
            i <= v@.len(),
            r@.len() == i,
            forall|j: int| 0 <= j < i ==> nat_of(r@[j]) == nat_of(v@[j]),
        decreases v@.len() - i,
    {
        r.push(big_clone(&v[i]));
        i = i + 1;
    }
    proof {
        assert(vals(r@) =~= vals(v@));
    }
    r
}

/// The Fermat inverses of this level's odd divisors: entry `i` holds
/// `(2 * xs[2i])^(p-2) mod p`, one per butterfly pair.
fn pair_inverses(xs: &Vec<BigUint>, n: usize, e: &BigUint, p: &BigUint) -> (r: Vec<BigUint>)
    requires
        n <= usize::MAX / 2,
        2 * n <= xs@.len(),
        nat_of(*p) >= 2,
        nat_of(*e) == nat_of(*p) - 2,
    ensures
        r@.len() == n,
        forall|i: int|
            0 <= i < n ==> nat_of(r@[i]) as int == pow_mod(
                2 * vals(xs@)[2 * i],
                (nat_of(*p) - 2) as nat,
                nat_of(*p) as int,
            ),
{
    let mut r: Vec<BigUint> = Vec::new();
    let mut i: usize = 0;
    while i < n
        invariant
            i <= n,
            n <= usize::MAX / 2,
            2 * n <= xs@.len(),
            nat_of(*p) >= 2,
            nat_of(*e) == nat_of(*p) - 2,
            r@.len() == i,
            forall|j: int|
                0 <= j < i ==> nat_of(r@[j]) as int == pow_mod(
                    2 * vals(xs@)[2 * j],
                    (nat_of(*p) - 2) as nat,
                    nat_of(*p) as int,
                ),
        decreases n - i,
    {
        let two = big_from_u64(2);
        let two_x = big_mul(&two, &xs[2 * i]);
        r.push(big_modpow(&two_x, e, p));
        i = i + 1;
    }
    r
}

/// The recursion behind `ifft`, with this level's odd-divisor inverses and
/// the constant inverse of two already computed.
fn ifft_core(
    arr: Vec<BigUint>,
    xs: Vec<BigUint>,
    invs: Vec<BigUint>,
    inv2: &BigUint,
    e: &BigUint,
    p: &BigUint,
) -> (r: Vec<BigUint>)
    requires
        is_pow2(arr@.len() as nat),
        xs@.len() == arr@.len(),
        invs@.len() == arr@.len() / 2,
        nat_of(*p) >= 2,
        nat_of(*e) == nat_of(*p) - 2,
        nat_of(*inv2) as int == pow_mod(2, (nat_of(*p) - 2) as nat, nat_of(*p) as int),
        forall|i: int| 0 <= i < arr@.len() ==> nat_of(arr@[i]) < nat_of(*p),
        forall|i: int|
            0 <= i < invs@.len() ==> nat_of(invs@[i]) as int == pow_mod(
                2 * vals(xs@)[2 * i],
                (nat_of(*p) - 2) as nat,
                nat_of(*p) as int,
            ),
    ensures
        r@.len() == arr@.len(),
        vals(r@) == ifft_spec(vals(arr@), vals(xs@), nat_of(*p) as int),
        forall|i: int| 0 <= i < r@.len() ==> nat_of(r@[i]) < nat_of(*p),
    decreases arr@.len(),
{
    if arr.len() == 1 {
        return arr;
    }
    let ghost pv: int = nat_of(*p) as int;
    let ghost va: Seq<int> = vals(arr@);
    let ghost vx: Seq<int> = vals(xs@);
    let n = arr.len() / 2;
    assert(arr@.len() == 2 * n && n >= 1);

    let mut res0: Vec<BigUint> = Vec::new();
    let mut res1: Vec<BigUint> = Vec::new();
    let mut new_xs: Vec<BigUint> = Vec::new();
    let mut i: usize = 0;
    while i < n
        invariant
            i <= n,
            n <= usize::MAX / 2,
            2 * n <= arr@.len(),
            arr@.len() == vals(arr@).len(),
            xs@.len() == arr@.len(),
            invs@.len() == n,
            va == vals(arr@),
            vx == vals(xs@),
            pv == nat_of(*p) as int,
            pv >= 2,
            forall|j: int| 0 <= j < arr@.len() ==> nat_of(arr@[j]) < nat_of(*p),
            nat_of(*inv2) as int == pow_mod(2, (pv - 2) as nat, pv),
            forall|j: int|
                0 <= j < n ==> nat_of(invs@[j]) as int == pow_mod(
                    2 * vx[2 * j],
                    (pv - 2) as nat,
                    pv,
                ),
            res0@.len() == i,
            res1@.len() == i,
            new_xs@.len() == i,
            forall|j: int|
                0 <= j < i ==> nat_of(res0@[j]) as int == butterfly_even(
                    va[2 * j],
                    va[2 * j + 1],
                    pv,
                ) && nat_of(res0@[j]) < nat_of(*p),
            forall|j: int|
                0 <= j < i ==> nat_of(res1@[j]) as int == butterfly_odd(
                    va[2 * j],
                    va[2 * j + 1],
                    vx[2 * j],
                    pv,
                ) && nat_of(res1@[j]) < nat_of(*p),
            forall|j: int|
                0 <= j < i ==> nat_of(new_xs@[j]) as int == pow_mod(vx[2 * j], 2, pv),
        decreases n - i,
    {
        let a = &arr[2 * i];
        let b = &arr[2 * i + 1];
        let x = &xs[2 * i];

        let sum = big_add(a, b);
        let even_scaled = big_mul(&sum, inv2);
        res0.push(big_rem(&even_scaled, p));

        let diff = mod_sub(a, b, p);
        let odd_scaled = big_mul(&diff, &invs[i]);
        res1.push(big_rem(&odd_scaled, p));

        let two = big_from_u64(2);
        new_xs.push(big_modpow(x, &two, p));

        proof {
            vstd::arithmetic::div_mod::lemma_mod_bound(
                (nat_of(sum) * nat_of(*inv2)) as int,
                pv,
            );
            vstd::arithmetic::div_mod::lemma_mod_bound(
                (nat_of(diff) * nat_of(invs@[i as int])) as int,
                pv,
            );
        }
        i = i + 1;
    }

    let ghost evens_in: Seq<int> = Seq::new(
        n as nat,
        |j: int| butterfly_even(va[2 * j], va[2 * j + 1], pv),
    );
    let ghost odds_in: Seq<int> = Seq::new(
        n as nat,
        |j: int| butterfly_odd(va[2 * j], va[2 * j + 1], vx[2 * j], pv),
    );
    proof {
        assert(vals(res0@) =~= evens_in);
        assert(vals(res1@) =~= odds_in);
        assert(vals(new_xs@) =~= squared_points(vx, n as nat, pv));
    }

    let new_invs = pair_inverses(&new_xs, n / 2, e, p);
    let new_invs2 = clone_vec(&new_invs);
    let new_xs2 = clone_vec(&new_xs);
    proof {
        assert forall|j: int| 0 <= j < new_invs2@.len() implies nat_of(new_invs2@[j]) as int
            == pow_mod(2 * vals(new_xs2@)[2 * j], (pv - 2) as nat, pv) by {
            assert(vals(new_invs2@)[j] == vals(new_invs@)[j]);
            assert(vals(new_xs2@)[2 * j] == vals(new_xs@)[2 * j]);
            assert(nat_of(new_invs@[j]) as int == pow_mod(
                2 * vals(new_xs@)[2 * j],
                (pv - 2) as nat,
                pv,
            ));
        }
    }
    let merged0 = ifft_core(res0, new_xs, new_invs, inv2, e, p);
    let merged1 = ifft_core(res1, new_xs2, new_invs2, inv2, e, p);

    let mut merged: Vec<BigUint> = Vec::new();
    let mut i2: usize = 0;
    while i2 < n
        invariant
            i2 <= n,
            merged@.len() == 2 * i2,
            merged0@.len() == n,
            merged1@.len() == n,
            forall|j: int| 0 <= j < n ==> nat_of(merged0@[j]) < nat_of(*p),
            forall|j: int| 0 <= j < n ==> nat_of(merged1@[j]) < nat_of(*p),
            forall|j: int|
                0 <= j < 2 * i2 ==> nat_of(merged@[j]) == (if j % 2 == 0 {
                    nat_of(merged0@[j / 2])
                } else {
                    nat_of(merged1@[j / 2])
                }),
        decreases n - i2,
    {
        merged.push(big_clone(&merged0[i2]));
        merged.push(big_clone(&merged1[i2]));
        i2 = i2 + 1;
    }
    proof {
        assert(vals(merged@) =~= Seq::new((2 * n) as nat, |j: int| if j % 2 == 0 {
            vals(merged0@)[j / 2]
        } else {
            vals(merged1@)[j / 2]
        }));
        assert(vals(merged@) == ifft_spec(va, vx, pv));
    }
    merged
}

/// Performs the recursive inverse transform on an evaluation vector over its
/// matching point table.
pub fn ifft(arr: Vec<BigUint>, xs: Vec<BigUint>, p: &BigUint) -> (r: Vec<BigUint>)
    requires
        is_pow2(arr@.len() as nat),
        xs@.len() == arr@.len(),
        nat_of(*p) >= 2,
        forall|i: int| 0 <= i < arr@.len() ==> nat_of(arr@[i]) < nat_of(*p),
    ensures
        r@.len() == arr@.len(),
        vals(r@) == ifft_spec(vals(arr@), vals(xs@), nat_of(*p) as int),
        forall|i: int| 0 <= i < r@.len() ==> nat_of(r@[i]) < nat_of(*p),
{
    let two = big_from_u64(2);
    let e = big_sub(p, &two);
    let inv2 = big_modpow(&two, &e, p);
    let n = arr.len() / 2;
    let invs = pair_inverses(&xs, n, &e, p);
    ifft_core(arr, xs, invs, &inv2, &e, p)
}

} // verus!
