//! A naive-Bayesian evidence combinator.
//!
//! An evidence distribution maps a class label to a probability.  It is
//! held as a vector of `(label, probability)` pairs whose labels are
//! unique and whose probabilities are fixed-point values in parts of
//! [`SCALE`] — the invariant a keyed map would otherwise supply.
//! [`bayesian`] folds an ordered sequence of such distributions into one
//! posterior with per-step normalization, allocating a fresh distribution
//! and mutating no input.

use crate::degree::SCALE;
use vstd::arithmetic::div_mod::{
    lemma_div_by_multiple, lemma_div_is_ordered, lemma_div_pos_is_pos, lemma_fundamental_div_mod,
    lemma_mod_bound,
};
use vstd::arithmetic::mul::{
    lemma_mul_inequality, lemma_mul_is_distributive_add_other_way, lemma_mul_nonnegative,
};
use vstd::prelude::*;

verus! {

/// Whether a pair sequence is a well-formed evidence distribution: labels
/// are unique and every probability lies in the unit interval.
pub open spec fn dist_wf(d: Seq<(u64, u64)>) -> bool {
    &&& forall|i: int| 0 <= i < d.len() ==> (#[trigger] d[i]).1 <= SCALE
    &&& forall|i: int, j: int|
        #![trigger d[i], d[j]]
        0 <= i < j < d.len() ==> d[i].0 != d[j].0
}

/// The probability stored for label `k`, at its first occurrence.
pub open spec fn spec_lookup(d: Seq<(u64, u64)>, k: u64) -> Option<u64>
    decreases d.len(),
{
    if d.len() == 0 {
        None
    } else if d[0].0 == k {
        Some(d[0].1)
    } else {
        spec_lookup(d.subrange(1, d.len() as int), k)
    }
}

/// The probability stored for label `k`, read as a mathematical value;
/// zero for an absent label.
pub open spec fn prob_of(d: Seq<(u64, u64)>, k: u64) -> int {
    match spec_lookup(d, k) {
        Some(p) => p as int,
        None => 0,
    }
}

/// Whether every label of `n` is already present in `prior`.
pub open spec fn keys_subset(n: Seq<(u64, u64)>, prior: Seq<(u64, u64)>) -> bool {
    forall|i: int| 0 <= i < n.len() ==> spec_lookup(prior, (#[trigger] n[i]).0) is Some
}

/// The normalizing constant of one update step: the sum over the
/// observation's labels of likelihood times prior probability.
pub open spec fn z_of(prior: Seq<(u64, u64)>, n: Seq<(u64, u64)>) -> int
    decreases n.len(),
{
    if n.len() == 0 {
        0
    } else {
        z_of(prior, n.drop_last()) + (n.last().1 as int) * prob_of(prior, n.last().0)
    }
}

/// The posterior probability of the observation's `i`-th label after one
/// update step with normalizing constant `z_of(prior, n)`.
pub open spec fn post_value(prior: Seq<(u64, u64)>, n: Seq<(u64, u64)>, i: int) -> int {
    (n[i].1 as int) * prob_of(prior, n[i].0) * (SCALE as int) / z_of(prior, n)
}

/// One Bayesian update step: folds observation `n` into the running
/// posterior `prior`.  It fails when `n` carries a label absent from the
/// prior, and when the normalizing constant vanishes (no label of `n`
/// keeps any posterior probability), since no rescaling exists then.
pub open spec fn bayes_step(prior: Seq<(u64, u64)>, n: Seq<(u64, u64)>) -> Option<
    Seq<(u64, u64)>,
> {
    if keys_subset(n, prior) && z_of(prior, n) > 0 {
        Some(Seq::new(n.len(), |i: int| (n[i].0, post_value(prior, n, i) as u64)))
    } else {
        None
    }
}

/// The whole combinator: a single observation is the base case and is
/// returned unchanged; otherwise the first observation seeds the running
/// posterior and each later one is folded in by [`bayes_step`].
pub open spec fn spec_combine(obs: Seq<Seq<(u64, u64)>>) -> Option<Seq<(u64, u64)>>
    decreases obs.len(),
{
    if obs.len() <= 1 {
        if obs.len() == 1 {
            Some(obs[0])
        } else {
            None
        }
    } else {
        match spec_combine(obs.drop_last()) {
            None => None,
            Some(prior) => bayes_step(prior, obs.last()),
        }
    }
}

/// The views of a vector of distributions, as the spec model speaks of
/// them.
pub open spec fn views(obs: Seq<Vec<(u64, u64)>>) -> Seq<Seq<(u64, u64)>> {
    obs.map_values(|d: Vec<(u64, u64)>| d@)
}

/// The sum of the probabilities of a distribution.
pub open spec fn dist_sum(d: Seq<(u64, u64)>) -> int
    decreases d.len(),
{
    if d.len() == 0 {
        0
    } else {
        dist_sum(d.drop_last()) + d.last().1
    }
}

/// A stored probability found by lookup occurs among the pairs, so a
/// well-formed distribution bounds it by the unit interval.
proof fn lemma_lookup_bound(d: Seq<(u64, u64)>, k: u64)
    requires
        dist_wf(d),
        spec_lookup(d, k) is Some,
    ensures
        spec_lookup(d, k).unwrap() <= SCALE,
    decreases d.len(),
{
    if d.len() > 0 && d[0].0 != k {
        let rest = d.subrange(1, d.len() as int);
        assert(forall|i: int| 0 <= i < rest.len() ==> rest[i] == d[i + 1]);
        lemma_lookup_bound(rest, k);
    }
}

/// The normalizing constant is a sum of non-negative terms.
proof fn lemma_z_nonneg(prior: Seq<(u64, u64)>, n: Seq<(u64, u64)>)
    ensures
        z_of(prior, n) >= 0,
    decreases n.len(),
{
    if n.len() > 0 {
        lemma_z_nonneg(prior, n.drop_last());
        lemma_mul_nonnegative(n.last().1 as int, prob_of(prior, n.last().0));
    }
}

/// Each term of the normalizing constant is at most the whole sum.
proof fn lemma_z_term_le(prior: Seq<(u64, u64)>, n: Seq<(u64, u64)>, i: int)
    requires
        0 <= i < n.len(),
    ensures
        (n[i].1 as int) * prob_of(prior, n[i].0) <= z_of(prior, n),
    decreases n.len(),
{
    if i == n.len() - 1 {
        lemma_z_nonneg(prior, n.drop_last());
    } else {
        lemma_z_term_le(prior, n.drop_last(), i);
        lemma_mul_nonnegative(n.last().1 as int, prob_of(prior, n.last().0));
    }
}

/// Each posterior value of a step with a positive normalizing constant
/// lies in the unit interval.
proof fn lemma_post_value_in_unit(prior: Seq<(u64, u64)>, n: Seq<(u64, u64)>, i: int)
    requires
        0 <= i < n.len(),
        z_of(prior, n) > 0,
    ensures
        0 <= post_value(prior, n, i) <= SCALE,
{
    let s = SCALE as int;
    let z = z_of(prior, n);
    let num = (n[i].1 as int) * prob_of(prior, n[i].0);
    lemma_mul_nonnegative(n[i].1 as int, prob_of(prior, n[i].0));
    lemma_mul_nonnegative(num, s);
    lemma_div_pos_is_pos(num * s, z);
    lemma_z_term_le(prior, n, i);
    lemma_mul_inequality(num, z, s);
    lemma_div_is_ordered(num * s, z * s, z);
    lemma_div_by_multiple(s, z);
    assert(z * s == s * z) by (nonlinear_arith);
}

/// Looks a label up in a distribution by scanning the pairs in order.
fn lookup(d: &Vec<(u64, u64)>, k: u64) -> (r: Option<u64>)
    ensures
        r == spec_lookup(d@, k),
{
    let mut i: usize = 0;
    assert(d@.skip(0) =~= d@);
    while i < d.len()
        invariant
            i <= d@.len(),
            spec_lookup(d@.skip(i as int), k) == spec_lookup(d@, k),
        decreases d@.len() - i,
    {
        let ghost rest = d@.skip(i as int);
        if d[i].0 == k {
            assert(rest[0] == d@[i as int]);
            return Some(d[i].1);
        }
        proof {
            assert(rest[0] == d@[i as int]);
            assert(rest.subrange(1, rest.len() as int) =~= d@.skip(i + 1));
        }
        i = i + 1;
    }
    assert(d@.skip(d@.len() as int) =~= Seq::<(u64, u64)>::empty());
    None
}

/// Folds one observation into the running posterior: computes the
/// normalizing constant over the observation's labels, then rescales each
/// likelihood-times-prior product by it.
fn bayes_update(prior: &Vec<(u64, u64)>, n: &Vec<(u64, u64)>) -> (r: Option<Vec<(u64, u64)>>)
    requires
        dist_wf(prior@),
        dist_wf(n@),
    ensures
        r is Some <==> bayes_step(prior@, n@) is Some,
        r is Some ==> r.unwrap()@ == bayes_step(prior@, n@).unwrap(),
        r is Some ==> dist_wf(r.unwrap()@),
{
    let mut z: u128 = 0;
    let mut i: usize = 0;
    while i < n.len()
        invariant
            i <= n@.len(),
            dist_wf(prior@),
            dist_wf(n@),
            keys_subset(n@.take(i as int), prior@),
            z == z_of(prior@, n@.take(i as int)),
            z <= (i as int) * ((SCALE as int) * (SCALE as int)),
        decreases n@.len() - i,
    {
        let key = n[i].0;
        let likelihood = n[i].1;
        match lookup(prior, key) {
            None => {
                assert(!keys_subset(n@, prior@));
                return None;
            },
            Some(p) => {
                proof {
                    lemma_lookup_bound(prior@, key);
                    assert((likelihood as int) * (p as int) <= (SCALE as int) * (SCALE as int))
                        by (nonlinear_arith)
                        requires
                            likelihood <= SCALE,
                            p <= SCALE,
                    ;
                    assert((i as int) * ((SCALE as int) * (SCALE as int)) + (SCALE as int)
                        * (SCALE as int) == (i + 1) * ((SCALE as int) * (SCALE as int)))
                        by (nonlinear_arith);
                    assert((i + 1) * ((SCALE as int) * (SCALE as int)) <= u128::MAX)
                        by (nonlinear_arith)
                        requires
                            0 <= i + 1 <= 0x1_0000_0000_0000_0000,
                    ;
                    assert(n@.take(i + 1).drop_last() =~= n@.take(i as int));
                    assert(n@.take(i + 1).last() == n@[i as int]);
                }
                z = z + (likelihood as u128) * (p as u128);
            },
        }
        i = i + 1;
    }
    proof {
        assert(n@.take(n@.len() as int) =~= n@);
    }
    if z == 0 {
        proof {
            lemma_z_nonneg(prior@, n@);
        }
        return None;
    }
    let ghost target = bayes_step(prior@, n@).unwrap();
    let mut out: Vec<(u64, u64)> = Vec::new();
    let mut i: usize = 0;
    while i < n.len()
        invariant
            i <= n@.len(),
            out@.len() == i,
            dist_wf(prior@),
            dist_wf(n@),
            keys_subset(n@, prior@),
            z == z_of(prior@, n@),
            z > 0,
            target == bayes_step(prior@, n@).unwrap(),
            forall|j: int| 0 <= j < i ==> out@[j] == target[j],
        decreases n@.len() - i,
    {
        let key = n[i].0;
        let likelihood = n[i].1;
        let p = match lookup(prior, key) {
            Some(p) => p,
            None => {
                proof {
                    assert(spec_lookup(prior@, n@[i as int].0) is Some);
                }
                unreached()
            },
        };
        proof {
            lemma_lookup_bound(prior@, key);
            lemma_post_value_in_unit(prior@, n@, i as int);
            lemma_z_term_le(prior@, n@, i as int);
            assert((likelihood as int) * (p as int) * (SCALE as int) <= u128::MAX)
                by (nonlinear_arith)
                requires
                    likelihood <= SCALE,
                    p <= SCALE,
                    SCALE == 1_000_000,
            ;
        }
        let num: u128 = (likelihood as u128) * (p as u128);
        let val: u128 = num * (SCALE as u128) / z;
        proof {
            assert(val == post_value(prior@, n@, i as int));
        }
        out.push((key, val as u64));
        i = i + 1;
    }
    proof {
        assert(out@ =~= target);
        assert forall|j: int| 0 <= j < target.len() implies (#[trigger] target[j]).0 == n@[j].0
            && target[j].1 <= SCALE by {
            lemma_post_value_in_unit(prior@, n@, j);
        };
    }
    Some(out)
}

/// Copies a distribution pair by pair; the combinator never mutates an
/// input, so its base case hands back a fresh copy.
fn clone_dist(d: &Vec<(u64, u64)>) -> (r: Vec<(u64, u64)>)
    ensures
        r@ == d@,
{
    let mut r: Vec<(u64, u64)> = Vec::new();
    let mut i: usize = 0;
    while i < d.len()
        invariant
            i <= d@.len(),
            r@ == d@.take(i as int),
        decreases d@.len() - i,
    {
        r.push(d[i]);
        proof {
            assert(d@.take(i + 1) =~= d@.take(i as int).push(d@[i as int]));
        }
        i = i + 1;
    }
    proof {
        assert(d@.take(d@.len() as int) =~= d@);
    }
    r
}

/// Unfolds the combinator by one observation: combining a prefix one
/// longer is one update step on the prefix's result.
proof fn lemma_combine_extend(obs: Seq<Seq<(u64, u64)>>, i: int)
    requires
        1 <= i < obs.len(),
    ensures
        spec_combine(obs.take(i + 1)) == match spec_combine(obs.take(i)) {
            None => None,
            Some(prior) => bayes_step(prior, obs[i]),
        },
{
    let t = obs.take(i + 1);
    assert(t.drop_last() =~= obs.take(i));
    assert(t.last() == obs[i]);
}

/// Once a prefix of the observations fails to combine, the whole sequence
/// fails to combine.
proof fn lemma_combine_none_persists(obs: Seq<Seq<(u64, u64)>>, i: int)
    requires
        1 <= i <= obs.len(),
        spec_combine(obs.take(i)) is None,
    ensures
        spec_combine(obs) is None,
    decreases obs.len() - i,
{
    if i == obs.len() {
        assert(obs.take(i) =~= obs);
    } else {
        lemma_combine_extend(obs, i);
        lemma_combine_none_persists(obs, i + 1);
    }
}

/// Estimates the probabilities of something belonging to a class given an
/// ordered sequence of observations, by naive-Bayesian folding.
///
/// The result is absent exactly when some fold step fails: an observation
/// carries a class label missing from the running posterior, or a step's
/// normalizing constant vanishes.
pub fn bayesian(observations: &Vec<Vec<(u64, u64)>>) -> (r: Option<Vec<(u64, u64)>>)
    requires
        observations@.len() >= 1,
        forall|i: int|
            0 <= i < observations@.len() ==> dist_wf((#[trigger] observations@[i])@),
    ensures
        r is Some <==> spec_combine(views(observations@)) is Some,
        r is Some ==> r.unwrap()@ == spec_combine(views(observations@)).unwrap(),
        r is Some ==> dist_wf(r.unwrap()@),
{
    let ghost vs = views(observations@);
    let mut acc = clone_dist(&observations[0]);
    if observations.len() == 1 {
        assert(vs.take(1) =~= vs);
        return Some(acc);
    }
    let mut idx: usize = 1;
    assert(spec_combine(vs.take(1)) == Some(acc@));
    while idx < observations.len()
        invariant
            1 <= idx <= observations@.len(),
            forall|i: int|
                0 <= i < observations@.len() ==> dist_wf((#[trigger] observations@[i])@),
            vs == views(observations@),
            spec_combine(vs.take(idx as int)) == Some(acc@),
            dist_wf(acc@),
        decreases observations@.len() - idx,
    {
        proof {
            lemma_combine_extend(vs, idx as int);
        }
        match bayes_update(&acc, &observations[idx]) {
            None => {
                proof {
                    lemma_combine_none_persists(vs, idx + 1);
                }
                return None;
            },
            Some(next) => {
                acc = next;
            },
        }
        idx = idx + 1;
    }
    proof {
        assert(vs.take(vs.len() as int) =~= vs);
    }
    Some(acc)
}

/// Integer division loses less than one unit per term: dividing a sum is
/// bracketed by the sum of the divided parts.
proof fn lemma_div_superadd(x: int, y: int, z: int)
    requires
        x >= 0,
        y >= 0,
        z > 0,
    ensures
        x / z + y / z <= (x + y) / z,
        (x + y) / z <= x / z + y / z + 1,
{
    lemma_fundamental_div_mod(x, z);
    lemma_fundamental_div_mod(y, z);
    lemma_fundamental_div_mod(x + y, z);
    lemma_mod_bound(x, z);
    lemma_mod_bound(y, z);
    lemma_mod_bound(x + y, z);
    let q = (x + y) / z - x / z - y / z;
    assert(z * q == x % z + y % z - (x + y) % z) by (nonlinear_arith)
        requires
            x == z * (x / z) + x % z,
            y == z * (y / z) + y % z,
            x + y == z * ((x + y) / z) + (x + y) % z,
            q == (x + y) / z - x / z - y / z,
    ;
    assert(0 <= q <= 1) by (nonlinear_arith)
        requires
            z > 0,
            -z < z * q < 2 * z,
    ;
}

/// The sum of the first `k` likelihood-times-prior products of one step.
spec fn num_sum(prior: Seq<(u64, u64)>, n: Seq<(u64, u64)>, k: int) -> int
    decreases k,
{
    if k <= 0 {
        0
    } else {
        num_sum(prior, n, k - 1) + (n[k - 1].1 as int) * prob_of(prior, n[k - 1].0)
    }
}

/// The sum of the first `k` posterior values of one step.
spec fn post_sum(prior: Seq<(u64, u64)>, n: Seq<(u64, u64)>, k: int) -> int
    decreases k,
{
    if k <= 0 {
        0
    } else {
        post_sum(prior, n, k - 1) + post_value(prior, n, k - 1)
    }
}

/// Summing all the products of a step gives its normalizing constant.
proof fn lemma_num_sum_eq(prior: Seq<(u64, u64)>, n: Seq<(u64, u64)>, k: int)
    requires
        0 <= k <= n.len(),
    ensures
        num_sum(prior, n, k) == z_of(prior, n.take(k)),
    decreases k,
{
    if k > 0 {
        lemma_num_sum_eq(prior, n, k - 1);
        assert(n.take(k).drop_last() =~= n.take(k - 1));
        assert(n.take(k).last() == n[k - 1]);
    }
}

/// Partial sums of products are non-negative.
proof fn lemma_num_sum_nonneg(prior: Seq<(u64, u64)>, n: Seq<(u64, u64)>, k: int)
    ensures
        num_sum(prior, n, k) >= 0,
    decreases k,
{
    if k > 0 {
        lemma_num_sum_nonneg(prior, n, k - 1);
        lemma_mul_nonnegative(n[k - 1].1 as int, prob_of(prior, n[k - 1].0));
    }
}

/// The sum of the first `k` posterior values differs from the rescaled sum
/// of the first `k` products by less than one rounding unit per term.
proof fn lemma_post_sum_bounds(prior: Seq<(u64, u64)>, n: Seq<(u64, u64)>, k: int)
    requires
        0 <= k,
        z_of(prior, n) > 0,
    ensures
        num_sum(prior, n, k) * (SCALE as int) / z_of(prior, n) - k <= post_sum(prior, n, k),
        post_sum(prior, n, k) <= num_sum(prior, n, k) * (SCALE as int) / z_of(prior, n),
    decreases k,
{
    let s = SCALE as int;
    let z = z_of(prior, n);
    if k == 0 {
        assert(0 * s == 0) by (nonlinear_arith);
    } else {
        lemma_post_sum_bounds(prior, n, k - 1);
        let t = (n[k - 1].1 as int) * prob_of(prior, n[k - 1].0);
        lemma_mul_nonnegative(n[k - 1].1 as int, prob_of(prior, n[k - 1].0));
        lemma_num_sum_nonneg(prior, n, k - 1);
        lemma_mul_nonnegative(num_sum(prior, n, k - 1), s);
        lemma_mul_nonnegative(t, s);
        lemma_mul_is_distributive_add_other_way(s, num_sum(prior, n, k - 1), t);
        lemma_div_superadd(num_sum(prior, n, k - 1) * s, t * s, z);
    }
}

/// The posterior of one successful update step sums to one whole unit,
/// within one rounding unit per class.
proof fn lemma_step_sum(prior: Seq<(u64, u64)>, n: Seq<(u64, u64)>)
    requires
        bayes_step(prior, n) is Some,
    ensures
        bayes_step(prior, n).unwrap().len() == n.len(),
        n.len() >= 1,
        dist_sum(bayes_step(prior, n).unwrap()) <= SCALE,
        SCALE - n.len() <= dist_sum(bayes_step(prior, n).unwrap()),
{
    let s = SCALE as int;
    let z = z_of(prior, n);
    let target = bayes_step(prior, n).unwrap();
    lemma_num_sum_eq(prior, n, n.len() as int);
    assert(n.take(n.len() as int) =~= n);
    lemma_post_sum_bounds(prior, n, n.len() as int);
    lemma_div_by_multiple(s, z);
    assert(z * s == s * z) by (nonlinear_arith);
    assert(num_sum(prior, n, n.len() as int) * s / z == s);
    lemma_target_sum(prior, n, n.len() as int);
    assert(target.take(n.len() as int) =~= target);
}

/// The stored posterior probabilities sum to the mathematical posterior
/// sum: every stored value round-trips through its machine integer.
proof fn lemma_target_sum(prior: Seq<(u64, u64)>, n: Seq<(u64, u64)>, k: int)
    requires
        bayes_step(prior, n) is Some,
        0 <= k <= n.len(),
    ensures
        dist_sum(bayes_step(prior, n).unwrap().take(k)) == post_sum(prior, n, k),
    decreases k,
{
    let target = bayes_step(prior, n).unwrap();
    if k > 0 {
        lemma_target_sum(prior, n, k - 1);
        lemma_post_value_in_unit(prior, n, k - 1);
        assert(target.take(k).drop_last() =~= target.take(k - 1));
        assert(target.take(k).last() == target[k - 1]);
    }
}

/// The combinator law: under well-formed input — every fold step succeeds
/// and every observation's probabilities sum to one whole unit — the
/// output distribution again sums to one whole unit, within one rounding
/// unit per output class.
pub proof fn lemma_combine_sums_to_one(obs: Seq<Seq<(u64, u64)>>)
    requires
        obs.len() >= 1,
        spec_combine(obs) is Some,
        forall|i: int| 0 <= i < obs.len() ==> dist_sum(#[trigger] obs[i]) == SCALE,
    ensures
        spec_combine(obs).unwrap().len() >= 1,
        SCALE - spec_combine(obs).unwrap().len() <= dist_sum(spec_combine(obs).unwrap()),
        dist_sum(spec_combine(obs).unwrap()) <= SCALE,
{
    let res = spec_combine(obs).unwrap();
    if obs.len() == 1 {
        assert(res == obs[0]);
        assert(res.len() >= 1);
    } else {
        let prior = spec_combine(obs.drop_last()).unwrap();
        lemma_step_sum(prior, obs.last());
    }
}

} // verus!
