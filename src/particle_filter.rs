use crate::dynamics_model::{DynamicsModel, DT_MAX};
use crate::enclosure::Enclosure;
use crate::error::{ConstructionError, DegenerateFilterError};
use crate::geometry::{dist_spec, distance, floor_div, Vec3, COORD_MAX};
use crate::random::random_in;
use crate::likelihood::{
    accumulate_cost,
    add_cost,
    cost_of,
    factor,
    lemma_cost_monotone,
    lemma_factor_monotone,
    likelihood_factor,
    observation_cost,
    COST_MAX,
};
use crate::ranging::{RANGE_MAX, SIGMA_MAX};
use crate::resampling::{resampled_from, systematic_indices, copies_selected, selects};
use crate::weights::{
    lemma_equal_prefix,
    lemma_normalized_sums_to_one,
    lemma_normalized_weight,
    lemma_prefix_bound,
    lemma_weight_below_total,
    normalized,
    positions_bounded,
    prefix_weight,
    total_of,
    total_weight,
    uniform,
    weights_bounded,
};
use vstd::arithmetic::div_mod::lemma_div_is_ordered;
use vstd::prelude::*;

verus! {

/// The weight that stands for probability one. Observations add to a
/// particle's cost, not to its weight; normalization turns costs into weights,
/// relative to the smallest cost. A population whose weights all come out
/// zero (every particle's cost at `COST_MAX`) is a degenerate posterior.
pub const WEIGHT_ONE: u64 = 0x1_0000_0000;

/// Largest population a filter may hold.
pub const MAX_PARTICLES: usize = 0x10_0000;

/// One weighted hypothesis of an agent's position. `cost` accumulates the
/// observations since the last normalization: minus the base-2 logarithm of
/// their likelihood, in units of `1 / COST_ONE`.
#[derive(Clone, Copy, Debug, PartialEq, Eq)]
pub struct Particle {
    pub position: Vec3,
    pub weight: u64,
    pub cost: u64,
}

impl Particle {
    pub fn new(position: Vec3, weight: u64) -> (r: Self)
        ensures
            r.position == position,
            r.weight == weight,
            r.cost == 0,
    {
        Particle { position, weight, cost: 0 }
    }
}

/// The cost of an observation for a particle at `position`: its scaled
/// squared residual between the observed and the predicted range.
pub open spec fn observation_cost_at(position: Vec3, o: Observation) -> int {
    cost_of(o.range - dist_spec(position, o.reference), o.sigma as int)
}

/// A particle after an observation: its cost grows by the observation's.
pub open spec fn observe(p: Particle, o: Observation) -> Particle {
    Particle {
        position: p.position,
        weight: p.weight,
        cost: add_cost(p.cost as int, observation_cost_at(p.position, o)) as u64,
    }
}

/// The summed scaled squared residuals of a particle at `position` over a
/// sequence of observations, each rounded down.
pub open spec fn residual_cost(position: Vec3, obs: Seq<Observation>) -> int
    decreases obs.len(),
{
    if obs.len() == 0 {
        0
    } else {
        residual_cost(position, obs.drop_last()) + observation_cost_at(position, obs.last())
    }
}

/// Every cost is at most `COST_MAX`.
pub open spec fn costs_bounded(s: Seq<Particle>) -> bool {
    forall|i: int| 0 <= i < s.len() ==> #[trigger] s[i].cost <= COST_MAX
}

/// The smallest cost among the first `k` particles, or `COST_MAX`.
pub open spec fn min_cost(s: Seq<Particle>, k: int) -> int
    decreases k,
{
    if k <= 0 || k > s.len() {
        COST_MAX as int
    } else {
        let m = min_cost(s, k - 1);
        if (s[k - 1].cost as int) < m {
            s[k - 1].cost as int
        } else {
            m
        }
    }
}

/// A particle's weight with its cost settled: multiplied by the likelihood
/// factor of its cost above the smallest cost `m`; a cost of `COST_MAX`
/// stands for likelihood zero.
pub open spec fn settled_weight(p: Particle, m: int) -> int {
    if p.cost >= COST_MAX {
        0
    } else {
        p.weight * factor(p.cost - m) / (WEIGHT_ONE as int)
    }
}

/// The population with every cost turned into its weight.
pub open spec fn settled(s: Seq<Particle>) -> Seq<Particle> {
    Seq::new(
        s.len(),
        |i: int|
            Particle {
                position: s[i].position,
                weight: settled_weight(s[i], min_cost(s, s.len() as int)) as u64,
                cost: 0,
            },
    )
}

/// The normalized posterior: costs settled, then weights divided by their
/// total.
pub open spec fn posterior(s: Seq<Particle>) -> Seq<Particle> {
    normalized(settled(s))
}

/// One observed range, the reference point it was taken to, and the
/// standard deviation assumed for its noise.
#[derive(Clone, Copy, Debug, PartialEq, Eq)]
pub struct Observation {
    pub range: i64,
    pub reference: Vec3,
    pub sigma: u64,
}

impl Observation {
    pub open spec fn wf(self) -> bool {
        &&& -RANGE_MAX <= self.range <= RANGE_MAX
        &&& self.reference.bounded()
        &&& 0 < self.sigma <= SIGMA_MAX
    }
}

/// Every particle of `s` after one observation.
pub open spec fn reweight_seq(s: Seq<Particle>, o: Observation) -> Seq<Particle> {
    Seq::new(s.len(), |i: int| observe(s[i], o))
}

/// `s` after each observation in turn.
pub open spec fn reweight_all(s: Seq<Particle>, obs: Seq<Observation>) -> Seq<Particle>
    decreases obs.len(),
{
    if obs.len() == 0 {
        s
    } else {
        reweight_seq(reweight_all(s, obs.drop_last()), obs.last())
    }
}

pub proof fn lemma_reweight_all_len(s: Seq<Particle>, obs: Seq<Observation>)
    ensures
        reweight_all(s, obs).len() == s.len(),
    decreases obs.len(),
{
    if obs.len() > 0 {
        lemma_reweight_all_len(s, obs.drop_last());
    }
}

/// `t` is what the resampling gate leaves of `p`: `p` itself when its
/// effective sample size is at least `tau * N`, otherwise a systematic
/// resample of it.
pub open spec fn gated(p: Seq<Particle>, t: Seq<Particle>, tau_permille: int) -> bool {
    if needs_resample_spec(p, tau_permille) {
        exists|u0: int| 0 <= u0 < total_weight(p) && resampled_from(p, t, u0)
    } else {
        t == p
    }
}

/// `f` is `t` with every particle moved by the model's prediction over `dt`
/// milliseconds at velocity `v`, each under its own acceleration.
pub open spec fn predicted_from<M: DynamicsModel>(
    model: M,
    dt: int,
    v: Vec3,
    accels: Seq<Vec3>,
    t: Seq<Particle>,
    f: Seq<Particle>,
) -> bool {
    &&& f.len() == t.len()
    &&& forall|i: int|
        0 <= i < t.len() ==> (#[trigger] f[i]).weight == t[i].weight && f[i].cost == t[i].cost
            && f[i].position == model.predicted(dt, t[i].position, v, accels[i])
}

/// Sum of the squared weights of the first `k` particles.
pub open spec fn prefix_sq(s: Seq<Particle>, k: int) -> int
    decreases k,
{
    if k <= 0 || k > s.len() {
        0
    } else {
        prefix_sq(s, k - 1) + s[k - 1].weight * s[k - 1].weight
    }
}

/// Sum of the squared weights.
pub open spec fn sum_sq(s: Seq<Particle>) -> int {
    prefix_sq(s, s.len() as int)
}

/// Effective sample size `(sum w)^2 / sum w^2`, rounded down; zero for a
/// population without weight.
pub open spec fn ess_spec(s: Seq<Particle>) -> int {
    if sum_sq(s) == 0 {
        0
    } else {
        (total_weight(s) * total_weight(s)) / sum_sq(s)
    }
}

/// The resampling gate `ESS / N < tau`, with `tau` in thousandths, compared
/// exactly: `1000 * (sum w)^2 < tau * N * sum w^2`.
pub open spec fn needs_resample_spec(s: Seq<Particle>, tau_permille: int) -> bool {
    1000 * (total_weight(s) * total_weight(s)) < tau_permille * s.len() * sum_sq(s)
}

/// Component `a` of a vector: 0 for x, 1 for y, otherwise z.
pub open spec fn axis(v: Vec3, a: int) -> int {
    if a == 0 {
        v.x as int
    } else if a == 1 {
        v.y as int
    } else {
        v.z as int
    }
}

/// Weighted sum of component `a` over the first `k` particles.
pub open spec fn moment(s: Seq<Particle>, k: int, a: int) -> int
    decreases k,
{
    if k <= 0 || k > s.len() {
        0
    } else {
        moment(s, k - 1, a) + s[k - 1].weight * axis(s[k - 1].position, a)
    }
}

/// Component `a` of the weighted mean of the particle positions, rounded down.
pub open spec fn mean_axis(s: Seq<Particle>, a: int) -> int {
    moment(s, s.len() as int, a) / total_weight(s)
}

proof fn lemma_prefix_sq_bound(s: Seq<Particle>, k: int)
    requires
        weights_bounded(s),
        0 <= k <= s.len(),
    ensures
        0 <= prefix_sq(s, k) <= k * (WEIGHT_ONE * WEIGHT_ONE),
    decreases k,
{
    if k > 0 {
        lemma_prefix_sq_bound(s, k - 1);
        let w = s[k - 1].weight;
        assert(0 <= w * w <= WEIGHT_ONE * WEIGHT_ONE) by (nonlinear_arith)
            requires
                0 <= w <= WEIGHT_ONE,
        ;
    }
}

proof fn lemma_moment_bound(s: Seq<Particle>, k: int, a: int)
    requires
        positions_bounded(s),
        0 <= k <= s.len(),
    ensures
        -COORD_MAX * prefix_weight(s, k) <= moment(s, k, a) <= COORD_MAX * prefix_weight(s, k),
    decreases k,
{
    if k > 0 {
        lemma_moment_bound(s, k - 1, a);
        let w = s[k - 1].weight as int;
        let c = axis(s[k - 1].position, a);
        assert(s[k - 1].position.bounded());
        assert(-COORD_MAX * w <= w * c <= COORD_MAX * w) by (nonlinear_arith)
            requires
                -COORD_MAX <= c <= COORD_MAX,
                w >= 0,
        ;
        let p = prefix_weight(s, k - 1);
        assert(COORD_MAX * (p + w) == COORD_MAX * p + COORD_MAX * w) by (nonlinear_arith);
        assert(-COORD_MAX * (p + w) == -COORD_MAX * p + -COORD_MAX * w) by (nonlinear_arith);
    }
}

pub proof fn lemma_min_cost(s: Seq<Particle>, k: int)
    requires
        0 <= k <= s.len(),
    ensures
        0 <= min_cost(s, k) <= COST_MAX,
        forall|i: int| 0 <= i < k ==> min_cost(s, k) <= #[trigger] s[i].cost,
    decreases k,
{
    if k > 0 {
        lemma_min_cost(s, k - 1);
    }
}

proof fn lemma_settled_weight_bounds(p: Particle, m: int)
    requires
        0 <= m,
        p.cost < COST_MAX ==> m <= p.cost,
    ensures
        0 <= settled_weight(p, m) <= p.weight,
{
    if p.cost < COST_MAX {
        lemma_factor_monotone(p.cost - m, p.cost - m);
        let f = factor(p.cost - m);
        assert(0 <= p.weight * f <= p.weight * WEIGHT_ONE) by (nonlinear_arith)
            requires
                0 <= f <= WEIGHT_ONE,
        ;
        lemma_div_is_ordered(p.weight * f, p.weight * WEIGHT_ONE, WEIGHT_ONE as int);
        lemma_div_is_ordered(0, p.weight * f, WEIGHT_ONE as int);
        assert((p.weight * WEIGHT_ONE) / (WEIGHT_ONE as int) == p.weight) by (nonlinear_arith);
    }
}

/// Settling keeps weights bounded and costs at zero.
pub proof fn lemma_settled_bounded(s: Seq<Particle>)
    requires
        weights_bounded(s),
    ensures
        settled(s).len() == s.len(),
        weights_bounded(settled(s)),
        forall|i: int| 0 <= i < s.len() ==> (#[trigger] settled(s)[i]).weight == settled_weight(
            s[i],
            min_cost(s, s.len() as int),
        ) && settled(s)[i].position == s[i].position && settled(s)[i].cost == 0,
{
    let m = min_cost(s, s.len() as int);
    lemma_min_cost(s, s.len() as int);
    assert forall|i: int| 0 <= i < s.len() implies (#[trigger] settled(s)[i]).weight
        == settled_weight(s[i], m) && settled(s)[i].weight <= WEIGHT_ONE by {
        lemma_settled_weight_bounds(s[i], m);
    }
}

/// Settling keeps the order: a particle with no less weight and no more cost
/// than another keeps no less weight.
pub proof fn lemma_settled_order(s: Seq<Particle>, i: int, j: int)
    requires
        0 <= i < s.len(),
        0 <= j < s.len(),
        s[j].weight <= s[i].weight,
        s[i].cost <= s[j].cost,
    ensures
        settled(s)[j].weight <= settled(s)[i].weight,
{
    let m = min_cost(s, s.len() as int);
    lemma_min_cost(s, s.len() as int);
    lemma_settled_weight_bounds(s[i], m);
    lemma_settled_weight_bounds(s[j], m);
    if s[j].cost < COST_MAX {
        lemma_factor_monotone(s[i].cost - m, s[j].cost - m);
        let fi = factor(s[i].cost - m);
        let fj = factor(s[j].cost - m);
        assert(s[j].weight * fj <= s[i].weight * fi) by (nonlinear_arith)
            requires
                0 <= fj <= fi,
                0 <= s[j].weight <= s[i].weight,
        ;
        lemma_div_is_ordered(s[j].weight * fj, s[i].weight * fi, WEIGHT_ONE as int);
    }
}

/// In the normalized posterior, a particle with no less weight and no more
/// cost than another weighs at least as much.
pub proof fn lemma_posterior_order(s: Seq<Particle>, i: int, j: int)
    requires
        0 <= i < s.len(),
        0 <= j < s.len(),
        weights_bounded(s),
        s[j].weight <= s[i].weight,
        s[i].cost <= s[j].cost,
        total_weight(settled(s)) > 0,
    ensures
        posterior(s)[j].weight <= posterior(s)[i].weight,
{
    let t = settled(s);
    lemma_settled_bounded(s);
    lemma_settled_order(s, i, j);
    lemma_normalized_weight(t, i);
    lemma_normalized_weight(t, j);
    assert(t[j].weight * WEIGHT_ONE <= t[i].weight * WEIGHT_ONE) by (nonlinear_arith)
        requires
            t[j].weight <= t[i].weight,
    ;
    lemma_div_is_ordered(t[j].weight * WEIGHT_ONE, t[i].weight * WEIGHT_ONE, total_weight(t));
}

proof fn lemma_residual_cost_nonneg(position: Vec3, obs: Seq<Observation>)
    requires
        forall|m: int| 0 <= m < obs.len() ==> (#[trigger] obs[m]).sigma > 0,
    ensures
        residual_cost(position, obs) >= 0,
    decreases obs.len(),
{
    if obs.len() > 0 {
        let rest = obs.drop_last();
        assert forall|m: int| 0 <= m < rest.len() implies (#[trigger] rest[m]).sigma > 0 by {
            assert(rest[m] == obs[m]);
        }
        lemma_residual_cost_nonneg(position, rest);
        let o = obs.last();
        assert(o == obs[obs.len() - 1]);
        let e = o.range - dist_spec(position, o.reference);
        assert(0 * 0 <= e * e) by (nonlinear_arith);
        lemma_cost_monotone(0, e, o.sigma as int);
    }
}

/// After a sequence of observations a particle keeps its position and
/// weight, and its cost is its earlier cost plus its summed scaled squared
/// residuals, saturating at `COST_MAX`.
pub proof fn lemma_fused_cost(s: Seq<Particle>, obs: Seq<Observation>, i: int)
    requires
        0 <= i < s.len(),
        s[i].cost <= COST_MAX,
        forall|m: int| 0 <= m < obs.len() ==> (#[trigger] obs[m]).sigma > 0,
    ensures
        reweight_all(s, obs).len() == s.len(),
        reweight_all(s, obs)[i].position == s[i].position,
        reweight_all(s, obs)[i].weight == s[i].weight,
        reweight_all(s, obs)[i].cost == add_cost(
            s[i].cost as int,
            residual_cost(s[i].position, obs),
        ),
    decreases obs.len(),
{
    lemma_reweight_all_len(s, obs);
    lemma_residual_cost_nonneg(s[i].position, obs);
    if obs.len() > 0 {
        let rest = obs.drop_last();
        assert forall|m: int| 0 <= m < rest.len() implies (#[trigger] rest[m]).sigma > 0 by {
            assert(rest[m] == obs[m]);
        }
        lemma_fused_cost(s, rest, i);
        lemma_residual_cost_nonneg(s[i].position, rest);
        let o = obs.last();
        assert(o == obs[obs.len() - 1]);
        let e = o.range - dist_spec(s[i].position, o.reference);
        assert(0 * 0 <= e * e) by (nonlinear_arith);
        lemma_cost_monotone(0, e, o.sigma as int);
        lemma_reweight_all_len(s, rest);
    } else {
        assert(add_cost(s[i].cost as int, 0) == s[i].cost);
    }
}

/// After any sequence of observations, weight order in the normalized
/// posterior follows the summed scaled squared residuals: of two particles
/// that stood equally before (the same weight and cost, as initialization,
/// resampling and normalization leave them), the one whose residuals sum to
/// no more weighs at least as much.
pub proof fn lemma_weight_order_follows_residuals(
    s: Seq<Particle>,
    obs: Seq<Observation>,
    i: int,
    j: int,
)
    requires
        0 <= i < s.len(),
        0 <= j < s.len(),
        weights_bounded(s),
        costs_bounded(s),
        forall|m: int| 0 <= m < obs.len() ==> (#[trigger] obs[m]).sigma > 0,
        s[j].weight <= s[i].weight,
        s[i].cost <= s[j].cost,
        residual_cost(s[i].position, obs) <= residual_cost(s[j].position, obs),
        total_weight(settled(reweight_all(s, obs))) > 0,
    ensures
        posterior(reweight_all(s, obs))[j].weight <= posterior(reweight_all(s, obs))[i].weight,
{
    let t = reweight_all(s, obs);
    lemma_fused_cost(s, obs, i);
    lemma_fused_cost(s, obs, j);
    lemma_residual_cost_nonneg(s[i].position, obs);
    assert forall|k: int| 0 <= k < t.len() implies (#[trigger] t[k]).weight <= WEIGHT_ONE by {
        lemma_fused_cost(s, obs, k);
    }
    lemma_posterior_order(t, i, j);
}

proof fn lemma_exact_ranges_cost_nothing(truth: Vec3, obs: Seq<Observation>)
    requires
        forall|m: int|
            0 <= m < obs.len() ==> (#[trigger] obs[m]).sigma > 0 && obs[m].range == dist_spec(
                truth,
                obs[m].reference,
            ),
    ensures
        residual_cost(truth, obs) == 0,
    decreases obs.len(),
{
    if obs.len() > 0 {
        let rest = obs.drop_last();
        assert forall|m: int| 0 <= m < rest.len() implies (#[trigger] rest[m]).sigma > 0
            && rest[m].range == dist_spec(truth, rest[m].reference) by {
            assert(rest[m] == obs[m]);
        }
        lemma_exact_ranges_cost_nothing(truth, rest);
        let o = obs.last();
        assert(o == obs[obs.len() - 1]);
        lemma_cost_monotone(0, 0, o.sigma as int);
    }
}

/// After exact ranges taken from the true position, a particle sitting at the
/// true position that stood best before (the largest weight, the smallest
/// cost) weighs at least as much as every other particle in the normalized
/// posterior.
pub proof fn lemma_true_position_keeps_largest_weight(
    s: Seq<Particle>,
    obs: Seq<Observation>,
    k: int,
    truth: Vec3,
)
    requires
        0 <= k < s.len(),
        s[k].position == truth,
        weights_bounded(s),
        costs_bounded(s),
        forall|j: int|
            0 <= j < s.len() ==> #[trigger] s[j].weight <= s[k].weight && s[k].cost <= s[j].cost,
        forall|m: int|
            0 <= m < obs.len() ==> (#[trigger] obs[m]).sigma > 0 && obs[m].range == dist_spec(
                truth,
                obs[m].reference,
            ),
        total_weight(settled(reweight_all(s, obs))) > 0,
    ensures
        forall|j: int|
            0 <= j < s.len() ==> #[trigger] posterior(reweight_all(s, obs))[j].weight
                <= posterior(reweight_all(s, obs))[k].weight,
{
    lemma_exact_ranges_cost_nothing(truth, obs);
    assert forall|j: int| 0 <= j < s.len() implies #[trigger] posterior(
        reweight_all(s, obs),
    )[j].weight <= posterior(reweight_all(s, obs))[k].weight by {
        assert(forall|m: int| 0 <= m < obs.len() ==> (#[trigger] obs[m]).sigma > 0);
        lemma_residual_cost_nonneg(s[j].position, obs);
        lemma_weight_order_follows_residuals(s, obs, k, j);
    }
}

proof fn lemma_uniform_sq(s: Seq<Particle>, c: int, k: int)
    requires
        0 <= k <= s.len(),
        forall|i: int| 0 <= i < s.len() ==> #[trigger] s[i].weight == c,
    ensures
        prefix_sq(s, k) == k * (c * c),
    decreases k,
{
    if k > 0 {
        lemma_uniform_sq(s, c, k - 1);
        assert((k - 1) * (c * c) + c * c == k * (c * c)) by (nonlinear_arith);
    } else {
        assert(0 * (c * c) == 0);
    }
}

/// A population with uniform weights, as initialization and resampling leave
/// it, has effective sample size exactly `N`, so it never calls for
/// resampling: `ESS >= tau * N` for every `tau` in `(0, 1]`.
pub proof fn lemma_uniform_ess_is_full(s: Seq<Particle>, tau_permille: int)
    requires
        0 < s.len() <= MAX_PARTICLES,
        uniform(s),
        0 < tau_permille <= 1000,
    ensures
        ess_spec(s) == s.len(),
        !needs_resample_spec(s, tau_permille),
{
    let n = s.len() as int;
    let c = (WEIGHT_ONE as int) / n;
    vstd::arithmetic::div_mod::lemma_div_is_ordered_by_denominator(WEIGHT_ONE as int, 1, n);
    lemma_div_is_ordered(n, WEIGHT_ONE as int, n);
    assert(n / n == 1) by (nonlinear_arith)
        requires
            n > 0,
    ;
    assert(c >= 1);
    lemma_equal_prefix(s, c, n);
    lemma_uniform_sq(s, c, n);
    let t = n * c;
    let q = n * (c * c);
    assert(q > 0) by (nonlinear_arith)
        requires
            n > 0,
            c > 0,
            q == n * (c * c),
    ;
    assert(t * t == n * q) by (nonlinear_arith)
        requires
            t == n * c,
            q == n * (c * c),
    ;
    assert((n * q) / q == n) by (nonlinear_arith)
        requires
            q > 0,
    ;
    assert(1000 * (t * t) >= tau_permille * n * q) by (nonlinear_arith)
        requires
            t * t == n * q,
            q > 0,
            n > 0,
            0 < tau_permille <= 1000,
    ;
}

/// The population with every cost turned into its weight, relative to the
/// smallest cost.
pub fn settle(particles: &Vec<Particle>) -> (r: Vec<Particle>)
    requires
        weights_bounded(particles@),
        costs_bounded(particles@),
    ensures
        r@ == settled(particles@),
        weights_bounded(r@),
{
    let ghost s = particles@;
    let n = particles.len();
    let mut m: u64 = COST_MAX;
    let mut i: usize = 0;
    while i < n
        invariant
            s == particles@,
            n == s.len(),
            i <= n,
            m == min_cost(s, i as int),
        decreases n - i,
    {
        if particles[i].cost < m {
            m = particles[i].cost;
        }
        i = i + 1;
    }
    proof {
        lemma_min_cost(s, n as int);
        lemma_settled_bounded(s);
    }
    let mut out: Vec<Particle> = Vec::new();
    let mut i: usize = 0;
    while i < n
        invariant
            s == particles@,
            n == s.len(),
            weights_bounded(s),
            m == min_cost(s, n as int),
            m <= COST_MAX,
            forall|k: int| 0 <= k < n ==> m <= #[trigger] s[k].cost,
            i <= n,
            out.len() == i,
            forall|k: int| 0 <= k < i ==> (#[trigger] out@[k]) == settled(s)[k],
        decreases n - i,
    {
        let p = particles[i];
        assert(s[i as int].weight <= WEIGHT_ONE && m <= s[i as int].cost);
        let w = if p.cost >= COST_MAX {
            0
        } else {
            let f = likelihood_factor(p.cost - m);
            proof {
                lemma_factor_monotone((p.cost - m) as int, (p.cost - m) as int);
            }
            assert(p.weight * f <= WEIGHT_ONE * WEIGHT_ONE) by (nonlinear_arith)
                requires
                    p.weight <= WEIGHT_ONE,
                    f <= WEIGHT_ONE,
            ;
            ((p.weight as u128 * f as u128) / (WEIGHT_ONE as u128)) as u64
        };
        proof {
            lemma_settled_weight_bounds(p, m as int);
        }
        out.push(Particle { position: p.position, weight: w, cost: 0 });
        i = i + 1;
    }
    proof {
        assert(out@ =~= settled(s));
    }
    out
}

/// The belief over one agent's position: a weighted particle population and
/// the effective-sample-size threshold `tau`, in thousandths.
#[derive(Clone, Debug, PartialEq)]
pub struct ParticleFilter {
    pub particles: Vec<Particle>,
    pub tau_permille: u64,
}

impl ParticleFilter {
    pub open spec fn wf(&self) -> bool {
        &&& 0 < self.particles.len() <= MAX_PARTICLES
        &&& weights_bounded(self.particles@)
        &&& costs_bounded(self.particles@)
        &&& positions_bounded(self.particles@)
        &&& 0 < self.tau_permille <= 1000
    }

    /// Draws `num_particles` positions from the enclosure, each with the
    /// uniform weight `WEIGHT_ONE / num_particles`.
    pub fn new<E: Enclosure>(enclosure: &E, num_particles: usize, tau_permille: u64) -> (r:
        Result<Self, ConstructionError>)
        requires
            enclosure.wf(),
        ensures
            r is Ok <==> (0 < num_particles <= MAX_PARTICLES && 0 < tau_permille <= 1000),
            r matches Err(e) ==> e == ConstructionError::BadCount || e
                == ConstructionError::OutOfRange,
            r matches Ok(f) ==> {
                &&& f.wf()
                &&& f.particles.len() == num_particles
                &&& f.tau_permille == tau_permille
                &&& uniform(f.particles@)
                &&& forall|i: int|
                    0 <= i < f.particles.len() ==> enclosure.contains(
                        #[trigger] f.particles@[i].position,
                    )
            },
    {
        if num_particles == 0 || num_particles > MAX_PARTICLES {
            return Err(ConstructionError::BadCount);
        }
        if tau_permille == 0 || tau_permille > 1000 {
            return Err(ConstructionError::OutOfRange);
        }
        let w = WEIGHT_ONE / (num_particles as u64);
        proof {
            lemma_div_is_ordered(1, num_particles as int, num_particles as int);
            vstd::arithmetic::div_mod::lemma_div_is_ordered_by_denominator(
                WEIGHT_ONE as int,
                1,
                num_particles as int,
            );
        }
        let mut particles: Vec<Particle> = Vec::new();
        let mut i: usize = 0;
        while i < num_particles
            invariant
                enclosure.wf(),
                0 < num_particles <= MAX_PARTICLES,
                w == (WEIGHT_ONE as int) / (num_particles as int),
                w <= WEIGHT_ONE,
                i <= num_particles,
                particles.len() == i,
                forall|k: int|
                    0 <= k < i ==> (#[trigger] particles@[k]).weight == w
                        && particles@[k].cost == 0 && particles@[k].position.bounded() && enclosure.contains(
                        particles@[k].position,
                    ),
            decreases num_particles - i,
        {
            let p = enclosure.sample();
            particles.push(Particle { position: p, weight: w, cost: 0 });
            i = i + 1;
        }
        Ok(ParticleFilter { particles, tau_permille })
    }

    /// Turns every particle's cost into its weight, relative to the smallest
    /// cost, and divides the weights by their total so that they sum to one;
    /// costs return to zero. A total of zero is a degenerate posterior: the
    /// filter is left unchanged and the error returned.
    pub fn normalize_weights(&mut self) -> (r: Result<(), DegenerateFilterError>)
        requires
            old(self).wf(),
        ensures
            final(self).wf(),
            final(self).tau_permille == old(self).tau_permille,
            r is Err <==> total_weight(settled(old(self).particles@)) == 0,
            r is Err ==> final(self).particles@ == old(self).particles@,
            r is Ok ==> final(self).particles@ == posterior(old(self).particles@),
            r is Ok ==> WEIGHT_ONE - old(self).particles.len() < total_weight(
                final(self).particles@,
            ) <= WEIGHT_ONE,
    {
        let ghost s0 = self.particles@;
        let settled_v = settle(&self.particles);
        let ghost s = settled_v@;
        let total = total_of(&settled_v);
        if total == 0 {
            return Err(DegenerateFilterError);
        }
        let n = settled_v.len();
        let mut out: Vec<Particle> = Vec::new();
        let mut i: usize = 0;
        while i < n
            invariant
                s == settled_v@,
                s0 == self.particles@,
                s.len() == s0.len(),
                positions_bounded(s0),
                forall|k: int| 0 <= k < n ==> (#[trigger] s[k]).position == s0[k].position,
                n == s.len(),
                weights_bounded(s),
                total == total_weight(s),
                0 < total <= n * WEIGHT_ONE,
                n <= MAX_PARTICLES,
                i <= n,
                out.len() == i,
                forall|k: int|
                    0 <= k < i ==> (#[trigger] out@[k]).weight == s[k].weight * WEIGHT_ONE / (
                    total as int) && out@[k].position == s[k].position && out@[k].weight
                        <= WEIGHT_ONE && out@[k].cost == 0,
            decreases n - i,
        {
            let p = settled_v[i];
            proof {
                lemma_weight_below_total(s, i as int);
            }
            assert(p.weight * WEIGHT_ONE <= total * WEIGHT_ONE) by (nonlinear_arith)
                requires
                    p.weight <= total,
            ;
            let q = (p.weight as u128 * WEIGHT_ONE as u128) / total;
            proof {
                lemma_div_is_ordered(
                    p.weight * WEIGHT_ONE,
                    total * WEIGHT_ONE,
                    total as int,
                );
                assert((total * WEIGHT_ONE) / (total as int) == WEIGHT_ONE) by (nonlinear_arith)
                    requires
                        total > 0,
                ;
            }
            out.push(Particle { position: p.position, weight: q as u64, cost: 0 });
            i = i + 1;
        }
        self.particles = out;
        proof {
            lemma_normalized_sums_to_one(s, self.particles@);
            assert(self.particles@ =~= normalized(s));
            assert forall|k: int| 0 <= k < n implies (#[trigger] self.particles@[k]).position.bounded() by {
                assert(s[k].position == s0[k].position);
            }
        }
        Ok(())
    }

    /// Adds to every particle's cost the scaled squared residual between the
    /// observed range to `reference` and the particle's predicted range.
    pub fn update_weights(&mut self, observed: i64, reference: Vec3, sigma: u64)
        requires
            old(self).wf(),
            reference.bounded(),
            -RANGE_MAX <= observed <= RANGE_MAX,
            0 < sigma <= SIGMA_MAX,
        ensures
            final(self).wf(),
            final(self).tau_permille == old(self).tau_permille,
            final(self).particles@ == reweight_seq(
                old(self).particles@,
                Observation { range: observed, reference, sigma },
            ),
    {
        let ghost s = self.particles@;
        let ghost o = Observation { range: observed, reference, sigma };
        let n = self.particles.len();
        let mut out: Vec<Particle> = Vec::new();
        let mut i: usize = 0;
        while i < n
            invariant
                s == self.particles@,
                n == s.len(),
                costs_bounded(s),
                positions_bounded(s),
                o == (Observation { range: observed, reference, sigma }),
                reference.bounded(),
                -RANGE_MAX <= observed <= RANGE_MAX,
                0 < sigma <= SIGMA_MAX,
                i <= n,
                out.len() == i,
                forall|k: int|
                    0 <= k < i ==> (#[trigger] out@[k]) == observe(s[k], o) && out@[k].cost
                        <= COST_MAX,
            decreases n - i,
        {
            let p = self.particles[i];
            assert(s[i as int].cost <= COST_MAX);
            let d = distance(&p.position, &reference);
            let err = observed - d as i64;
            let inc = observation_cost(err, sigma);
            proof {
                let e = err as int;
                assert(0 * 0 <= e * e) by (nonlinear_arith);
                lemma_cost_monotone(0, e, sigma as int);
            }
            let c = accumulate_cost(p.cost, inc);
            out.push(Particle { position: p.position, weight: p.weight, cost: c });
            i = i + 1;
        }
        self.particles = out;
        proof {
            assert(self.particles@ =~= reweight_seq(s, o));
        }
    }

    /// Adds the cost of each observation in turn, accumulating independent
    /// observations into one update before normalization.
    pub fn fuse(&mut self, obs: &Vec<Observation>)
        requires
            old(self).wf(),
            forall|k: int| 0 <= k < obs.len() ==> (#[trigger] obs@[k]).wf(),
        ensures
            final(self).wf(),
            final(self).tau_permille == old(self).tau_permille,
            final(self).particles@ == reweight_all(old(self).particles@, obs@),
            final(self).particles.len() == old(self).particles.len(),
    {
        proof {
            lemma_reweight_all_len(self.particles@, obs@);
        }
        let ghost s = self.particles@;
        let mut k: usize = 0;
        assert(obs@.take(0) =~= Seq::<Observation>::empty());
        while k < obs.len()
            invariant
                self.wf(),
                self.tau_permille == old(self).tau_permille,
                s == old(self).particles@,
                forall|m: int| 0 <= m < obs.len() ==> (#[trigger] obs@[m]).wf(),
                k <= obs.len(),
                self.particles@ == reweight_all(s, obs@.take(k as int)),
            decreases obs.len() - k,
        {
            let o = obs[k];
            assert(o.wf());
            let ghost before = self.particles@;
            self.update_weights(o.range, o.reference, o.sigma);
            proof {
                let t = obs@.take(k + 1);
                assert(t.drop_last() =~= obs@.take(k as int));
                assert(t.last() == o);
                assert(self.particles@ =~= reweight_seq(before, o));
            }
            k = k + 1;
        }
        assert(obs@.take(obs.len() as int) =~= obs@);
    }

    /// Moves every particle by `dt` milliseconds with the motion model's
    /// prediction, at the shared measured velocity and each under its own
    /// drawn acceleration `accels[i]`.
    pub fn update_position<M: DynamicsModel>(
        &mut self,
        model: &M,
        dt: u64,
        velocity: Vec3,
        accels: &Vec<Vec3>,
    )
        requires
            old(self).wf(),
            dt <= DT_MAX,
            accels.len() == old(self).particles.len(),
        ensures
            final(self).wf(),
            final(self).tau_permille == old(self).tau_permille,
            final(self).particles.len() == old(self).particles.len(),
            predicted_from(
                *model,
                dt as int,
                velocity,
                accels@,
                old(self).particles@,
                final(self).particles@,
            ),
    {
        let ghost s = self.particles@;
        let n = self.particles.len();
        let mut out: Vec<Particle> = Vec::new();
        let mut i: usize = 0;
        while i < n
            invariant
                s == self.particles@,
                n == s.len(),
                accels.len() == n,
                weights_bounded(s),
                costs_bounded(s),
                positions_bounded(s),
                dt <= DT_MAX,
                i <= n,
                out.len() == i,
                forall|k: int|
                    0 <= k < i ==> (#[trigger] out@[k]).weight == s[k].weight && out@[k].cost
                        == s[k].cost && out@[k].position
                        == model.predicted(dt as int, s[k].position, velocity, accels@[k])
                        && out@[k].position.bounded(),
            decreases n - i,
        {
            let p = self.particles[i];
            assert(s[i as int].position.bounded());
            let q = model.predict_next_state(dt, p.position, velocity, accels[i]);
            out.push(Particle { position: q, weight: p.weight, cost: p.cost });
            i = i + 1;
        }
        self.particles = out;
        proof {
            assert(self.particles.len() == s.len());
        }
    }

    fn sum_of_squares(&self) -> (r: u128)
        requires
            self.wf(),
        ensures
            r == sum_sq(self.particles@),
            r <= self.particles.len() * (WEIGHT_ONE * WEIGHT_ONE),
    {
        let ghost s = self.particles@;
        let n = self.particles.len();
        let mut sum: u128 = 0;
        let mut i: usize = 0;
        while i < n
            invariant
                s == self.particles@,
                n == s.len() <= MAX_PARTICLES,
                weights_bounded(s),
                i <= n,
                sum == prefix_sq(s, i as int),
            decreases n - i,
        {
            proof {
                lemma_prefix_sq_bound(s, i as int);
                lemma_prefix_sq_bound(s, i + 1);
            }
            let w = self.particles[i].weight as u128;
            assert(w * w <= WEIGHT_ONE * WEIGHT_ONE) by (nonlinear_arith)
                requires
                    w <= WEIGHT_ONE,
            ;
            sum = sum + w * w;
            i = i + 1;
        }
        proof {
            lemma_prefix_sq_bound(s, n as int);
        }
        sum
    }

    /// Effective sample size `(sum w)^2 / sum w^2`, rounded down.
    pub fn ess(&self) -> (r: u128)
        requires
            self.wf(),
        ensures
            r == ess_spec(self.particles@),
    {
        let t = total_of(&self.particles);
        let q = self.sum_of_squares();
        if q == 0 {
            return 0;
        }
        assert(t * t <= 0x100_0000_0000_0000_0000_0000_0000) by (nonlinear_arith)
            requires
                t <= 0x10_0000_0000_0000,
        ;
        (t * t) / q
    }

    /// Whether the effective sample size has fallen below `tau * N`
    /// (strictly), which calls for resampling.
    pub fn needs_resample(&self) -> (r: bool)
        requires
            self.wf(),
        ensures
            r == needs_resample_spec(self.particles@, self.tau_permille as int),
    {
        let t = total_of(&self.particles);
        let q = self.sum_of_squares();
        let n = self.particles.len() as u128;
        assert(1000 * (t * t) <= 0x4_0000_0000_0000_0000_0000_0000_0000) by (nonlinear_arith)
            requires
                t <= 0x10_0000_0000_0000,
        ;
        assert((self.tau_permille as u128) * n <= 0x4000_0000) by (nonlinear_arith)
            requires
                self.tau_permille <= 1000,
                n <= 0x10_0000,
        ;
        assert((self.tau_permille as u128) * n * q <= 0x4_0000_0000_0000_0000_0000_0000_0000)
            by (nonlinear_arith)
            requires
                (self.tau_permille as u128) * n <= 0x4000_0000,
                q <= n * 0x1_0000_0000_0000_0000,
                n <= 0x10_0000,
        ;
        1000 * (t * t) < (self.tau_permille as u128) * n * q
    }

    /// Systematic resampling with offset `u0`: each of the `N` draw points
    /// `(u0 + j * W) / N` copies the particle whose step of the cumulative
    /// weight curve holds it, and all weights become uniform. Duplicates are
    /// kept, so the population size is preserved.
    pub fn resample_with_offset(&mut self, u0: u64)
        requires
            old(self).wf(),
            u0 < total_weight(old(self).particles@),
        ensures
            final(self).wf(),
            final(self).tau_permille == old(self).tau_permille,
            resampled_from(old(self).particles@, final(self).particles@, u0 as int),
    {
        let ghost s = self.particles@;
        let idx = systematic_indices(&self.particles, u0 as u128);
        let n = self.particles.len();
        let w = WEIGHT_ONE / (n as u64);
        proof {
            vstd::arithmetic::div_mod::lemma_div_is_ordered_by_denominator(
                WEIGHT_ONE as int,
                1,
                n as int,
            );
        }
        let mut out: Vec<Particle> = Vec::new();
        let mut j: usize = 0;
        while j < n
            invariant
                s == self.particles@,
                n == s.len(),
                0 < n,
                positions_bounded(s),
                idx.len() == n,
                forall|k: int| 0 <= k < n ==> selects(s, u0 as int, k, #[trigger] idx@[k] as int),
                w == (WEIGHT_ONE as int) / (n as int),
                w <= WEIGHT_ONE,
                j <= n,
                out.len() == j,
                forall|k: int|
                    0 <= k < j ==> (#[trigger] out@[k]).weight == w && out@[k].cost == 0
                        && out@[k].position
                        == s[idx@[k] as int].position,
            decreases n - j,
        {
            let i = idx[j];
            assert(selects(s, u0 as int, j as int, i as int));
            out.push(Particle { position: self.particles[i].position, weight: w, cost: 0 });
            j = j + 1;
        }
        self.particles = out;
        proof {
            let t = self.particles@;
            assert forall|j: int| 0 <= j < t.len() implies #[trigger] copies_selected(
                s,
                t,
                u0 as int,
                j,
            ) by {
                assert(selects(s, u0 as int, j, idx@[j] as int));
            }
            assert forall|k: int| 0 <= k < t.len() implies #[trigger] t[k].position.bounded() by {
                assert(selects(s, u0 as int, k, idx@[k] as int));
            }
            assert(t.len() == s.len());
            assert(uniform(t));
        }
    }

    /// The resampling gate: when the effective sample size has fallen below
    /// `tau * N` (strictly), systematic resampling with an offset drawn
    /// uniformly from the thread's random generator, and `Ok(true)`;
    /// otherwise the population is retained unchanged, and `Ok(false)`. A
    /// population without weight cannot be resampled: it is left unchanged
    /// and the error returned.
    pub fn resample(&mut self) -> (r: Result<bool, DegenerateFilterError>)
        requires
            old(self).wf(),
        ensures
            final(self).wf(),
            final(self).tau_permille == old(self).tau_permille,
            r is Err <==> total_weight(old(self).particles@) == 0,
            r is Err ==> final(self).particles@ == old(self).particles@,
            r is Ok ==> gated(
                old(self).particles@,
                final(self).particles@,
                old(self).tau_permille as int,
            ),
            r matches Ok(b) ==> b == needs_resample_spec(
                old(self).particles@,
                old(self).tau_permille as int,
            ),
    {
        let total = total_of(&self.particles);
        if total == 0 {
            return Err(DegenerateFilterError);
        }
        if !self.needs_resample() {
            return Ok(false);
        }
        let u0 = random_in(0, (total - 1) as i64) as u64;
        self.resample_with_offset(u0);
        Ok(true)
    }

    /// The posterior mean: the weighted average of the particle positions,
    /// rounded down on each axis. A population without weight has none.
    pub fn posterior_mean(&self) -> (r: Result<Vec3, DegenerateFilterError>)
        requires
            self.wf(),
        ensures
            r is Err <==> total_weight(self.particles@) == 0,
            r matches Ok(m) ==> m.bounded() && m.x == mean_axis(self.particles@, 0) && m.y
                == mean_axis(self.particles@, 1) && m.z == mean_axis(self.particles@, 2),
    {
        let ghost s = self.particles@;
        let total = total_of(&self.particles);
        if total == 0 {
            return Err(DegenerateFilterError);
        }
        let n = self.particles.len();
        let mut mx: i128 = 0;
        let mut my: i128 = 0;
        let mut mz: i128 = 0;
        let mut i: usize = 0;
        while i < n
            invariant
                s == self.particles@,
                n == s.len() <= MAX_PARTICLES,
                weights_bounded(s),
                positions_bounded(s),
                i <= n,
                mx == moment(s, i as int, 0),
                my == moment(s, i as int, 1),
                mz == moment(s, i as int, 2),
            decreases n - i,
        {
            proof {
                lemma_moment_bound(s, i as int, 0);
                lemma_moment_bound(s, i as int, 1);
                lemma_moment_bound(s, i as int, 2);
                lemma_prefix_bound(s, i as int);
            }
            let p = self.particles[i];
            assert(s[i as int].position.bounded());
            let w = p.weight as i128;
            assert(COORD_MAX * prefix_weight(s, i as int) <= 0x1000_0000_0000_0000_0000_0000)
                by (nonlinear_arith)
                requires
                    0 <= prefix_weight(s, i as int) <= i * WEIGHT_ONE,
                    i <= 0x10_0000,
            ;
            assert(-0x100_0000_0000_0000_0000 <= w * p.position.x <= 0x100_0000_0000_0000_0000
                && -0x100_0000_0000_0000_0000 <= w * p.position.y <= 0x100_0000_0000_0000_0000
                && -0x100_0000_0000_0000_0000 <= w * p.position.z <= 0x100_0000_0000_0000_0000)
                by (nonlinear_arith)
                requires
                    0 <= w <= 0x1_0000_0000,
                    -0x100_0000_0000 <= p.position.x <= 0x100_0000_0000,
                    -0x100_0000_0000 <= p.position.y <= 0x100_0000_0000,
                    -0x100_0000_0000 <= p.position.z <= 0x100_0000_0000,
            ;
            mx = mx + w * (p.position.x as i128);
            my = my + w * (p.position.y as i128);
            mz = mz + w * (p.position.z as i128);
            i = i + 1;
        }
        proof {
            lemma_moment_bound(s, n as int, 0);
            lemma_moment_bound(s, n as int, 1);
            lemma_moment_bound(s, n as int, 2);
            lemma_prefix_bound(s, n as int);
            assert(COORD_MAX * total <= 0x1000_0000_0000_0000_0000_0000) by (nonlinear_arith)
                requires
                    0 <= total <= n * WEIGHT_ONE,
                    n <= 0x10_0000,
            ;
        }
        let t = total as i128;
        let x = floor_div(mx, t);
        let y = floor_div(my, t);
        let z = floor_div(mz, t);
        proof {
            lemma_mean_bounded(mx as int, t as int);
            lemma_mean_bounded(my as int, t as int);
            lemma_mean_bounded(mz as int, t as int);
        }
        Ok(Vec3 { x: x as i64, y: y as i64, z: z as i64 })
    }
}

/// Threshold a filter gets by default: resample below half the population.
pub const DEFAULT_TAU_PERMILLE: u64 = 500;

impl Default for ParticleFilter {
    /// A single particle at the origin holding all the weight.
    fn default() -> (r: Self)
        ensures
            r.wf(),
            r.particles.len() == 1,
            r.particles@[0].position == Vec3::zeros_spec(),
            r.particles@[0].weight == WEIGHT_ONE,
            r.tau_permille == DEFAULT_TAU_PERMILLE,
    {
        let mut particles: Vec<Particle> = Vec::new();
        particles.push(Particle { position: Vec3::zeros(), weight: WEIGHT_ONE, cost: 0 });
        ParticleFilter { particles, tau_permille: DEFAULT_TAU_PERMILLE }
    }
}

proof fn lemma_mean_bounded(m: int, t: int)
    requires
        t > 0,
        -COORD_MAX * t <= m <= COORD_MAX * t,
    ensures
        -COORD_MAX <= m / t <= COORD_MAX,
{
    lemma_div_is_ordered(m, COORD_MAX * t, t);
    lemma_div_is_ordered(-COORD_MAX * t, m, t);
    assert((COORD_MAX * t) / t == COORD_MAX) by (nonlinear_arith)
        requires
            t > 0,
    ;
    assert((-COORD_MAX * t) / t == -COORD_MAX) by (nonlinear_arith)
        requires
            t > 0,
    ;
}

} // verus!
