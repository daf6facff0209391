use crate::particle_filter::{Particle, MAX_PARTICLES, WEIGHT_ONE};
use vstd::arithmetic::div_mod::{lemma_div_is_ordered, lemma_fundamental_div_mod};
use vstd::prelude::*;

verus! {

/// Sum of the weights of the first `k` particles.
pub open spec fn prefix_weight(s: Seq<Particle>, k: int) -> int
    decreases k,
{
    if k <= 0 || k > s.len() {
        0
    } else {
        prefix_weight(s, k - 1) + s[k - 1].weight
    }
}

/// Sum of all weights.
pub open spec fn total_weight(s: Seq<Particle>) -> int {
    prefix_weight(s, s.len() as int)
}

/// Every weight is at most `WEIGHT_ONE`.
pub open spec fn weights_bounded(s: Seq<Particle>) -> bool {
    forall|i: int| 0 <= i < s.len() ==> #[trigger] s[i].weight <= WEIGHT_ONE
}

/// Every particle carries the uniform weight `WEIGHT_ONE / N`.
pub open spec fn uniform(s: Seq<Particle>) -> bool {
    forall|i: int| 0 <= i < s.len() ==> #[trigger] s[i].weight == (WEIGHT_ONE as int) / (s.len() as int)
}

pub proof fn lemma_prefix_monotone(s: Seq<Particle>, i: int, k: int)
    requires
        0 <= i <= k <= s.len(),
    ensures
        prefix_weight(s, i) <= prefix_weight(s, k),
    decreases k - i,
{
    if i < k {
        lemma_prefix_monotone(s, i, k - 1);
    }
}

pub proof fn lemma_prefix_bound(s: Seq<Particle>, k: int)
    requires
        weights_bounded(s),
        0 <= k <= s.len(),
    ensures
        0 <= prefix_weight(s, k) <= k * WEIGHT_ONE,
    decreases k,
{
    if k > 0 {
        lemma_prefix_bound(s, k - 1);
        assert(s[k - 1].weight <= WEIGHT_ONE);
    }
}

/// Sum of all weights, computed exactly.
pub fn total_of(particles: &Vec<Particle>) -> (r: u128)
    requires
        particles.len() <= MAX_PARTICLES,
        weights_bounded(particles@),
    ensures
        r == total_weight(particles@),
        r <= particles.len() * WEIGHT_ONE,
{
    let mut sum: u128 = 0;
    let mut i: usize = 0;
    while i < particles.len()
        invariant
            i <= particles.len() <= MAX_PARTICLES,
            weights_bounded(particles@),
            sum == prefix_weight(particles@, i as int),
        decreases particles.len() - i,
    {
        proof {
            lemma_prefix_bound(particles@, i as int);
        }
        sum = sum + particles[i].weight as u128;
        i = i + 1;
    }
    proof {
        lemma_prefix_bound(particles@, i as int);
    }
    sum
}

/// Every particle position is bounded.
pub open spec fn positions_bounded(s: Seq<Particle>) -> bool {
    forall|i: int| 0 <= i < s.len() ==> #[trigger] s[i].position.bounded()
}

/// `t` is `s` with every weight divided by `w`, as a fraction of `WEIGHT_ONE`.
pub open spec fn normalized_from(s: Seq<Particle>, t: Seq<Particle>, w: int) -> bool {
    &&& t.len() == s.len()
    &&& forall|i: int|
        0 <= i < s.len() ==> #[trigger] t[i].weight == s[i].weight * WEIGHT_ONE / w
            && t[i].position == s[i].position
}

pub proof fn lemma_weight_below_total(s: Seq<Particle>, i: int)
    requires
        0 <= i < s.len(),
    ensures
        s[i].weight <= total_weight(s),
{
    lemma_prefix_monotone(s, i + 1, s.len() as int);
    lemma_prefix_monotone(s, 0, i);
}

pub proof fn lemma_normalized_prefix(s: Seq<Particle>, t: Seq<Particle>, w: int, k: int)
    requires
        w > 0,
        normalized_from(s, t, w),
        0 <= k <= s.len(),
    ensures
        prefix_weight(t, k) * w <= WEIGHT_ONE * prefix_weight(s, k),
        WEIGHT_ONE * prefix_weight(s, k) <= (prefix_weight(t, k) + k) * w - k,
    decreases k,
{
    if k > 0 {
        lemma_normalized_prefix(s, t, w, k - 1);
        let a = s[k - 1].weight * WEIGHT_ONE;
        let q = t[k - 1].weight as int;
        lemma_fundamental_div_mod(a, w);
        assert(q == a / w);
        let pt = prefix_weight(t, k - 1);
        let ps = prefix_weight(s, k - 1);
        assert(prefix_weight(t, k) == pt + q);
        assert(prefix_weight(s, k) == ps + s[k - 1].weight);
        assert(q * w <= a <= q * w + w - 1) by (nonlinear_arith)
            requires
                a == w * q + a % w,
                0 <= a % w < w,
        ;
        assert((pt + q) * w == pt * w + q * w) by (nonlinear_arith);
        assert((pt + q + k) * w - k == ((pt + (k - 1)) * w - (k - 1)) + q * w + w - 1)
            by (nonlinear_arith);
        assert(WEIGHT_ONE * (ps + s[k - 1].weight) == WEIGHT_ONE * ps + a) by (nonlinear_arith)
            requires
                a == s[k - 1].weight * WEIGHT_ONE,
        ;
    }
}

/// After normalization the weights sum to one, up to one unit of rounding
/// per particle: `WEIGHT_ONE - N < sum <= WEIGHT_ONE`.
pub proof fn lemma_normalized_sums_to_one(s: Seq<Particle>, t: Seq<Particle>)
    requires
        total_weight(s) > 0,
        normalized_from(s, t, total_weight(s)),
    ensures
        WEIGHT_ONE - s.len() < total_weight(t) <= WEIGHT_ONE,
{
    let w = total_weight(s);
    let n = s.len() as int;
    lemma_normalized_prefix(s, t, w, n);
    let tt = total_weight(t);
    assert(tt <= WEIGHT_ONE) by (nonlinear_arith)
        requires
            tt * w <= WEIGHT_ONE * w,
            w > 0,
    ;
    assert(WEIGHT_ONE < tt + n) by (nonlinear_arith)
        requires
            WEIGHT_ONE * w <= (tt + n) * w - n,
            w > 0,
            n > 0,
    ;
}

proof fn lemma_uniform_prefix(s: Seq<Particle>, k: int)
    requires
        s.len() > 0,
        uniform(s),
        0 <= k <= s.len(),
    ensures
        prefix_weight(s, k) == k * ((WEIGHT_ONE as int) / (s.len() as int)),
    decreases k,
{
    if k > 0 {
        lemma_uniform_prefix(s, k - 1);
        let c = (WEIGHT_ONE as int) / (s.len() as int);
        assert(s[k - 1].weight == c);
        assert((k - 1) * c + c == k * c) by (nonlinear_arith);
    } else {
        assert(0 * ((WEIGHT_ONE as int) / (s.len() as int)) == 0);
    }
}

/// A population with uniform weights `WEIGHT_ONE / N` sums to one, up to one
/// unit of rounding per particle: `WEIGHT_ONE - N < sum <= WEIGHT_ONE`.
pub proof fn lemma_uniform_sums_to_one(s: Seq<Particle>)
    requires
        s.len() > 0,
        uniform(s),
    ensures
        WEIGHT_ONE - s.len() < total_weight(s) <= WEIGHT_ONE,
{
    let n = s.len() as int;
    lemma_uniform_prefix(s, n);
    let c = (WEIGHT_ONE as int) / n;
    lemma_fundamental_div_mod(WEIGHT_ONE as int, n);
    assert(n * c <= WEIGHT_ONE < n * c + n) by (nonlinear_arith)
        requires
            WEIGHT_ONE == n * c + (WEIGHT_ONE as int) % n,
            0 <= (WEIGHT_ONE as int) % n < n,
    ;
}

/// Every weight of `s` divided by the total, as a fraction of `WEIGHT_ONE`.
pub open spec fn normalized(s: Seq<Particle>) -> Seq<Particle> {
    Seq::new(
        s.len(),
        |i: int|
            Particle {
                position: s[i].position,
                weight: (s[i].weight * WEIGHT_ONE / total_weight(s)) as u64,
                cost: 0,
            },
    )
}

pub proof fn lemma_equal_prefix(s: Seq<Particle>, c: int, m: int)
    requires
        0 <= m <= s.len(),
        forall|i: int| 0 <= i < s.len() ==> #[trigger] s[i].weight == c,
    ensures
        prefix_weight(s, m) == m * c,
    decreases m,
{
    if m > 0 {
        lemma_equal_prefix(s, c, m - 1);
        assert((m - 1) * c + c == m * c) by (nonlinear_arith);
    } else {
        assert(0 * c == 0);
    }
}

pub proof fn lemma_normalized_weight(s: Seq<Particle>, i: int)
    requires
        total_weight(s) > 0,
        0 <= i < s.len(),
    ensures
        normalized(s)[i].weight == s[i].weight * WEIGHT_ONE / total_weight(s),
{
    lemma_weight_below_total(s, i);
    let w = total_weight(s);
    assert(s[i].weight * WEIGHT_ONE <= w * WEIGHT_ONE) by (nonlinear_arith)
        requires
            s[i].weight <= w,
    ;
    lemma_div_is_ordered(s[i].weight * WEIGHT_ONE, w * WEIGHT_ONE, w);
    lemma_div_is_ordered(0, s[i].weight * WEIGHT_ONE, w);
    assert((w * WEIGHT_ONE) / w == WEIGHT_ONE) by (nonlinear_arith)
        requires
            w > 0,
    ;
}

} // verus!
