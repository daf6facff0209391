use crate::particle_filter::{Particle, MAX_PARTICLES, WEIGHT_ONE};
use crate::weights::{
    lemma_equal_prefix,
    lemma_prefix_bound,
    lemma_prefix_monotone,
    prefix_weight,
    total_of,
    total_weight,
    uniform,
    weights_bounded,
};
use vstd::prelude::*;

verus! {

/// Systematic resampling picks particle `i` for draw point `j`: the draw point
/// `(u0 + j * W) / N` lies in the `i`-th step `[prefix(i), prefix(i + 1))` of the
/// cumulative weight curve, where `W` is the total weight.
pub open spec fn selects(s: Seq<Particle>, u0: int, j: int, i: int) -> bool {
    &&& 0 <= i < s.len()
    &&& s.len() * prefix_weight(s, i) <= u0 + j * total_weight(s)
    &&& u0 + j * total_weight(s) < s.len() * prefix_weight(s, i + 1)
}

/// Systematic resampling: for each of the `N` evenly spaced draw points
/// `(u0 + j * W) / N`, the index of the particle whose step of the cumulative
/// weight curve holds it. Duplicates are kept, so the result has `N` entries.
pub fn systematic_indices(particles: &Vec<Particle>, u0: u128) -> (r: Vec<usize>)
    requires
        0 < particles.len() <= MAX_PARTICLES,
        weights_bounded(particles@),
        u0 < total_weight(particles@),
    ensures
        r.len() == particles.len(),
        forall|j: int| 0 <= j < r.len() ==> selects(particles@, u0 as int, j, #[trigger] r[j] as int),
{
    let ghost s = particles@;
    let n = particles.len();
    let total = total_of(particles);
    let nn = n as u128;
    let mut out: Vec<usize> = Vec::new();
    let mut i: usize = 0;
    let mut cum: u128 = particles[0].weight as u128;
    let mut target: u128 = u0;
    let mut j: usize = 0;
    proof {
        lemma_prefix_bound(s, n as int);
        assert(prefix_weight(s, 1) == s[0].weight) by {
            assert(prefix_weight(s, 0) == 0);
        }
        assert(nn * prefix_weight(s, 0) == 0) by (nonlinear_arith)
            requires
                prefix_weight(s, 0) == 0,
        ;
    }
    while j < n
        invariant
            n == s.len(),
            particles@ == s,
            0 < n <= MAX_PARTICLES,
            nn == n,
            weights_bounded(s),
            total == total_weight(s),
            0 < total <= n * WEIGHT_ONE,
            u0 < total,
            j <= n,
            i < n,
            cum == prefix_weight(s, i + 1),
            target == u0 + j * total,
            j < n ==> nn * prefix_weight(s, i as int) <= target,
            out.len() == j,
            forall|k: int| 0 <= k < j ==> selects(s, u0 as int, k, #[trigger] out[k] as int),
        decreases n - j,
    {
        assert(target < nn * total) by (nonlinear_arith)
            requires
                target == u0 + j * total,
                u0 < total,
                j + 1 <= nn,
        ;
        assert(nn * total <= 0x1_0000_0000_0000_0000_0000) by (nonlinear_arith)
            requires
                nn <= 0x10_0000,
                total <= nn * 0x1_0000_0000,
        ;
        proof {
            lemma_prefix_monotone(s, i + 1, n as int);
        }
        assert(nn * cum <= nn * total) by (nonlinear_arith)
            requires
                cum <= total,
        ;
        while nn * cum <= target
            invariant
                n == s.len(),
                particles@ == s,
                0 < n <= MAX_PARTICLES,
                nn == n,
                weights_bounded(s),
                total == total_weight(s),
                i < n,
                cum == prefix_weight(s, i + 1),
                cum <= total,
                total <= n * WEIGHT_ONE,
                nn * cum <= nn * total,
                target < nn * total,
                nn * total <= 0x1_0000_0000_0000_0000_0000,
                nn * prefix_weight(s, i as int) <= target,
            decreases n - i,
        {
            if i + 1 >= n {
                assert(nn * cum == nn * total);
                assert(false);
            }
            i = i + 1;
            cum = cum + particles[i].weight as u128;
            proof {
                lemma_prefix_monotone(s, i + 1, n as int);
            }
            assert(nn * cum <= nn * total) by (nonlinear_arith)
                requires
                    cum <= total,
            ;
        }
        let ghost before = out@;
        out.push(i);
        proof {
            assert(selects(s, u0 as int, j as int, i as int));
            assert forall|k: int| 0 <= k < j + 1 implies selects(s, u0 as int, k, #[trigger] out[k] as int) by {
                if k < j {
                    assert(out[k] == before[k]);
                }
            }
        }
        target = target + total;
        j = j + 1;
        assert(target == u0 + j * total) by (nonlinear_arith)
            requires
                target == u0 + (j - 1) * total + total,
        ;
    }
    out
}

/// `t` is the outcome of systematic resampling of `s` with offset `u0`: the
/// `j`-th particle of `t` sits where the particle selected for the `j`-th draw
/// point sat, and all weights are uniform.
pub open spec fn resampled_from(s: Seq<Particle>, t: Seq<Particle>, u0: int) -> bool {
    &&& t.len() == s.len()
    &&& uniform(t)
    &&& forall|j: int| 0 <= j < t.len() ==> #[trigger] copies_selected(s, t, u0, j)
}

/// The `j`-th particle of `t` sits where the particle of `s` selected for the
/// `j`-th draw point sat.
pub open spec fn copies_selected(s: Seq<Particle>, t: Seq<Particle>, u0: int, j: int) -> bool {
    exists|i: int| #[trigger] selects(s, u0, j, i) && t[j].position == s[i].position
}

proof fn lemma_degenerate_prefix(s: Seq<Particle>, k: int, m: int)
    requires
        0 <= k < s.len(),
        0 <= m <= s.len(),
        forall|i: int| 0 <= i < s.len() && i != k ==> #[trigger] s[i].weight == 0,
    ensures
        m <= k ==> prefix_weight(s, m) == 0,
        m > k ==> prefix_weight(s, m) == s[k].weight,
    decreases m,
{
    if m > 0 {
        lemma_degenerate_prefix(s, k, m - 1);
    }
}

/// Systematic resampling of a population whose whole weight rests on particle
/// `k` selects `k` for every draw point.
pub proof fn lemma_degenerate_selects_only(s: Seq<Particle>, k: int, u0: int, j: int, i: int)
    requires
        0 <= k < s.len(),
        s[k].weight > 0,
        forall|m: int| 0 <= m < s.len() && m != k ==> #[trigger] s[m].weight == 0,
        0 <= u0 < total_weight(s),
        0 <= j < s.len(),
        selects(s, u0, j, i),
    ensures
        i == k,
{
    let n = s.len() as int;
    lemma_degenerate_prefix(s, k, n);
    lemma_degenerate_prefix(s, k, i);
    lemma_degenerate_prefix(s, k, i + 1);
    let w = total_weight(s);
    if i > k {
        assert(n * w <= u0 + j * w);
        assert(u0 + j * w < n * w) by (nonlinear_arith)
            requires
                0 <= u0 < w,
                0 <= j < n,
        ;
    } else if i < k {
        assert(n * prefix_weight(s, i + 1) == 0) by (nonlinear_arith)
            requires
                prefix_weight(s, i + 1) == 0,
        ;
        assert(u0 + j * w >= 0) by (nonlinear_arith)
            requires
                0 <= u0,
                0 <= j,
                0 < w,
        ;
    }
}

/// Resampling from a degenerate weight vector, one particle holding all the
/// weight and the rest none, yields a population concentrated at that
/// particle's position.
pub proof fn lemma_degenerate_resample_concentrates(
    s: Seq<Particle>,
    t: Seq<Particle>,
    k: int,
    u0: int,
)
    requires
        0 <= k < s.len(),
        s[k].weight > 0,
        forall|m: int| 0 <= m < s.len() && m != k ==> #[trigger] s[m].weight == 0,
        0 <= u0 < total_weight(s),
        resampled_from(s, t, u0),
    ensures
        forall|j: int| 0 <= j < t.len() ==> #[trigger] t[j].position == s[k].position,
{
    assert forall|j: int| 0 <= j < t.len() implies #[trigger] t[j].position == s[k].position by {
        assert(copies_selected(s, t, u0, j));
        let i = choose|i: int| #[trigger] selects(s, u0, j, i) && t[j].position == s[i].position;
        lemma_degenerate_selects_only(s, k, u0, j, i);
    }
}

/// Resampling a population with equal positive weights selects every particle
/// exactly once, in order, whatever the offset: each particle's selection
/// frequency is exactly `1 / N`.
pub proof fn lemma_uniform_resample_is_identity(s: Seq<Particle>, t: Seq<Particle>, u0: int)
    requires
        s.len() > 0,
        s[0].weight > 0,
        forall|m: int| 0 <= m < s.len() ==> #[trigger] s[m].weight == s[0].weight,
        0 <= u0 < total_weight(s),
        resampled_from(s, t, u0),
    ensures
        forall|j: int| 0 <= j < t.len() ==> #[trigger] t[j].position == s[j].position,
{
    let n = s.len() as int;
    let c = s[0].weight as int;
    assert forall|m: int| 0 <= m <= n implies #[trigger] prefix_weight(s, m) == m * c by {
        lemma_equal_prefix(s, c, m);
    }
    assert forall|j: int| 0 <= j < t.len() implies #[trigger] t[j].position == s[j].position by {
        assert(copies_selected(s, t, u0, j));
        let i = choose|i: int| #[trigger] selects(s, u0, j, i) && t[j].position == s[i].position;
        assert(prefix_weight(s, i) == i * c);
        assert(prefix_weight(s, i + 1) == (i + 1) * c);
        assert(total_weight(s) == n * c);
        assert(i == j) by (nonlinear_arith)
            requires
                n * (i * c) <= u0 + j * (n * c),
                u0 + j * (n * c) < n * ((i + 1) * c),
                0 <= u0 < n * c,
                c > 0,
                n > 0,
        ;
    }
}

/// 1 when draw point `j` with offset `u0` selects particle `i`, else 0.
pub open spec fn hit(s: Seq<Particle>, u0: int, j: int, i: int) -> int {
    if selects(s, u0, j, i) {
        1
    } else {
        0
    }
}

/// How many of the first `jn` draw points with offset `u0` select particle `i`.
pub open spec fn copies(s: Seq<Particle>, u0: int, i: int, jn: int) -> int
    decreases jn,
{
    if jn <= 0 {
        0
    } else {
        copies(s, u0, i, jn - 1) + hit(s, u0, jn - 1, i)
    }
}

/// The copies of particle `i`, summed over the offsets `0..un`.
pub open spec fn copies_over_offsets(s: Seq<Particle>, i: int, un: int) -> int
    decreases un,
{
    if un <= 0 {
        0
    } else {
        copies_over_offsets(s, i, un - 1) + copies(s, un - 1, i, s.len() as int)
    }
}

/// How often draw point `j` selects particle `i` over the offsets `0..un`.
spec fn column(s: Seq<Particle>, i: int, j: int, un: int) -> int
    decreases un,
{
    if un <= 0 {
        0
    } else {
        column(s, i, j, un - 1) + hit(s, un - 1, j, i)
    }
}

spec fn columns(s: Seq<Particle>, i: int, jn: int, un: int) -> int
    decreases jn,
{
    if jn <= 0 {
        0
    } else {
        columns(s, i, jn - 1, un) + column(s, i, jn - 1, un)
    }
}

proof fn lemma_columns_step(s: Seq<Particle>, i: int, jn: int, un: int)
    requires
        jn >= 0,
        un >= 0,
    ensures
        columns(s, i, jn, un + 1) == columns(s, i, jn, un) + copies(s, un, i, jn),
    decreases jn,
{
    if jn > 0 {
        lemma_columns_step(s, i, jn - 1, un);
    }
}

proof fn lemma_swap(s: Seq<Particle>, i: int, un: int)
    requires
        un >= 0,
    ensures
        copies_over_offsets(s, i, un) == columns(s, i, s.len() as int, un),
    decreases un,
{
    if un > 0 {
        lemma_swap(s, i, un - 1);
        lemma_columns_step(s, i, s.len() as int, un - 1);
    } else {
        lemma_columns_zero(s, i, s.len() as int);
    }
}

proof fn lemma_columns_zero(s: Seq<Particle>, i: int, jn: int)
    ensures
        columns(s, i, jn, 0) == 0,
    decreases jn,
{
    if jn > 0 {
        lemma_columns_zero(s, i, jn - 1);
    }
}

/// Over the offsets `0..un`, draw point `j` selects particle `i` as often as
/// the interval `[j W, j W + un)` meets `[N prefix(i), N prefix(i + 1))`.
proof fn lemma_column(s: Seq<Particle>, i: int, j: int, un: int)
    requires
        0 <= i < s.len(),
        un >= 0,
    ensures
        ({
            let c = j * total_weight(s);
            let lo = s.len() * prefix_weight(s, i);
            let hi = s.len() * prefix_weight(s, i + 1);
            let top = if c + un < hi {
                c + un
            } else {
                hi
            };
            let bottom = if c > lo {
                c
            } else {
                lo
            };
            column(s, i, j, un) == if top > bottom {
                top - bottom
            } else {
                0
            }
        }),
    decreases un,
{
    if un > 0 {
        lemma_column(s, i, j, un - 1);
    }
}

/// Unbiasedness of systematic resampling: summed over all `W` offsets, the
/// `N` draw points copy particle `i` exactly `N * w_i` times, so with the
/// offset drawn uniformly from `0..W` the expected number of copies of
/// particle `i` is `N * w_i / W`.
pub proof fn lemma_systematic_unbiased(s: Seq<Particle>, i: int)
    requires
        0 <= i < s.len(),
        total_weight(s) > 0,
    ensures
        copies_over_offsets(s, i, total_weight(s)) == s.len() * s[i].weight,
{
    let n = s.len() as int;
    let w = total_weight(s);
    let lo = n * prefix_weight(s, i);
    let hi = n * prefix_weight(s, i + 1);
    lemma_prefix_monotone(s, 0, i);
    lemma_prefix_monotone(s, i, i + 1);
    lemma_prefix_monotone(s, i + 1, n);
    assert(0 <= lo <= hi <= n * w) by (nonlinear_arith)
        requires
            lo == n * prefix_weight(s, i),
            hi == n * prefix_weight(s, i + 1),
            0 <= prefix_weight(s, i) <= prefix_weight(s, i + 1) <= w,
            n > 0,
    ;
    lemma_swap(s, i, w);
    lemma_blocks(s, i, n);
    assert(hi - lo == n * s[i].weight) by (nonlinear_arith)
        requires
            lo == n * prefix_weight(s, i),
            hi == n * prefix_weight(s, i + 1),
            prefix_weight(s, i + 1) == prefix_weight(s, i) + s[i].weight,
    ;
}

/// The first `jn` draw points, over all offsets, cover `[0, jn W)` once:
/// they select particle `i` as often as that interval meets its step.
proof fn lemma_blocks(s: Seq<Particle>, i: int, jn: int)
    requires
        0 <= i < s.len(),
        0 <= jn,
        total_weight(s) > 0,
        0 <= s.len() * prefix_weight(s, i) <= s.len() * prefix_weight(s, i + 1),
    ensures
        ({
            let lo = s.len() * prefix_weight(s, i);
            let hi = s.len() * prefix_weight(s, i + 1);
            let end = jn * total_weight(s);
            let top = if end < hi {
                end
            } else {
                hi
            };
            columns(s, i, jn, total_weight(s)) == if top > lo {
                top - lo
            } else {
                0
            }
        }),
    decreases jn,
{
    let w = total_weight(s);
    if jn > 0 {
        lemma_blocks(s, i, jn - 1);
        lemma_column(s, i, jn - 1, w);
        assert((jn - 1) * w + w == jn * w) by (nonlinear_arith);
        assert((jn - 1) * w >= 0) by (nonlinear_arith)
            requires
                jn >= 1,
                w > 0,
        ;
    } else {
        assert(0 * w == 0);
    }
}

} // verus!
