use crate::particle_filter::WEIGHT_ONE;
use vstd::arithmetic::div_mod::lemma_div_is_ordered;
use vstd::prelude::*;

verus! {

/// A particle's cost is minus the base-2 logarithm of its likelihood, in
/// units of `1 / COST_ONE`: a cost of `COST_ONE` halves a weight.
pub const COST_ONE: u64 = 0x1_0000;

/// `log2(e) / 2` in units of `1 / COST_ONE` (47274.23 rounded down): the cost
/// of a residual `err` under deviation `sigma` is `err^2 / sigma^2` times this,
/// which is `-log2 exp(-err^2 / (2 sigma^2))`.
pub const HALF_LOG2_E: u128 = 47274;

/// A cost this large stands for likelihood zero (below `2^-4096`).
pub const COST_MAX: u64 = 0x1000_0000;

/// The cost of residual `err` under standard deviation `sigma`, rounded down
/// and capped at `COST_MAX`.
pub open spec fn cost_of(err: int, sigma: int) -> int {
    let c = (err * err * HALF_LOG2_E) / (sigma * sigma);
    if c > COST_MAX {
        COST_MAX as int
    } else {
        c
    }
}

/// Costs add up to `COST_MAX` and stay there.
pub open spec fn add_cost(c: int, inc: int) -> int {
    if c + inc > COST_MAX {
        COST_MAX as int
    } else {
        c + inc
    }
}

/// `WEIGHT_ONE * 2^(-s / 16)` rounded, for `s` in `0..=16`.
pub open spec fn exp_table(s: int) -> int {
    if s <= 0 {
        4294967296
    } else if s == 1 {
        4112874773
    } else if s == 2 {
        3938502376
    } else if s == 3 {
        3771522796
    } else if s == 4 {
        3611622603
    } else if s == 5 {
        3458501653
    } else if s == 6 {
        3311872529
    } else if s == 7 {
        3171459999
    } else if s == 8 {
        3037000500
    } else if s == 9 {
        2908241642
    } else if s == 10 {
        2784941738
    } else if s == 11 {
        2666869345
    } else if s == 12 {
        2553802834
    } else if s == 13 {
        2445529972
    } else if s == 14 {
        2341847524
    } else if s == 15 {
        2242560872
    } else {
        2147483648
    }
}

/// `WEIGHT_ONE * 2^(-f / COST_ONE)` for `f` in `0..COST_ONE`: linear
/// interpolation between the sixteenths of the table, rounded down. Its
/// relative error is below `2.4e-4`.
pub open spec fn exp2_frac(f: int) -> int {
    let s = f / 4096;
    let r = f % 4096;
    exp_table(s + 1) + ((exp_table(s) - exp_table(s + 1)) * (4096 - r)) / 4096
}

/// `x` halved `k` times, each time rounded down.
pub open spec fn halve(x: int, k: nat) -> int
    decreases k,
{
    if k == 0 {
        x
    } else {
        halve(x / 2, (k - 1) as nat)
    }
}

/// The likelihood factor of cost `c`, as a fraction of `WEIGHT_ONE`:
/// `WEIGHT_ONE * 2^(-c / COST_ONE)` in fixed point.
pub open spec fn factor(c: int) -> int {
    halve(exp2_frac(c % (COST_ONE as int)), (c / (COST_ONE as int)) as nat)
}

proof fn lemma_table_decreasing(a: int, b: int)
    requires
        0 <= a <= b <= 16,
    ensures
        WEIGHT_ONE / 2 <= exp_table(b) <= exp_table(a) <= WEIGHT_ONE,
    decreases b - a,
{
    if a < b {
        lemma_table_decreasing(a, b - 1);
    }
}

proof fn lemma_exp2_frac_bounds(f: int)
    requires
        0 <= f < COST_ONE,
    ensures
        exp_table(f / 4096 + 1) <= exp2_frac(f) <= exp_table(f / 4096),
        WEIGHT_ONE / 2 <= exp2_frac(f) <= WEIGHT_ONE,
        f == 0 ==> exp2_frac(f) == WEIGHT_ONE,
{
    let s = f / 4096;
    let r = f % 4096;
    lemma_table_decreasing(s, s + 1);
    lemma_table_decreasing(0, s);
    lemma_table_decreasing(s + 1, 16);
    let d = exp_table(s) - exp_table(s + 1);
    assert(0 <= d * (4096 - r) <= d * 4096) by (nonlinear_arith)
        requires
            d >= 0,
            0 <= r < 4096,
    ;
    lemma_div_is_ordered(d * (4096 - r), d * 4096, 4096);
    lemma_div_is_ordered(0, d * (4096 - r), 4096);
    assert((d * 4096) / 4096 == d);
}

proof fn lemma_exp2_frac_monotone(f1: int, f2: int)
    requires
        0 <= f1 <= f2 < COST_ONE,
    ensures
        exp2_frac(f2) <= exp2_frac(f1),
{
    lemma_exp2_frac_bounds(f1);
    lemma_exp2_frac_bounds(f2);
    let s1 = f1 / 4096;
    let s2 = f2 / 4096;
    if s1 == s2 {
        let d = exp_table(s1) - exp_table(s1 + 1);
        lemma_table_decreasing(s1, s1 + 1);
        let r1 = f1 % 4096;
        let r2 = f2 % 4096;
        assert(d * (4096 - r2) <= d * (4096 - r1)) by (nonlinear_arith)
            requires
                d >= 0,
                r1 <= r2,
        ;
        lemma_div_is_ordered(d * (4096 - r2), d * (4096 - r1), 4096);
    } else {
        lemma_table_decreasing(s1 + 1, s2);
    }
}

proof fn lemma_halve_monotone(x: int, y: int, k: nat)
    requires
        0 <= x <= y,
    ensures
        0 <= halve(x, k) <= halve(y, k),
    decreases k,
{
    if k > 0 {
        lemma_div_is_ordered(x, y, 2);
        lemma_halve_monotone(x / 2, y / 2, (k - 1) as nat);
    }
}

proof fn lemma_halve_more(x: int, j: nat, k: nat)
    requires
        0 <= x,
        j <= k,
    ensures
        halve(x, k) <= halve(x, j),
    decreases k,
{
    if j < k {
        lemma_halve_more(x, j, (k - 1) as nat);
        lemma_halve_shift(x, (k - 1) as nat);
        lemma_halve_le(x, (k - 1) as nat);
    }
}

proof fn lemma_halve_le(x: int, k: nat)
    requires
        0 <= x,
    ensures
        0 <= halve(x, k) <= x,
    decreases k,
{
    if k > 0 {
        lemma_halve_le(x / 2, (k - 1) as nat);
    }
}

proof fn lemma_halve_zero(k: nat)
    ensures
        halve(0, k) == 0,
    decreases k,
{
    if k > 0 {
        lemma_halve_zero((k - 1) as nat);
    }
}

/// The likelihood factor lies in `[0, WEIGHT_ONE]`, is `WEIGHT_ONE` at cost
/// zero, never grows as the cost grows, and halves (rounded down) with each
/// further `COST_ONE` of cost.
pub proof fn lemma_factor_monotone(c1: int, c2: int)
    requires
        0 <= c1 <= c2,
    ensures
        0 <= factor(c2) <= factor(c1) <= WEIGHT_ONE,
        factor(0) == WEIGHT_ONE,
        factor(c1 + COST_ONE) == factor(c1) / 2,
{
    let k1 = c1 / (COST_ONE as int);
    let k2 = c2 / (COST_ONE as int);
    let f1 = c1 % (COST_ONE as int);
    let f2 = c2 % (COST_ONE as int);
    lemma_exp2_frac_bounds(f1);
    lemma_exp2_frac_bounds(f2);
    lemma_exp2_frac_bounds(0);
    lemma_halve_le(exp2_frac(f1), k1 as nat);
    lemma_halve_monotone(0, exp2_frac(f2), k2 as nat);
    if k1 == k2 {
        lemma_exp2_frac_monotone(f1, f2);
        lemma_halve_monotone(exp2_frac(f2), exp2_frac(f1), k1 as nat);
    } else {
        // factor(c1) >= halve(ONE / 2, k1) == halve(ONE, k1 + 1) >= halve(ONE, k2) >= factor(c2)
        lemma_halve_monotone((WEIGHT_ONE / 2) as int, exp2_frac(f1), k1 as nat);
        assert(halve(WEIGHT_ONE as int, (k1 + 1) as nat) == halve((WEIGHT_ONE / 2) as int, k1 as nat));
        lemma_halve_more(WEIGHT_ONE as int, (k1 + 1) as nat, k2 as nat);
        lemma_halve_monotone(exp2_frac(f2), WEIGHT_ONE as int, k2 as nat);
    }
    assert((c1 + COST_ONE) / (COST_ONE as int) == k1 + 1);
    assert((c1 + COST_ONE) % (COST_ONE as int) == f1);
    lemma_halve_shift(exp2_frac(f1), k1 as nat);
}

proof fn lemma_halve_shift(x: int, k: nat)
    requires
        0 <= x,
    ensures
        halve(x, k + 1) == halve(x, k) / 2,
    decreases k,
{
    if k > 0 {
        lemma_div_is_ordered(0, x, 2);
        lemma_halve_shift(x / 2, (k - 1) as nat);
    } else {
        assert(halve(x / 2, 0) == x / 2);
        assert(halve(x, 1) == halve(x / 2, 0));
    }
}

/// A larger residual never costs less.
pub proof fn lemma_cost_monotone(e1: int, e2: int, sigma: int)
    requires
        sigma > 0,
        e1 * e1 <= e2 * e2,
    ensures
        0 <= cost_of(e1, sigma) <= cost_of(e2, sigma) <= COST_MAX,
        cost_of(0, sigma) == 0,
{
    let v = sigma * sigma;
    assert(v > 0 && e1 * e1 >= 0) by (nonlinear_arith)
        requires
            sigma > 0,
            v == sigma * sigma,
    ;
    assert(0 <= e1 * e1 * HALF_LOG2_E <= e2 * e2 * HALF_LOG2_E) by (nonlinear_arith)
        requires
            0 <= e1 * e1 <= e2 * e2,
    ;
    lemma_div_is_ordered(e1 * e1 * HALF_LOG2_E, e2 * e2 * HALF_LOG2_E, v);
    lemma_div_is_ordered(0, e1 * e1 * HALF_LOG2_E, v);
    assert(0int * 0 * HALF_LOG2_E == 0);
}

/// The cost of residual `err` under standard deviation `sigma`.
pub fn observation_cost(err: i64, sigma: u64) -> (r: u64)
    requires
        0 < sigma,
        -0x1000_0000_0000 <= err <= 0x1000_0000_0000,
    ensures
        r == cost_of(err as int, sigma as int),
{
    let e = err as i128;
    assert(0 <= e * e <= 0x100_0000_0000_0000_0000_0000) by (nonlinear_arith)
        requires
            -0x1000_0000_0000 <= e <= 0x1000_0000_0000,
    ;
    let e2 = (e * e) as u128;
    let s = sigma as u128;
    assert(0 < s * s <= 0xffff_ffff_ffff_ffff_ffff_ffff_ffff_ffff) by (nonlinear_arith)
        requires
            0 < s <= 0xffff_ffff_ffff_ffff,
    ;
    let c = (e2 * HALF_LOG2_E) / (s * s);
    if c > COST_MAX as u128 {
        COST_MAX
    } else {
        c as u64
    }
}

/// Adds an observation's cost, saturating at `COST_MAX`.
pub fn accumulate_cost(c: u64, inc: u64) -> (r: u64)
    requires
        c <= COST_MAX,
        inc <= COST_MAX,
    ensures
        r == add_cost(c as int, inc as int),
        r <= COST_MAX,
{
    if c + inc > COST_MAX {
        COST_MAX
    } else {
        c + inc
    }
}

fn table(s: u64) -> (r: u64)
    requires
        s <= 16,
    ensures
        r == exp_table(s as int),
{
    if s == 0 {
        4294967296
    } else if s == 1 {
        4112874773
    } else if s == 2 {
        3938502376
    } else if s == 3 {
        3771522796
    } else if s == 4 {
        3611622603
    } else if s == 5 {
        3458501653
    } else if s == 6 {
        3311872529
    } else if s == 7 {
        3171459999
    } else if s == 8 {
        3037000500
    } else if s == 9 {
        2908241642
    } else if s == 10 {
        2784941738
    } else if s == 11 {
        2666869345
    } else if s == 12 {
        2553802834
    } else if s == 13 {
        2445529972
    } else if s == 14 {
        2341847524
    } else if s == 15 {
        2242560872
    } else {
        2147483648
    }
}

/// The likelihood factor `WEIGHT_ONE * 2^(-c / COST_ONE)` of cost `c`.
pub fn likelihood_factor(c: u64) -> (r: u64)
    ensures
        r == factor(c as int),
        r <= WEIGHT_ONE,
{
    let k = c / COST_ONE;
    let f = c % COST_ONE;
    let s = f / 4096;
    let rem = f % 4096;
    proof {
        lemma_exp2_frac_bounds(f as int);
        lemma_table_decreasing(s as int, s as int + 1);
    }
    let hi = table(s);
    let lo = table(s + 1);
    let mut v: u64 = lo + ((hi - lo) * (4096 - rem)) / 4096;
    let mut i: u64 = 0;
    proof {
        lemma_halve_le(v as int, k as nat);
    }
    while i < k && v > 0
        invariant
            i <= k,
            halve(exp2_frac(f as int), k as nat) == halve(v as int, (k - i) as nat),
            v <= WEIGHT_ONE,
        decreases k - i,
    {
        v = v / 2;
        i = i + 1;
    }
    proof {
        if v == 0 {
            lemma_halve_zero((k - i) as nat);
        }
        lemma_halve_le(exp2_frac(f as int), k as nat);
    }
    v
}

} // verus!
