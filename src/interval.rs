use crate::game::{fresh_game, match_spec, Game};
use crate::provider::LehmerProvider;
use vstd::prelude::*;

verus! {

/// Fewest trials the estimator runs, whatever the spread of the outcomes.
pub const MIN_TRIALS: u64 = 40;

/// Largest trial count the stopping rule is evaluated on; products of it stay in 128 bits.
pub const MAX_COUNTED_TRIALS: u64 = 17179869184;

/// Largest denominator accepted for the half-width.
pub const MAX_WIDTH_DEN: u64 = 100000;

/// The square of the 95% critical value 1.960, as `T2_NUM / T2_DEN`.
pub const T2_NUM: u128 = 2401;

/// The denominator of the squared critical value.
pub const T2_DEN: u128 = 625;

/// The result of an estimation: `wins` of `trials` matches were won by player 1, and
/// the point estimate is `wins / trials`.
#[derive(Clone, Copy, Debug, PartialEq, Eq, Structural)]
pub struct Estimate {
    pub wins: u64,
    pub trials: u64,
}

/// Whether sampling goes on after `n` trials with `s` wins, for half-width `wn / wd`.
///
/// With `p = s / n`, Welford's running sum of squared deviations is `v = s (n - s) / n`,
/// and sampling goes on while `n < 40` or `T * sqrt(v / n) > w * sqrt(n - 1)`. Both sides
/// are at least 0, so the second test is the one below, squared and multiplied out.
pub open spec fn continue_spec(n: int, s: int, wn: int, wd: int) -> bool {
    n < 40 || 2401 * (s * (n - s)) * (wd * wd) > 625 * (wn * wn) * (n - 1) * (n * n)
}

/// A trial count after which sampling always stops for half-width `wn / wd`, `wn > 0`.
pub open spec fn trial_bound(wd: int) -> int {
    if wd * wd + 1 > 40 {
        wd * wd + 1
    } else {
        40
    }
}

/// The sequential procedure from `n` trials with `s` wins and generator state `x`: while
/// `continue_spec` holds, one more match is played from a fresh start. Gives the trial
/// count, the win count and the generator state at the end.
pub open spec fn estimate_spec(p1: usize, p2: usize, wn: int, wd: int, n: int, s: int, x: int) -> (
    int,
    int,
    int,
)
    decreases trial_bound(wd) - n,
    when wn >= 1 && n >= 0
    via lemma_estimate_decreases
{
    if !continue_spec(n, s, wn, wd) {
        (n, s, x)
    } else {
        let m = match_spec(fresh_game(p1, p2), x);
        estimate_spec(p1, p2, wn, wd, n + 1, if m.2 { s + 1 } else { s }, m.1)
    }
}

#[via_fn]
proof fn lemma_estimate_decreases(p1: usize, p2: usize, wn: int, wd: int, n: int, s: int, x: int) {
    if wn >= 1 && n >= trial_bound(wd) {
        lemma_stops_at_bound(n, s, wn, wd);
    }
}

/// Once `n` reaches `trial_bound(wd)`, sampling stops for any win count, for a positive
/// half-width.
pub proof fn lemma_stops_at_bound(n: int, s: int, wn: int, wd: int)
    requires
        wn >= 1,
        n >= trial_bound(wd),
    ensures
        !continue_spec(n, s, wn, wd),
{
    let v = s * (n - s);
    assert(4 * v <= n * n) by (nonlinear_arith)
        requires
            v == s * (n - s),
    ;
    let d2 = wd * wd;
    let w2 = wn * wn;
    assert(d2 >= 0 && w2 >= 1) by (nonlinear_arith)
        requires
            wn >= 1,
            d2 == wd * wd,
            w2 == wn * wn,
    ;
    assert(2401 * v * d2 <= 625 * w2 * (n - 1) * (n * n)) by (nonlinear_arith)
        requires
            4 * v <= n * n,
            d2 >= 0,
            w2 >= 1,
            n - 1 >= d2,
            n >= 40,
    ;
}

/// The running statistics that Welford's method keeps are fixed by the trial count `n`
/// and the win count `s`: the mean is `p = s / n` and the sum of squared deviations is
/// `v = s (n - s) / n`. One more outcome `x` (1 for a win, 0 for a loss) with
/// `d = x - p` gives `p + d / (n + 1)` and `v + d * d * n / (n + 1)`, which are again
/// these two formulas for `n + 1` trials and `s + x` wins (both sides multiplied out).
pub proof fn lemma_welford_step(n: int, s: int, x: int)
    requires
        n >= 1,
        0 <= s <= n,
        x == 0 || x == 1,
    ensures
        n * (s + x) == (n + 1) * s + (n * x - s),
        n * ((s + x) * (n + 1 - (s + x))) == (n + 1) * (s * (n - s)) + (n * x - s) * (n * x - s),
{
    assert(n * (s + x) == (n + 1) * s + (n * x - s)) by (nonlinear_arith);
    assert(n * ((s + x) * (n + 1 - (s + x))) == (n + 1) * (s * (n - s)) + (n * x - s) * (n * x
        - s)) by (nonlinear_arith)
        requires
            x == 0 || x == 1,
    ;
}

/// Sampling never stops before 40 trials; and where every outcome so far was the same (no
/// wins, or only wins), it stops at exactly 40, whatever the half-width.
pub proof fn lemma_min_trials(n: int, s: int, wn: int, wd: int)
    requires
        n >= 0,
    ensures
        n < 40 ==> continue_spec(n, s, wn, wd),
        s == 0 || s == n ==> (continue_spec(n, s, wn, wd) <==> n < 40),
{
    if n >= 40 {
        let r = 625 * (wn * wn) * (n - 1) * (n * n);
        assert(r >= 0) by (nonlinear_arith)
            requires
                n >= 40,
                r == 625 * (wn * wn) * (n - 1) * (n * n),
        ;
        if s == 0 || s == n {
            assert(2401 * (s * (n - s)) * (wd * wd) == 0) by (nonlinear_arith)
                requires
                    s == 0 || s == n,
            ;
        }
    }
}

/// The product of `a` and `b`, or `u128::MAX` where it would exceed that.
fn mul_capped(a: u128, b: u128) -> (r: u128)
    ensures
        r == if a * b > u128::MAX { u128::MAX as int } else { a * b },
{
    match a.checked_mul(b) {
        Some(c) => c,
        None => u128::MAX,
    }
}

/// Capping a product at `u128::MAX` and then multiplying by `c >= 1` and capping again is
/// capping the whole product.
proof fn lemma_cap_chain(x: int, c: int)
    requires
        x >= 0,
        c >= 1,
    ensures
        ({
            let capped = if x > u128::MAX { u128::MAX as int } else { x };
            let lhs = if capped * c > u128::MAX { u128::MAX as int } else { capped * c };
            lhs == if x * c > u128::MAX { u128::MAX as int } else { x * c }
        }),
{
    if x > u128::MAX {
        assert(x * c >= x) by (nonlinear_arith)
            requires
                x >= 0,
                c >= 1,
        ;
        assert(u128::MAX * c >= u128::MAX) by (nonlinear_arith)
            requires
                c >= 1,
        ;
    }
}

/// Whether sampling goes on after `n` trials with `wins` wins for half-width
/// `w_num / w_den`: it does while fewer than 40 trials were run or the 95% interval is
/// still wider than asked.
pub fn should_continue_interval(n: u64, wins: u64, w_num: u64, w_den: u64) -> (r: bool)
    requires
        wins <= n,
        n <= MAX_COUNTED_TRIALS,
        w_den <= MAX_WIDTH_DEN,
    ensures
        r == continue_spec(n as int, wins as int, w_num as int, w_den as int),
{
    if n < MIN_TRIALS {
        return true;
    }
    let s = wins as u128;
    let nn = n as u128;
    let d = w_den as u128;
    assert(s * (nn - s) <= 17179869184 * 17179869184) by (nonlinear_arith)
        requires
            0 <= s <= nn <= 17179869184,
    ;
    assert(d * d <= 100000 * 100000) by (nonlinear_arith)
        requires
            0 <= d <= 100000,
    ;
    let spread: u128 = s * (nn - s);
    let d2: u128 = d * d;
    assert(spread * d2 <= 17179869184 * 17179869184 * (100000 * 100000)) by (nonlinear_arith)
        requires
            spread <= 17179869184 * 17179869184,
            d2 <= 100000 * 100000,
    ;
    let lhs: u128 = T2_NUM * (spread * d2);
    let wn = w_num as u128;
    let c1: u128 = T2_DEN * wn;
    let c2 = mul_capped(c1, wn);
    let c3 = mul_capped(c2, nn - 1);
    let c4 = mul_capped(c3, nn);
    let c5 = mul_capped(c4, nn);
    proof {
        let w2 = 625 * wn * wn;
        assert(w2 >= 0) by (nonlinear_arith)
            requires
                w2 == 625 * wn * wn,
        ;
        assert(c1 * wn == w2) by (nonlinear_arith)
            requires
                c1 == 625 * wn,
                w2 == 625 * wn * wn,
        ;
        lemma_cap_chain(w2, nn - 1);
        assert(w2 * (nn - 1) >= 0) by (nonlinear_arith)
            requires
                w2 >= 0,
                nn >= 1,
        ;
        lemma_cap_chain(w2 * (nn - 1), nn as int);
        assert(w2 * (nn - 1) * nn >= 0) by (nonlinear_arith)
            requires
                w2 * (nn - 1) >= 0,
                nn >= 1,
        ;
        lemma_cap_chain(w2 * (nn - 1) * nn, nn as int);
        assert(625 * (wn * wn) * (nn - 1) * (nn * nn) == w2 * (nn - 1) * nn * nn)
            by (nonlinear_arith)
            requires
                w2 == 625 * wn * wn,
        ;
        assert(2401 * (s * (nn - s)) * (d * d) == lhs) by (nonlinear_arith)
            requires
                lhs == 2401 * (spread * d2),
                spread == s * (nn - s),
                d2 == d * d,
        ;
    }
    lhs > c5
}

/// Estimates the probability that player 1, of magnitude `p1`, wins a match against
/// player 2, of magnitude `p2`, to within half-width `w_num / w_den` at 95% confidence.
/// Matches are played one after another from a fresh start, all drawing on `prov`'s one
/// stream, until `should_continue_interval` says to stop.
pub fn generate_interval(p1: usize, p2: usize, w_num: u64, w_den: u64, prov: &mut LehmerProvider) -> (r: Estimate)
    requires
        old(prov).wf(),
        w_num >= 1,
        w_den <= MAX_WIDTH_DEN,
    ensures
        final(prov).wf(),
        (r.trials as int, r.wins as int, final(prov).state()) == estimate_spec(
            p1,
            p2,
            w_num as int,
            w_den as int,
            0,
            0,
            old(prov).state(),
        ),
{
    let mut g = Game::new(p1, p2);
    let mut n: u64 = 0;
    let mut wins: u64 = 0;
    let ghost x0 = prov.state();
    proof {
        assert(w_den * w_den <= 100000 * 100000) by (nonlinear_arith)
            requires
                w_den <= 100000,
        ;
    }
    while should_continue_interval(n, wins, w_num, w_den)
        invariant
            prov.wf(),
            wins <= n,
            n <= trial_bound(w_den as int),
            w_num >= 1,
            w_den <= MAX_WIDTH_DEN,
            w_den * w_den <= 100000 * 100000,
            g.player_1.magnitude == p1,
            g.player_2.magnitude == p2,
            g.wf(),
            estimate_spec(p1, p2, w_num as int, w_den as int, n as int, wins as int, prov.state())
                == estimate_spec(p1, p2, w_num as int, w_den as int, 0, 0, x0),
        decreases trial_bound(w_den as int) - n,
    {
        proof {
            if n >= trial_bound(w_den as int) {
                lemma_stops_at_bound(n as int, wins as int, w_num as int, w_den as int);
            }
        }
        g.reset();
        assert(g == fresh_game(p1, p2));
        let won = g.run(prov);
        n = n + 1;
        if won {
            wins = wins + 1;
        }
    }
    Estimate { wins, trials: n }
}

} // verus!
