use vstd::arithmetic::div_mod::*;
use vstd::prelude::*;

verus! {

/// The modulus of the generator, the Mersenne prime 2^31 - 1.
pub const M_VAL: i64 = 2147483647;

/// The multiplier of the generator.
pub const A_VAL: i64 = 48271;

/// The quotient `M_VAL / A_VAL` used by Schrage's decomposition.
pub const Q_VAL: i64 = 44488;

/// The remainder `M_VAL % A_VAL` used by Schrage's decomposition.
pub const R_VAL: i64 = 3399;

/// The modulus as a mathematical integer.
pub open spec fn modulus() -> int {
    2147483647
}

/// A state the generator may hold: anything in `[1, m - 1]`.
pub open spec fn valid_state(x: int) -> bool {
    1 <= x < modulus()
}

/// One step of the Lehmer recurrence `x' = a * x mod m`.
pub open spec fn lehmer_next(x: int) -> int {
    (48271 * x) % modulus()
}

/// The state after `k` steps from `x`.
pub open spec fn lehmer_iter(x: int, k: nat) -> int
    decreases k,
{
    if k == 0 {
        x
    } else {
        lehmer_next(lehmer_iter(x, (k - 1) as nat))
    }
}

/// A deterministic stream of uniform samples: a Lehmer (Park–Miller) multiplicative
/// congruential generator. Each sample is `x / m` for the state `x` it moves to.
pub struct LehmerProvider {
    pub x: i64,
}

/// A source of samples.
pub trait Provider<T> {
    fn next(&mut self) -> Option<T>;
}

impl LehmerProvider {
    /// The current state of the generator.
    pub open spec fn state(&self) -> int {
        self.x as int
    }

    pub open spec fn wf(&self) -> bool {
        valid_state(self.x as int)
    }

    /// A generator whose state is `seed`.
    pub fn new(seed: i64) -> (r: LehmerProvider)
        ensures
            r.state() == seed,
    {
        LehmerProvider { x: seed }
    }

    /// Advances the state by one step of the recurrence and returns the new state.
    /// The sample it stands for is the returned value divided by `M_VAL`, which lies
    /// strictly between 0 and 1.
    pub fn next(&mut self) -> (r: i64)
        requires
            old(self).wf(),
        ensures
            final(self).wf(),
            final(self).state() == lehmer_next(old(self).state()),
            r == final(self).state(),
    {
        let t: i64 = A_VAL * (self.x % Q_VAL) - R_VAL * (self.x / Q_VAL);
        proof {
            lemma_schrage(self.x as int);
        }
        if t > 0i64 {
            self.x = t;
        } else {
            self.x = t + M_VAL;
        }
        self.x
    }

    /// Puts the generator in state `seed`.
    pub fn _set_seed(&mut self, seed: i64)
        ensures
            final(self).state() == seed,
    {
        self.x = seed;
    }

    /// The current state of the generator.
    pub fn _see_state(&self) -> (r: i64)
        ensures
            r == self.state(),
    {
        self.x
    }
}

impl Provider<i64> for LehmerProvider {
    /// The next state of the generator, or `None` where the state is not a valid one.
    fn next(&mut self) -> Option<i64> {
        if 1 <= self.x && self.x < M_VAL {
            Some(LehmerProvider::next(self))
        } else {
            None
        }
    }
}

/// Schrage's decomposition computes `a * x mod m` without leaving 64-bit range, and the
/// result of a valid state is again a valid state.
pub proof fn lemma_schrage(x: int)
    requires
        valid_state(x),
    ensures
        ({
            let t = 48271 * (x % 44488) - 3399 * (x / 44488);
            &&& -modulus() < t < modulus()
            &&& t > 0 ==> t == lehmer_next(x)
            &&& t <= 0 ==> t + modulus() == lehmer_next(x)
            &&& valid_state(lehmer_next(x))
        }),
{
    let q = x / 44488;
    let u = x % 44488;
    lemma_fundamental_div_mod(x, 44488);
    assert(0 <= u < 44488);
    assert(0 <= q <= 48271) by {
        lemma_div_is_ordered(x, 2147483646, 44488);
    }
    let t = 48271 * u - 3399 * q;
    assert(48271 * x == modulus() * q + t) by (nonlinear_arith)
        requires
            x == 44488 * q + u,
            t == 48271 * u - 3399 * q,
    ;
    assert(0 <= 48271 * u < modulus()) by (nonlinear_arith)
        requires
            0 <= u < 44488,
    ;
    assert(0 <= 3399 * q < modulus()) by (nonlinear_arith)
        requires
            0 <= q <= 48271,
    ;
    lemma_nonzero_step(x);
    if t > 0 {
        lemma_mod_multiples_vanish(q, t, modulus());
        lemma_small_mod(t as nat, modulus() as nat);
    } else {
        assert(48271 * x == modulus() * (q - 1) + (t + modulus()));
        lemma_mod_multiples_vanish(q - 1, t + modulus(), modulus());
        lemma_small_mod((t + modulus()) as nat, modulus() as nat);
    }
}

/// From a valid seed every state of the stream is valid, so every sample `x / m` lies
/// strictly between 0 and 1; and the stream is fixed by the seed alone, each state
/// following from the one before.
pub proof fn lemma_stream_valid(seed: int, k: nat)
    requires
        valid_state(seed),
    ensures
        valid_state(lehmer_iter(seed, k)),
        0 < lehmer_iter(seed, k) < modulus(),
        lehmer_iter(seed, k + 1) == lehmer_next(lehmer_iter(seed, k)),
    decreases k,
{
    if k > 0 {
        lemma_stream_valid(seed, (k - 1) as nat);
        lemma_schrage(lehmer_iter(seed, (k - 1) as nat));
    }
}

/// `a` is invertible modulo `m`, so one step never reaches 0 from a valid state.
proof fn lemma_nonzero_step(x: int)
    requires
        valid_state(x),
    ensures
        lehmer_next(x) != 0,
{
    let inv: int = 1899818559;
    assert((48271 * inv) % modulus() == 1);
    if lehmer_next(x) == 0 {
        lemma_mul_mod_noop_right(inv, 48271 * x, modulus());
        assert(inv * (48271 * x) == (48271 * inv) * x) by (nonlinear_arith);
        lemma_mul_mod_noop_left(48271 * inv, x, modulus());
        lemma_small_mod(x as nat, modulus() as nat);
        assert((inv * 0) % modulus() == 0);
    }
}

} // verus!
