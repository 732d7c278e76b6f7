//! The round clock. Times are whole seconds since the Unix epoch.
use vstd::prelude::*;

verus! {

/// The round index at time `now` for a game that starts at `start` with rounds of
/// `tick` seconds: `floor((now - start) / tick)`. For a positive divisor the
/// Euclidean division of `int` is floor division.
pub open spec fn tick_index(start: int, tick: int, now: int) -> int {
    (now - start) / tick
}

/// The first firing strictly after `now` of a timer that fires at
/// `start + n * tick + offset` for every integer `n`.
pub open spec fn next_firing_after(start: int, tick: int, offset: int, now: int) -> int {
    start + offset + (tick_index(start + offset, tick, now) + 1) * tick
}

/// Round timing shared by every loop of the engine.
pub struct RoundClock {
    /// Round length in seconds.
    pub tick: u64,
    /// Start of round zero, in seconds since the Unix epoch.
    pub start: i64,
}

impl RoundClock {
    pub open spec fn valid(&self) -> bool {
        self.tick > 0
    }

    /// The round index at `now`; negative before the start.
    pub fn current_tick(&self, now: i64) -> (r: i64)
        requires
            self.valid(),
            i64::MIN <= now - self.start <= i64::MAX,
        ensures
            r == tick_index(self.start as int, self.tick as int, now as int),
    {
        let delta: i64 = now - self.start;
        let d: i128 = delta as i128;
        let t: i128 = self.tick as i128;
        proof {
            lemma_floor_div_bounds(d as int, t as int);
        }
        let q: i128 = d.checked_div_euclid(t).unwrap();
        q as i64
    }

    /// When a timer that fires at `start + n * tick + offset` fires next after `now`.
    /// A consumer that fell behind by several rounds gets the next boundary, not the
    /// backlog.
    pub fn next_firing(&self, offset: u64, now: i64) -> (r: Option<i64>)
        requires
            self.valid(),
        ensures
            r matches Some(at) ==> at == next_firing_after(
                self.start as int,
                self.tick as int,
                offset as int,
                now as int,
            ),
            r is None <==> !(i64::MIN <= next_firing_after(
                self.start as int,
                self.tick as int,
                offset as int,
                now as int,
            ) <= i64::MAX),
    {
        let base: i128 = self.start as i128 + offset as i128;
        let d: i128 = now as i128 - base;
        let t: i128 = self.tick as i128;
        proof {
            lemma_floor_div_bounds(d as int, t as int);
        }
        let q: i128 = d.checked_div_euclid(t).unwrap();
        proof {
            lemma_floor_div_step(d as int, t as int);
        }
        let at: i128 = base + (q + 1) * t;
        if at < i64::MIN as i128 || at > i64::MAX as i128 {
            None
        } else {
            Some(at as i64)
        }
    }

    /// How many seconds remain until round zero starts; zero once it has started.
    pub fn seconds_until_start(&self, now: i64) -> (r: u64)
        ensures
            now < self.start ==> r == self.start - now,
            now >= self.start ==> r == 0,
    {
        if now < self.start {
            (self.start as i128 - now as i128) as u64
        } else {
            0
        }
    }
}

/// A time `n` whole rounds after the start is in round `n`.
pub proof fn lemma_round_start_tick(start: int, tick: int, n: int)
    requires
        tick > 0,
        n >= 0,
    ensures
        tick_index(start, tick, start + n * tick) == n,
{
    vstd::arithmetic::div_mod::lemma_div_multiples_vanish(n, tick);
    assert(n * tick == tick * n) by (nonlinear_arith);
}

/// Floor semantics at a round boundary: the boundary itself opens round `n`, and every
/// time before it, down to the previous boundary, still belongs to round `n - 1`.
pub proof fn lemma_boundary_floor(start: int, tick: int, n: int, t: int)
    requires
        tick > 0,
        start + (n - 1) * tick <= t < start + n * tick,
    ensures
        tick_index(start, tick, start + n * tick) == n,
        tick_index(start, tick, t) == n - 1,
{
    vstd::arithmetic::div_mod::lemma_div_multiples_vanish(n, tick);
    assert(n * tick == tick * n) by (nonlinear_arith);
    assert(n * tick == (n - 1) * tick + tick) by (nonlinear_arith);
    let r = t - start - (n - 1) * tick;
    assert(t - start == (n - 1) * tick + r);
    vstd::arithmetic::div_mod::lemma_fundamental_div_mod_converse(t - start, tick, n - 1, r);
}

/// The next firing is strictly after `now`, at most one round later, and on the
/// grid `start + offset + k * tick`.
pub proof fn lemma_next_firing(start: int, tick: int, offset: int, now: int)
    requires
        tick > 0,
    ensures
        now < next_firing_after(start, tick, offset, now) <= now + tick,
        next_firing_after(start, tick, offset, now) == start + offset + (tick_index(
            start + offset,
            tick,
            now,
        ) + 1) * tick,
{
    lemma_floor_div_step(now - (start + offset), tick);
}

/// The multiple of `t` just above `d` lies in `(d, d + t]`.
proof fn lemma_floor_div_step(d: int, t: int)
    requires
        t >= 1,
    ensures
        t * (d / t) <= d < t * (d / t) + t,
        (d / t + 1) * t == t * (d / t) + t,
{
    vstd::arithmetic::div_mod::lemma_fundamental_div_mod(d, t);
    vstd::arithmetic::div_mod::lemma_mod_bound(d, t);
    let q = d / t;
    assert((q + 1) * t == t * q + t) by (nonlinear_arith);
}

/// Floor division by a positive divisor never moves away from zero further than
/// the dividend does.
proof fn lemma_floor_div_bounds(d: int, t: int)
    requires
        t >= 1,
    ensures
        d >= 0 ==> 0 <= d / t <= d,
        d < 0 ==> d <= d / t < 0,
{
    assert(d == t * (d / t) + d % t) by {
        vstd::arithmetic::div_mod::lemma_fundamental_div_mod(d, t);
    }
    assert(0 <= d % t < t) by {
        vstd::arithmetic::div_mod::lemma_mod_bound(d, t);
    }
    if d >= 0 {
        assert(0 <= d / t <= d) by (nonlinear_arith)
            requires
                d == t * (d / t) + d % t,
                0 <= d % t < t,
                t >= 1,
                d >= 0,
        ;
    } else {
        assert(d <= d / t < 0) by (nonlinear_arith)
            requires
                d == t * (d / t) + d % t,
                0 <= d % t < t,
                t >= 1,
                d < 0,
        ;
    }
}

} // verus!
