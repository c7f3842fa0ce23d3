//! Fixed-rate tick generation: converts wall-clock elapsed time, supplied in
//! milliseconds by the caller, into a sequence of discrete simulation ticks,
//! carrying fractional time over between calls so no time is ever lost.

use vstd::prelude::*;

verus! {

/// The tick that follows `t`, wrapping at the i32 boundary.
pub open spec fn next_tick(t: i32) -> i32 {
    if t == i32::MAX {
        i32::MIN
    } else {
        (t + 1) as i32
    }
}

/// The tick reached after `k` increments from `start`, wrapping.
pub open spec fn tick_after(start: i32, k: nat) -> i32
    decreases k,
{
    if k == 0 {
        start
    } else {
        next_tick(tick_after(start, (k - 1) as nat))
    }
}

/// The sequence of `n` consecutive ticks starting at `start`, wrapping:
/// exactly what one call of `tick` emits.
pub open spec fn emitted_ticks(start: i32, n: nat) -> Seq<i32> {
    Seq::new(n, |i: int| tick_after(start, i as nat))
}

/// Converts elapsed real time into discrete simulation ticks at a fixed
/// interval, accumulating fractional time across calls.
pub struct TickTimer {
    /// The interval, in milliseconds, at which ticks are generated.
    pub tick_interval: u64,
    /// The current tick number; the next tick emitted carries this value.
    pub current_tick: i32,
    /// Carried-over time, in milliseconds, not yet turned into ticks.
    /// Always strictly less than `tick_interval` between calls.
    pub time_available: u64,
}

impl TickTimer {
    pub fn new(tick_interval: u64) -> (r: Self)
        ensures
            r.tick_interval == tick_interval,
            r.current_tick == 0,
            r.time_available == 0,
    {
        TickTimer { tick_interval, current_tick: 0, time_available: 0 }
    }

    /// Add `elapsed_ms` of real time to the carry-over, then emit one tick
    /// per full interval now available, in order. Returns zero or more ticks;
    /// the remainder below one interval is carried to the next call, so
    /// ticks are conserved however the elapsed time is chunked.
    pub fn tick(&mut self, elapsed_ms: u64) -> (ticks: Vec<i32>)
        requires
            old(self).tick_interval > 0,
            old(self).time_available + elapsed_ms <= u64::MAX,
        ensures
            final(self).tick_interval == old(self).tick_interval,
            ticks@.len() == (old(self).time_available + elapsed_ms) / old(self).tick_interval as int,
            final(self).time_available == (old(self).time_available + elapsed_ms) % old(
                self,
            ).tick_interval as int,
            forall|i: int|
                0 <= i < ticks@.len() ==> ticks@[i] == tick_after(old(self).current_tick, i as nat),
            ticks@ == emitted_ticks(old(self).current_tick, ticks@.len()),
            final(self).current_tick == tick_after(old(self).current_tick, ticks@.len()),
    {
        self.time_available = self.time_available + elapsed_ms;

        let ghost start = self.current_tick;
        let ghost budget = self.time_available as int;
        let mut ticks: Vec<i32> = Vec::new();
        proof {
            assert(ticks@.len() * self.tick_interval == 0) by (nonlinear_arith)
                requires
                    ticks@.len() == 0,
            ;
        }
        while self.time_available >= self.tick_interval
            invariant
                self.tick_interval == old(self).tick_interval,
                self.tick_interval > 0,
                budget == self.time_available + ticks@.len() * self.tick_interval,
                forall|i: int| 0 <= i < ticks@.len() ==> ticks@[i] == tick_after(start, i as nat),
                self.current_tick == tick_after(start, ticks@.len()),
            decreases self.time_available,
        {
            self.time_available = self.time_available - self.tick_interval;
            ticks.push(self.current_tick);
            self.current_tick = if self.current_tick == i32::MAX {
                i32::MIN
            } else {
                self.current_tick + 1
            };
            assert(self.current_tick == tick_after(start, ticks@.len()));
            proof {
                let n = ticks@.len() as int;
                let iv = self.tick_interval as int;
                assert(n * iv == (n - 1) * iv + iv) by (nonlinear_arith);
            }
        }
        proof {
            vstd::arithmetic::div_mod::lemma_fundamental_div_mod_converse(
                budget,
                self.tick_interval as int,
                ticks@.len() as int,
                self.time_available as int,
            );
            assert(ticks@ =~= emitted_ticks(start, ticks@.len()));
        }
        ticks
    }
}

/// The sum of a sequence of elapsed times.
pub open spec fn elapsed_sum(dts: Seq<int>) -> int
    decreases dts.len(),
{
    if dts.len() == 0 {
        0
    } else {
        dts[0] + elapsed_sum(dts.drop_first())
    }
}

/// The total number of ticks a timer emits over a sequence of calls, by
/// `tick`'s contract: each call turns the carry plus its elapsed time into
/// that many whole intervals and keeps the remainder as the new carry.
pub open spec fn total_ticks(carry: int, interval: int, dts: Seq<int>) -> int
    decreases dts.len(),
{
    if dts.len() == 0 {
        0
    } else {
        (carry + dts[0]) / interval + total_ticks((carry + dts[0]) % interval, interval, dts.drop_first())
    }
}

proof fn lemma_elapsed_sum_nonneg(dts: Seq<int>)
    requires
        forall|j: int| 0 <= j < dts.len() ==> dts[j] >= 0,
    ensures
        elapsed_sum(dts) >= 0,
    decreases dts.len(),
{
    if dts.len() > 0 {
        assert(forall|j: int|
            0 <= j < dts.len() - 1 ==> dts.drop_first()[j] == dts[j + 1] && dts[j + 1] >= 0);
        lemma_elapsed_sum_nonneg(dts.drop_first());
    }
}

/// Tick conservation over any chunking: for any sequence of elapsed times
/// handed to consecutive `tick` calls, the total number of ticks emitted is
/// exactly `(carry + total elapsed time) / interval` — no tick is ever lost
/// or duplicated, however the same total time is chunked into calls.
pub proof fn lemma_tick_conservation_chunked(carry: int, interval: int, dts: Seq<int>)
    requires
        interval > 0,
        0 <= carry < interval,
        forall|j: int| 0 <= j < dts.len() ==> dts[j] >= 0,
    ensures
        total_ticks(carry, interval, dts) == (carry + elapsed_sum(dts)) / interval,
    decreases dts.len(),
{
    if dts.len() == 0 {
        vstd::arithmetic::div_mod::lemma_basic_div(carry, interval);
    } else {
        let rest = dts.drop_first();
        assert(forall|j: int|
            0 <= j < rest.len() ==> rest[j] == dts[j + 1] && dts[j + 1] >= 0);
        let c1 = (carry + dts[0]) % interval;
        vstd::arithmetic::div_mod::lemma_mod_bound(carry + dts[0], interval);
        lemma_tick_conservation_chunked(c1, interval, rest);
        lemma_elapsed_sum_nonneg(rest);
        lemma_tick_conservation(carry, dts[0], elapsed_sum(rest), interval);
    }
}

/// Tick conservation: however a total of elapsed time is split into two
/// consecutive calls, the ticks emitted by the two calls together equal the
/// ticks one combined call would have emitted, and the carry-over left
/// behind is the same.
pub proof fn lemma_tick_conservation(carry: int, dt1: int, dt2: int, interval: int)
    requires
        interval > 0,
        carry >= 0,
        dt1 >= 0,
        dt2 >= 0,
    ensures
        (carry + dt1) / interval + ((carry + dt1) % interval + dt2) / interval == (carry + dt1
            + dt2) / interval,
        ((carry + dt1) % interval + dt2) % interval == (carry + dt1 + dt2) % interval,
{
    let a = carry + dt1;
    vstd::arithmetic::div_mod::lemma_fundamental_div_mod(a, interval);
    let q = a / interval;
    let r = a % interval;
    assert(a == interval * q + r);
    vstd::arithmetic::div_mod::lemma_hoist_over_denominator(r + dt2, q, interval as nat);
    assert((r + dt2) / interval + q == (r + dt2 + q * interval) / interval);
    assert(r + dt2 + q * interval == a + dt2) by (nonlinear_arith)
        requires
            a == interval * q + r,
    ;
    vstd::arithmetic::div_mod::lemma_mod_multiples_vanish(q, r + dt2, interval);
    assert((q * interval + (r + dt2)) % interval == (r + dt2) % interval);
}

} // verus!
