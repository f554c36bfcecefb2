use vstd::prelude::*;
use vstd::arithmetic::div_mod::{
    lemma_div_is_ordered, lemma_fundamental_div_mod, lemma_fundamental_div_mod_converse_div,
    lemma_multiply_divide_le,
};
use vstd::arithmetic::mul::lemma_mul_inequality;
use crate::param::{clamp_pan, clamped, in_pan_range, PAN_UNIT};

verus! {

/// The number of samples a ramp of `duration` takes to reach its target; a
/// zero duration still takes the one sample in which the target is read.
pub open spec fn span(duration: nat) -> nat {
    if duration == 0 {
        1
    } else {
        duration
    }
}

/// The share `amount * elapsed / duration` of a distance, rounded toward zero.
pub open spec fn part(amount: int, elapsed: int, duration: int) -> int {
    amount * elapsed / duration
}

/// The value of a linear ramp from `start` to `target` lasting `duration`
/// samples, after `elapsed` of them. The step is rounded toward `start`, so
/// the ramp never passes its target, and it lands on it exactly at the end.
pub open spec fn ramp_value(start: int, target: int, elapsed: nat, duration: nat) -> int {
    if elapsed == 0 {
        start
    } else if elapsed >= duration {
        target
    } else if start <= target {
        start + part(target - start, elapsed as int, duration as int)
    } else {
        start - part(start - target, elapsed as int, duration as int)
    }
}

/// The largest move of one sample along any ramp of `duration` samples
/// inside the pan range: the full width of the range divided by the
/// duration, rounded up.
pub open spec fn max_step(duration: nat) -> int {
    (2 * PAN_UNIT + span(duration) - 1) / (span(duration) as int)
}

/// The state of a smoother: the ramp it is on and how far along it is.
pub ghost struct RampState {
    pub start: int,
    pub target: int,
    pub duration: nat,
    pub elapsed: nat,
}

impl RampState {
    pub open spec fn wf(self) -> bool {
        &&& in_pan_range(self.start)
        &&& in_pan_range(self.target)
        &&& self.elapsed <= span(self.duration)
    }

    /// The effective value at this sample.
    pub open spec fn current(self) -> int {
        ramp_value(self.start, self.target, self.elapsed, self.duration)
    }

    /// The state one sample later.
    pub open spec fn advanced(self) -> RampState {
        if self.elapsed < span(self.duration) {
            RampState { elapsed: self.elapsed + 1, ..self }
        } else {
            self
        }
    }

    /// The state `n` samples later.
    pub open spec fn advanced_by(self, n: nat) -> RampState
        decreases n,
    {
        if n == 0 {
            self
        } else {
            self.advanced_by((n - 1) as nat).advanced()
        }
    }

    /// The state after a new target `v` is requested: a fresh ramp from the
    /// value in effect now toward `v`, clamped into the pan range.
    pub open spec fn retargeted(self, v: int) -> RampState {
        RampState { start: self.current(), target: clamped(v), duration: self.duration, elapsed: 0 }
    }

    /// The state after a jump straight to `v`, clamped: no ramp is left.
    pub open spec fn reset_to(self, v: int) -> RampState {
        RampState { start: clamped(v), target: clamped(v), duration: self.duration, elapsed: 0 }
    }
}

/// The number of samples in `millis` milliseconds at `sample_rate` samples
/// per second, rounded down; the length of a ramp given in time.
pub open spec fn samples_in(sample_rate: int, millis: int) -> int {
    sample_rate * millis / 1000
}

/// Converts a ramp length in milliseconds to samples, saturating at the
/// largest length a smoother holds.
pub fn ramp_samples(sample_rate: u32, millis: u32) -> (r: u32)
    ensures
        r == if samples_in(sample_rate as int, millis as int) <= u32::MAX {
            samples_in(sample_rate as int, millis as int)
        } else {
            u32::MAX as int
        },
{
    assert(sample_rate * millis <= u32::MAX * u32::MAX) by (nonlinear_arith)
        requires
            sample_rate <= u32::MAX,
            millis <= u32::MAX,
    ;
    let n: u64 = (sample_rate as u64) * (millis as u64) / 1000;
    if n <= u32::MAX as u64 {
        n as u32
    } else {
        u32::MAX
    }
}

/// A per-sample linear smoother for the pan position.
pub struct Smoother {
    start: i32,
    target: i32,
    duration: u32,
    elapsed: u32,
}

impl View for Smoother {
    type V = RampState;

    closed spec fn view(&self) -> RampState {
        RampState {
            start: self.start as int,
            target: self.target as int,
            duration: self.duration as nat,
            elapsed: self.elapsed as nat,
        }
    }
}

/// A share of a distance is no more than the distance, and grows with the
/// number of elapsed samples.
proof fn lemma_part_bounds(amount: int, k1: int, k2: int, d: int)
    requires
        0 <= amount,
        0 <= k1 <= k2 <= d,
        0 < d,
    ensures
        0 <= part(amount, k1, d) <= part(amount, k2, d) <= amount,
{
    lemma_mul_inequality(k1, k2, amount);
    lemma_mul_inequality(k2, d, amount);
    assert(0 <= amount * k1) by (nonlinear_arith)
        requires
            0 <= amount,
            0 <= k1,
    ;
    assert(amount * k1 == k1 * amount) by (nonlinear_arith);
    assert(amount * k2 == k2 * amount) by (nonlinear_arith);
    lemma_div_is_ordered(0, amount * k1, d);
    lemma_div_is_ordered(amount * k1, amount * k2, d);
    lemma_multiply_divide_le(amount * k2, d, amount);
    assert(d * amount == k2 * amount + (d - k2) * amount) by (nonlinear_arith);
    assert((d - k2) * amount >= 0) by (nonlinear_arith)
        requires
            d - k2 >= 0,
            amount >= 0,
    ;
}

/// One more elapsed sample moves the share by at most the distance divided
/// by the duration, rounded up.
proof fn lemma_part_step(amount: int, k: int, d: int)
    requires
        0 <= amount,
        0 <= k,
        0 < d,
    ensures
        part(amount, k + 1, d) - part(amount, k, d) <= (amount + d - 1) / d,
{
    let q = amount * k / d;
    let r = amount * k % d;
    lemma_fundamental_div_mod(amount * k, d);
    assert(0 <= r < d);
    let q2 = (r + amount) / d;
    let r2 = (r + amount) % d;
    lemma_fundamental_div_mod(r + amount, d);
    assert(0 <= r2 < d);
    assert(amount * (k + 1) == amount * k + amount) by (nonlinear_arith);
    assert(amount * (k + 1) == (q + q2) * d + r2) by (nonlinear_arith)
        requires
            amount * k == d * q + r,
            r + amount == d * q2 + r2,
            amount * (k + 1) == amount * k + amount,
    ;
    lemma_fundamental_div_mod_converse_div(amount * (k + 1), d, q + q2, r2);
    lemma_div_is_ordered(r + amount, amount + d - 1, d);
}

/// On a ramp of nonzero duration, the value after `k` samples, `k` at most
/// the duration, is the start moved by the share of the distance.
proof fn lemma_ramp_as_part(s: int, t: int, k: nat, d: nat)
    requires
        k <= d,
        0 < d,
    ensures
        s <= t ==> ramp_value(s, t, k, d) == s + part(t - s, k as int, d as int),
        s >= t ==> ramp_value(s, t, k, d) == s - part(s - t, k as int, d as int),
{
    assert(part(t - s, 0, d as int) == 0);
    assert(part(s - t, 0, d as int) == 0);
    assert(0 * (k as int) / (d as int) == 0) by (nonlinear_arith)
        requires
            d > 0,
    ;
    assert((t - s) * (d as int) / (d as int) == t - s) by (nonlinear_arith)
        requires
            d > 0,
    ;
    assert((s - t) * (d as int) / (d as int) == s - t) by (nonlinear_arith)
        requires
            d > 0,
    ;
}

/// Along a ramp the value moves from the start toward the target without
/// turning back and without passing the target.
proof fn lemma_ramp_value_monotone(s: int, t: int, k1: nat, k2: nat, d: nat)
    requires
        k1 <= k2,
    ensures
        s <= t ==> s <= ramp_value(s, t, k1, d) <= ramp_value(s, t, k2, d) <= t,
        s >= t ==> s >= ramp_value(s, t, k1, d) >= ramp_value(s, t, k2, d) >= t,
{
    if d == 0 {
    } else {
        let j1: nat = if k1 <= d { k1 } else { d };
        let j2: nat = if k2 <= d { k2 } else { d };
        assert(ramp_value(s, t, k1, d) == ramp_value(s, t, j1, d));
        assert(ramp_value(s, t, k2, d) == ramp_value(s, t, j2, d));
        lemma_ramp_as_part(s, t, j1, d);
        lemma_ramp_as_part(s, t, j2, d);
        if s <= t {
            lemma_part_bounds(t - s, j1 as int, j2 as int, d as int);
        }
        if s >= t {
            lemma_part_bounds(s - t, j1 as int, j2 as int, d as int);
        }
    }
}

/// Advancing `n` samples keeps the ramp and counts the samples, up to its end.
pub(crate) proof fn lemma_advanced_by(st: RampState, n: nat)
    requires
        st.wf(),
    ensures
        st.advanced_by(n).wf(),
        st.advanced_by(n).start == st.start,
        st.advanced_by(n).target == st.target,
        st.advanced_by(n).duration == st.duration,
        st.advanced_by(n).elapsed == if st.elapsed + n <= span(st.duration) {
            (st.elapsed + n) as nat
        } else {
            span(st.duration)
        },
    decreases n,
{
    if n > 0 {
        lemma_advanced_by(st, (n - 1) as nat);
    }
}

/// A smoother converges on its target monotonically: every sample moves the
/// effective value toward the target or leaves it where it is, no value lies
/// beyond the target, and once the ramp's `span(duration)` samples have gone
/// by the value is exactly the target and stays there.
pub proof fn lemma_ramp_converges_monotonically(st: RampState, n: nat)
    requires
        st.wf(),
    ensures
        st.start <= st.target ==> st.start <= st.current() <= st.advanced().current() <= st.target,
        st.start >= st.target ==> st.start >= st.current() >= st.advanced().current() >= st.target,
        st.advanced_by(n).wf(),
        st.elapsed + n >= span(st.duration) ==> st.advanced_by(n).current() == st.target,
{
    lemma_ramp_value_monotone(st.start, st.target, st.elapsed, st.advanced().elapsed, st.duration);
    lemma_advanced_by(st, n);
}

/// One sample moves the effective value by at most `max_step(duration)`,
/// the step of a ramp across the whole pan range, which exceeds the exact
/// `2 * PAN_UNIT / span(duration)` by less than one unit.
pub proof fn lemma_step_is_bounded(st: RampState)
    requires
        st.wf(),
    ensures
        max_step(st.duration) * span(st.duration) <= 2 * PAN_UNIT + span(st.duration) - 1,
        st.current() - max_step(st.duration) <= st.advanced().current() <= st.current() + max_step(
            st.duration,
        ),
{
    let d = st.duration;
    let s = st.start;
    let t = st.target;
    let k = st.elapsed;
    lemma_fundamental_div_mod(2 * PAN_UNIT + span(d) - 1, span(d) as int);
    assert((2 * PAN_UNIT + span(d) - 1) % (span(d) as int) >= 0);
    assert(max_step(d) * span(d) == span(d) * max_step(d)) by (nonlinear_arith);
    if k < span(d) {
        if d == 0 {
            assert(max_step(d) == 2 * PAN_UNIT);
        } else {
            lemma_ramp_as_part(s, t, k, d);
            lemma_ramp_as_part(s, t, k + 1, d);
            if s <= t {
                lemma_part_step(t - s, k as int, d as int);
                lemma_part_bounds(t - s, k as int, k + 1int, d as int);
                lemma_div_is_ordered(t - s + d - 1, 2 * PAN_UNIT + d - 1, d as int);
            } else {
                lemma_part_step(s - t, k as int, d as int);
                lemma_part_bounds(s - t, k as int, k + 1int, d as int);
                lemma_div_is_ordered(s - t + d - 1, 2 * PAN_UNIT + d - 1, d as int);
            }
        }
    }
}

/// Requesting a new target mid-ramp causes no jump: at the request the
/// effective value stays where it was, and the first sample after it moves
/// by no more than one step of a full-range ramp.
pub proof fn lemma_retarget_is_continuous(st: RampState, v: int)
    requires
        st.wf(),
    ensures
        st.retargeted(v).current() == st.current(),
        st.current() - max_step(st.duration) <= st.retargeted(v).advanced().current()
            <= st.current() + max_step(st.duration),
{
    lemma_ramp_value_monotone(st.start, st.target, 0, st.elapsed, st.duration);
    lemma_step_is_bounded(st.retargeted(v));
}

impl Smoother {
    pub open spec fn wf(&self) -> bool {
        self@.wf()
    }

    /// A smoother at rest on the centre, whose ramps last `duration` samples.
    pub fn new(duration: u32) -> (r: Smoother)
        ensures
            r.wf(),
            r@ == (RampState { start: 0, target: 0, duration: duration as nat, elapsed: 0 }),
    {
        Smoother { start: 0, target: 0, duration, elapsed: 0 }
    }

    /// The effective value at this sample.
    pub fn current(&self) -> (r: i32)
        requires
            self.wf(),
        ensures
            r == self@.current(),
            in_pan_range(r as int),
    {
        if self.elapsed == 0 {
            self.start
        } else if self.elapsed >= self.duration {
            self.target
        } else if self.start <= self.target {
            let amount: u64 = (self.target as i64 - self.start as i64) as u64;
            proof {
                lemma_part_bounds(amount as int, self.elapsed as int, self.elapsed as int, self.duration as int);
                assert(amount * self.elapsed <= amount * self.duration) by (nonlinear_arith)
                    requires self.elapsed <= self.duration, amount >= 0;
                assert(amount * self.duration <= 2 * PAN_UNIT * 0x1_0000_0000) by (nonlinear_arith)
                    requires amount <= 2 * PAN_UNIT, self.duration < 0x1_0000_0000, amount >= 0;
            }
            let moved: u64 = amount * (self.elapsed as u64) / (self.duration as u64);
            (self.start as i64 + moved as i64) as i32
        } else {
            let amount: u64 = (self.start as i64 - self.target as i64) as u64;
            proof {
                lemma_part_bounds(amount as int, self.elapsed as int, self.elapsed as int, self.duration as int);
                assert(amount * self.elapsed <= amount * self.duration) by (nonlinear_arith)
                    requires self.elapsed <= self.duration, amount >= 0;
                assert(amount * self.duration <= 2 * PAN_UNIT * 0x1_0000_0000) by (nonlinear_arith)
                    requires amount <= 2 * PAN_UNIT, self.duration < 0x1_0000_0000, amount >= 0;
            }
            let moved: u64 = amount * (self.elapsed as u64) / (self.duration as u64);
            (self.start as i64 - moved as i64) as i32
        }
    }

    /// The target the smoother is heading for.
    pub fn target(&self) -> (r: i32)
        requires
            self.wf(),
        ensures
            r == self@.target,
    {
        self.target
    }

    /// The number of samples a ramp lasts.
    pub fn duration(&self) -> (r: u32)
        ensures
            r == self@.duration,
    {
        self.duration
    }

    /// Requests a new target. The effective value does not move now: the next
    /// samples ramp from it toward the clamped target.
    pub fn set_target(&mut self, v: i32)
        requires
            old(self).wf(),
        ensures
            final(self).wf(),
            final(self)@ == old(self)@.retargeted(v as int),
            final(self)@.current() == old(self)@.current(),
    {
        let now = self.current();
        self.start = now;
        self.target = clamp_pan(v);
        self.elapsed = 0;
    }

    /// Jumps straight to `v`, clamped, with no ramp.
    pub fn reset(&mut self, v: i32)
        requires
            old(self).wf(),
        ensures
            final(self).wf(),
            final(self)@ == old(self)@.reset_to(v as int),
    {
        let c = clamp_pan(v);
        self.start = c;
        self.target = c;
        self.elapsed = 0;
    }

    /// Changes the length of the ramps; the value in effect now is kept and
    /// the rest of the way to the target is covered in `duration` samples.
    pub fn set_duration(&mut self, duration: u32)
        requires
            old(self).wf(),
        ensures
            final(self).wf(),
            final(self)@ == (RampState {
                start: old(self)@.current(),
                target: old(self)@.target,
                duration: duration as nat,
                elapsed: 0,
            }),
    {
        let now = self.current();
        self.start = now;
        self.duration = duration;
        self.elapsed = 0;
    }

    /// Advances by exactly one sample and returns the new effective value.
    pub fn next(&mut self) -> (r: i32)
        requires
            old(self).wf(),
        ensures
            final(self).wf(),
            final(self)@ == old(self)@.advanced(),
            r == final(self)@.current(),
            in_pan_range(r as int),
    {
        if self.elapsed < self.duration || self.elapsed == 0 {
            self.elapsed = self.elapsed + 1;
        }
        self.current()
    }
}

} // verus!
