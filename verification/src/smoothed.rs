//! A scalar that follows a movable target by exponential decay.
//!
//! Values are fixed-point (see [`crate::fixed`]); time is counted in
//! microseconds. During an update the gap between the value and its target
//! shrinks geometrically, never by less than a minimum rate, and the value
//! snaps onto the target once the gap is negligible.

use crate::fixed::{saturate, saturated};
use vstd::prelude::*;

verus! {

/// Denominator of smoothing factors: a factor `f` stands for `f / 2^32`.
pub const FRACTION_ONE: u64 = 0x1_0000_0000;

/// Number of time units (microseconds) in one second.
pub const TICKS_PER_SECOND: u64 = 1_000_000;

/// A gap of at most this many units is closed at once.
pub const SETTLE_DISTANCE: u64 = 64;

/// The distance between two numbers.
pub open spec fn distance(a: int, b: int) -> nat {
    if a <= b {
        (b - a) as nat
    } else {
        (a - b) as nat
    }
}

/// The fraction (over [`FRACTION_ONE`]) of a gap that survives `ticks`
/// microseconds when `factor` of it survives one microsecond: the power
/// `factor^ticks`, built by squaring, each product rounded down.
pub open spec fn retained(factor: nat, ticks: nat) -> nat
    decreases ticks,
{
    if ticks == 0 {
        FRACTION_ONE as nat
    } else if ticks % 2 == 0 {
        let half = retained(factor, ticks / 2);
        half * half / (FRACTION_ONE as nat)
    } else {
        factor * retained(factor, (ticks - 1) as nat) / (FRACTION_ONE as nat)
    }
}

/// Nothing is gained by waiting: the surviving fraction never exceeds one,
/// and after at least one microsecond it is at most `factor`.
pub proof fn lemma_retained_bounds(factor: nat, ticks: nat)
    requires
        factor <= FRACTION_ONE,
    ensures
        retained(factor, ticks) <= FRACTION_ONE,
        ticks > 0 ==> retained(factor, ticks) <= factor,
    decreases ticks,
{
    let one = FRACTION_ONE as nat;
    if ticks == 0 {
    } else if ticks % 2 == 0 {
        let half = retained(factor, ticks / 2);
        lemma_retained_bounds(factor, ticks / 2);
        assert(half * half <= half * one) by (nonlinear_arith)
            requires
                half <= one,
        ;
        assert(half * one / one == half) by (nonlinear_arith)
            requires
                one > 0,
        ;
        assert(half * half / one <= half * one / one) by (nonlinear_arith)
            requires
                half * half <= half * one,
                one > 0,
        ;
    } else {
        let rest = retained(factor, (ticks - 1) as nat);
        lemma_retained_bounds(factor, (ticks - 1) as nat);
        assert(factor * rest <= factor * one) by (nonlinear_arith)
            requires
                rest <= one,
        ;
        assert(factor * one / one == factor) by (nonlinear_arith)
            requires
                one > 0,
        ;
        assert(factor * rest / one <= factor * one / one) by (nonlinear_arith)
            requires
                factor * rest <= factor * one,
                one > 0,
        ;
    }
}

/// Computes [`retained`].
pub fn retained_fraction(smoothing_factor: u32, delta_time: u64) -> (result: u64)
    ensures
        result == retained(smoothing_factor as nat, delta_time as nat),
        result <= FRACTION_ONE,
    decreases delta_time,
{
    proof {
        lemma_retained_bounds(smoothing_factor as nat, delta_time as nat);
    }
    if delta_time == 0 {
        FRACTION_ONE
    } else if delta_time % 2 == 0 {
        let half: u64 = retained_fraction(smoothing_factor, delta_time / 2);
        assert(half * half <= 0x1_0000_0000 * 0x1_0000_0000) by (nonlinear_arith)
            requires
                half <= 0x1_0000_0000,
        ;
        ((half as u128) * (half as u128) / (FRACTION_ONE as u128)) as u64
    } else {
        let rest: u64 = retained_fraction(smoothing_factor, delta_time - 1);
        assert(smoothing_factor * rest <= 0x1_0000_0000 * 0x1_0000_0000) by (nonlinear_arith)
            requires
                smoothing_factor <= 0x1_0000_0000,
                rest <= 0x1_0000_0000,
        ;
        ((smoothing_factor as u128) * (rest as u128) / (FRACTION_ONE as u128)) as u64
    }
}

/// The mathematical state of a [`SmoothedValue`].
pub struct Smoothing {
    /// The value that consumers read.
    pub current: int,
    /// The target that the value approaches.
    pub desired: int,
    /// Fraction (over [`FRACTION_ONE`]) of the gap that survives one
    /// microsecond.
    pub smoothing_factor: nat,
    /// Least change per second, in value units.
    pub rate: nat,
}

impl Smoothing {
    /// The distance still to cover.
    pub open spec fn gap(self) -> nat {
        distance(self.current, self.desired)
    }

    /// The value rests on its target.
    pub open spec fn settled(self) -> bool {
        self.current == self.desired
    }

    /// How far the value would move in `ticks` microseconds if the target
    /// were far away: the decayed share of the gap, or the minimum rate's
    /// share of the time, whichever is larger.
    pub open spec fn step(self, ticks: nat) -> nat {
        let kept = self.gap() * retained(self.smoothing_factor, ticks) / (FRACTION_ONE as nat);
        let decayed = (self.gap() - kept) as nat;
        let least = self.rate * ticks / (TICKS_PER_SECOND as nat);
        if decayed >= least {
            decayed
        } else {
            least
        }
    }

    /// The state after `ticks` microseconds have passed.
    pub open spec fn updated(self, ticks: nat) -> Smoothing {
        let step = self.step(ticks);
        let current = if self.gap() <= step + SETTLE_DISTANCE {
            self.desired
        } else if self.current < self.desired {
            self.current + step
        } else {
            self.current - step
        };
        Smoothing { current, ..self }
    }

    /// The state after the target has moved by `delta`, stopping at the ends
    /// of the representable range.
    pub open spec fn moved(self, delta: int) -> Smoothing {
        Smoothing { desired: saturated(self.desired + delta), ..self }
    }

    /// The state after the target has moved by `delta` and been brought back
    /// into `minimum ..= maximum`.
    pub open spec fn moved_clamped(self, delta: int, minimum: int, maximum: int) -> Smoothing {
        let target = self.desired + delta;
        let desired = if target < minimum {
            minimum
        } else if target > maximum {
            maximum
        } else {
            target
        };
        Smoothing { desired, ..self }
    }

    /// The state after a run of updates, one per entry of `ticks`.
    pub open spec fn after(self, ticks: Seq<nat>) -> Smoothing
        decreases ticks.len(),
    {
        if ticks.len() == 0 {
            self
        } else {
            self.after(ticks.drop_last()).updated(ticks.last())
        }
    }

    /// `value` lies between the current value and the target, ends included.
    pub open spec fn spans(self, value: int) -> bool {
        ||| self.current <= value <= self.desired
        ||| self.desired <= value <= self.current
    }
}

/// An exponentially damped scalar with a movable target.
#[derive(Clone, Copy, Debug, PartialEq, Eq)]
pub struct SmoothedValue {
    current: i64,
    desired: i64,
    smoothing_factor: u32,
    rate: u64,
}

impl View for SmoothedValue {
    type V = Smoothing;

    closed spec fn view(&self) -> Smoothing {
        Smoothing {
            current: self.current as int,
            desired: self.desired as int,
            smoothing_factor: self.smoothing_factor as nat,
            rate: self.rate as nat,
        }
    }
}

impl SmoothedValue {
    /// A value at rest on `initial`. Of any gap, `smoothing_factor / 2^32`
    /// survives each microsecond; the value moves by at least `rate` units
    /// per second.
    pub fn new(initial: i64, smoothing_factor: u32, rate: u64) -> (result: Self)
        ensures
            result@ == (Smoothing {
                current: initial as int,
                desired: initial as int,
                smoothing_factor: smoothing_factor as nat,
                rate: rate as nat,
            }),
    {
        SmoothedValue { current: initial, desired: initial, smoothing_factor, rate }
    }

    /// Moves the target by `delta`; the value itself stays.
    pub fn move_desired(&mut self, delta: i64)
        ensures
            final(self)@ == old(self)@.moved(delta as int),
    {
        self.desired = saturate(self.desired as i128 + delta as i128);
    }

    /// Moves the target by `delta` and clamps it into `minimum ..= maximum`;
    /// the value itself stays.
    pub fn move_desired_clamp(&mut self, delta: i64, minimum: i64, maximum: i64)
        requires
            minimum <= maximum,
        ensures
            final(self)@ == old(self)@.moved_clamped(delta as int, minimum as int, maximum as int),
            minimum <= final(self)@.desired <= maximum,
    {
        let target: i128 = self.desired as i128 + delta as i128;
        if target < minimum as i128 {
            self.desired = minimum;
        } else if target > maximum as i128 {
            self.desired = maximum;
        } else {
            self.desired = target as i64;
        }
    }

    /// Lets `delta_time` microseconds pass: the value approaches its target
    /// and never passes it.
    pub fn update(&mut self, delta_time: u64)
        ensures
            final(self)@ == old(self)@.updated(delta_time as nat),
            old(self)@.spans(final(self)@.current),
            final(self)@.gap() <= old(self)@.gap(),
            delta_time > 0 && !old(self)@.settled() ==> final(self)@.gap() < old(self)@.gap(),
    {
        proof {
            lemma_update_approaches(self@, delta_time as nat);
        }
        let rising: bool = self.current < self.desired;
        let gap: u128 = if rising {
            (self.desired as i128 - self.current as i128) as u128
        } else {
            (self.current as i128 - self.desired as i128) as u128
        };
        let keep: u64 = retained_fraction(self.smoothing_factor, delta_time);
        assert(gap * keep <= 0x1_0000_0000_0000_0000 * 0x1_0000_0000) by (nonlinear_arith)
            requires
                gap <= 0x1_0000_0000_0000_0000,
                keep <= 0x1_0000_0000,
        ;
        let kept: u128 = gap * (keep as u128) / (FRACTION_ONE as u128);
        proof {
            lemma_kept_bounds(gap as nat, keep as nat);
        }
        let decayed: u128 = gap - kept;
        assert(self.rate * delta_time <= 0xffff_ffff_ffff_ffff * 0xffff_ffff_ffff_ffff)
            by (nonlinear_arith)
            requires
                self.rate <= 0xffff_ffff_ffff_ffff,
                delta_time <= 0xffff_ffff_ffff_ffff,
        ;
        let least: u128 = (self.rate as u128) * (delta_time as u128) / (TICKS_PER_SECOND as u128);
        let step: u128 = if decayed >= least {
            decayed
        } else {
            least
        };
        if gap <= step + SETTLE_DISTANCE as u128 {
            self.current = self.desired;
        } else if rising {
            self.current = (self.current as i128 + step as i128) as i64;
        } else {
            self.current = (self.current as i128 - step as i128) as i64;
        }
    }

    /// The value that consumers read.
    pub fn get_current(&self) -> (result: i64)
        ensures
            result == self@.current,
    {
        self.current
    }

    /// The target that the value approaches.
    pub fn get_desired(&self) -> (result: i64)
        ensures
            result == self@.desired,
    {
        self.desired
    }

    /// Whether the value rests on its target.
    pub fn is_settled(&self) -> (result: bool)
        ensures
            result == self@.settled(),
    {
        self.current == self.desired
    }
}

/// The share of a gap that survives is no larger than the gap, and is
/// smaller once anything is lost.
pub proof fn lemma_kept_bounds(gap: nat, keep: nat)
    requires
        keep <= FRACTION_ONE,
    ensures
        gap * keep / (FRACTION_ONE as nat) <= gap,
        keep < FRACTION_ONE && gap > 0 ==> gap * keep / (FRACTION_ONE as nat) < gap,
{
    let one = FRACTION_ONE as nat;
    assert(gap * keep <= gap * one) by (nonlinear_arith)
        requires
            keep <= one,
    ;
    if keep < one && gap > 0 {
        assert(gap * keep < gap * one) by (nonlinear_arith)
            requires
                keep < one,
                gap > 0,
        ;
    }
}

/// One update brings the value closer to its target without passing it:
/// the new value lies between the old value and the target, the gap does
/// not grow, and it shrinks whenever time has passed and the value was not
/// yet at rest.
pub proof fn lemma_update_approaches(value: Smoothing, ticks: nat)
    requires
        value.smoothing_factor < FRACTION_ONE,
    ensures
        value.spans(value.updated(ticks).current),
        value.updated(ticks).desired == value.desired,
        value.updated(ticks).gap() <= value.gap(),
        ticks > 0 && !value.settled() ==> value.updated(ticks).gap() < value.gap(),
        value.settled() ==> value.updated(ticks) == value,
{
    lemma_retained_bounds(value.smoothing_factor, ticks);
    lemma_kept_bounds(value.gap(), retained(value.smoothing_factor, ticks));
}

/// A run of updates, whatever the time steps, keeps the value between where
/// it started and the target, and no update of the run widens the gap.
pub proof fn lemma_updates_never_overshoot(value: Smoothing, ticks: Seq<nat>)
    requires
        value.smoothing_factor < FRACTION_ONE,
    ensures
        value.spans(value.after(ticks).current),
        value.after(ticks).desired == value.desired,
        value.after(ticks).smoothing_factor == value.smoothing_factor,
        value.after(ticks).rate == value.rate,
        value.after(ticks).gap() <= value.gap(),
        ticks.len() > 0 ==> value.after(ticks).gap() <= value.after(ticks.drop_last()).gap(),
    decreases ticks.len(),
{
    if ticks.len() > 0 {
        lemma_updates_never_overshoot(value, ticks.drop_last());
        lemma_update_approaches(value.after(ticks.drop_last()), ticks.last());
    }
}

/// A run of updates with positive time steps reaches the target: every
/// update of the run closes at least one unit of the gap, so a run at least
/// as long as the gap ends at rest.
pub proof fn lemma_updates_settle(value: Smoothing, ticks: Seq<nat>)
    requires
        value.smoothing_factor < FRACTION_ONE,
        forall|i: int| 0 <= i < ticks.len() ==> ticks[i] > 0,
    ensures
        value.after(ticks).gap() + ticks.len() <= value.gap() || value.after(ticks).settled(),
        ticks.len() >= value.gap() ==> value.after(ticks).settled(),
    decreases ticks.len(),
{
    if ticks.len() > 0 {
        lemma_updates_settle(value, ticks.drop_last());
        lemma_updates_never_overshoot(value, ticks.drop_last());
        lemma_update_approaches(value.after(ticks.drop_last()), ticks.last());
    }
}

} // verus!
