use vstd::prelude::*;

verus! {

/// What the scheduler holds: units handed to the output so far, whether the
/// output is paused, and how many units are buffered before playback starts.
pub struct SchedulerView {
    pub units: nat,
    pub paused: bool,
    pub warm_up: nat,
}

/// One more unit, counted up to the largest `u64`.
pub open spec fn count_one_more(n: nat) -> nat {
    if n < u64::MAX {
        n + 1
    } else {
        n
    }
}

/// The state after one more unit is ready: the output resumes the moment the
/// count exceeds the warm-up threshold, and never pauses again.
pub open spec fn after_unit(s: SchedulerView) -> SchedulerView {
    SchedulerView {
        units: count_one_more(s.units),
        paused: s.paused && count_one_more(s.units) <= s.warm_up,
        warm_up: s.warm_up,
    }
}

/// The state of a fresh scheduler after `n` units.
pub open spec fn after_units(warm_up: nat, n: nat) -> SchedulerView
    decreases n,
{
    if n == 0 {
        SchedulerView { units: 0, paused: true, warm_up }
    } else {
        after_unit(after_units(warm_up, (n - 1) as nat))
    }
}

/// Decides when the paused output starts playing: once more units than the
/// warm-up threshold have been handed to it.
pub struct PlaybackScheduler {
    units_enqueued: u64,
    paused: bool,
    warm_up_threshold: u64,
}

impl View for PlaybackScheduler {
    type V = SchedulerView;

    closed spec fn view(&self) -> SchedulerView {
        SchedulerView {
            units: self.units_enqueued as nat,
            paused: self.paused,
            warm_up: self.warm_up_threshold as nat,
        }
    }
}

impl PlaybackScheduler {
    pub fn new(warm_up_threshold: u64) -> (r: PlaybackScheduler)
        ensures
            r@ == after_units(warm_up_threshold as nat, 0),
    {
        PlaybackScheduler { units_enqueued: 0, paused: true, warm_up_threshold }
    }

    /// Counts a unit handed to the output; returns whether the output is to
    /// resume now.
    pub fn on_unit_ready(&mut self) -> (resume: bool)
        ensures
            final(self)@ == after_unit(old(self)@),
            resume == (old(self)@.paused && !final(self)@.paused),
    {
        if self.units_enqueued < u64::MAX {
            self.units_enqueued = self.units_enqueued + 1;
        }
        if self.paused && self.units_enqueued > self.warm_up_threshold {
            self.paused = false;
            true
        } else {
            false
        }
    }

    /// Resumes the output whatever the count; returns whether it was paused.
    pub fn force_resume(&mut self) -> (was_paused: bool)
        ensures
            final(self)@ == (SchedulerView { paused: false, ..old(self)@ }),
            was_paused == old(self)@.paused,
    {
        let was_paused = self.paused;
        self.paused = false;
        was_paused
    }

    pub fn units_enqueued(&self) -> (r: u64)
        ensures
            r == self@.units,
    {
        self.units_enqueued
    }

    pub fn is_paused(&self) -> (r: bool)
        ensures
            r == self@.paused,
    {
        self.paused
    }

    pub fn warm_up_threshold(&self) -> (r: u64)
        ensures
            r == self@.warm_up,
    {
        self.warm_up_threshold
    }
}

/// A fresh scheduler stays paused for the first `warm_up` units and is
/// playing from unit `warm_up + 1` on, for good.
pub proof fn lemma_warm_up(warm_up: u64, n: nat)
    requires
        n <= u64::MAX,
    ensures
        after_units(warm_up as nat, n).units == n,
        after_units(warm_up as nat, n).warm_up == warm_up,
        after_units(warm_up as nat, n).paused == (n <= warm_up),
    decreases n,
{
    if n > 0 {
        let prev = after_units(warm_up as nat, (n - 1) as nat);
        lemma_warm_up(warm_up, (n - 1) as nat);
        assert(count_one_more(prev.units) == n);
        assert(after_units(warm_up as nat, n) == after_unit(prev));
    }
}

} // verus!
