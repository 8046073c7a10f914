use vstd::prelude::*;

verus! {

/// Whether a timer stops at zero or starts over.
#[derive(Clone, Copy, PartialEq, Eq, Structural, Debug, Hash)]
pub enum TimerMode {
    Once,
    Repeating,
}

/// A countdown advanced by the time that passed since the last frame.
///
/// `just_finished` is the edge: it holds only for the tick in which the
/// countdown ran out. `finished` is the level: a one-shot timer stays
/// finished until it is replaced.
#[derive(Clone, Copy, PartialEq, Eq, Structural, Debug)]
pub struct Timer {
    /// Length of one countdown, in microseconds.
    pub duration: u64,
    /// Microseconds left before the countdown runs out.
    pub remaining: u64,
    pub mode: TimerMode,
    /// The last tick made the countdown run out.
    pub just_finished: bool,
}

/// The timer after a tick of `delta` microseconds.
pub open spec fn tick_spec(t: Timer, delta: u64) -> Timer {
    match t.mode {
        TimerMode::Once => if t.remaining == 0 {
            Timer { just_finished: false, ..t }
        } else if delta >= t.remaining {
            Timer { remaining: 0, just_finished: true, ..t }
        } else {
            Timer { remaining: (t.remaining - delta) as u64, just_finished: false, ..t }
        },
        TimerMode::Repeating => if delta >= t.remaining {
            Timer {
                remaining: (t.duration - (delta - t.remaining) % (t.duration as int)) as u64,
                just_finished: true,
                ..t
            }
        } else {
            Timer { remaining: (t.remaining - delta) as u64, just_finished: false, ..t }
        },
    }
}

impl Timer {
    /// Never more left than a whole countdown; a repeating countdown is
    /// never empty.
    pub open spec fn wf(&self) -> bool {
        &&& self.remaining <= self.duration
        &&& self.mode == TimerMode::Repeating ==> self.remaining > 0
    }

    /// The level of the timer: a one-shot timer has run out, or a repeating
    /// one ran out in the last tick.
    pub open spec fn finished_spec(&self) -> bool {
        match self.mode {
            TimerMode::Once => self.remaining == 0,
            TimerMode::Repeating => self.just_finished,
        }
    }

    /// A fresh countdown of `duration` microseconds.
    pub fn new(duration: u64, mode: TimerMode) -> (r: Timer)
        requires
            mode == TimerMode::Repeating ==> duration > 0,
        ensures
            r == (Timer { duration, remaining: duration, mode, just_finished: false }),
            r.wf(),
    {
        Timer { duration, remaining: duration, mode, just_finished: false }
    }

    /// Advances the countdown by `delta` microseconds; returns whether it ran
    /// out in this tick.
    pub fn tick(&mut self, delta: u64) -> (r: bool)
        requires
            old(self).wf(),
        ensures
            *final(self) == tick_spec(*old(self), delta),
            final(self).wf(),
            r == final(self).just_finished,
    {
        match self.mode {
            TimerMode::Once => {
                if self.remaining == 0 {
                    self.just_finished = false;
                } else if delta >= self.remaining {
                    self.remaining = 0;
                    self.just_finished = true;
                } else {
                    self.remaining = self.remaining - delta;
                    self.just_finished = false;
                }
            },
            TimerMode::Repeating => {
                if delta >= self.remaining {
                    let overshoot = delta - self.remaining;
                    self.remaining = self.duration - overshoot % self.duration;
                    self.just_finished = true;
                } else {
                    self.remaining = self.remaining - delta;
                    self.just_finished = false;
                }
            },
        }
        self.just_finished
    }

    pub fn just_finished(&self) -> (r: bool)
        ensures
            r == self.just_finished,
    {
        self.just_finished
    }

    pub fn finished(&self) -> (r: bool)
        ensures
            r == self.finished_spec(),
    {
        match self.mode {
            TimerMode::Once => self.remaining == 0,
            TimerMode::Repeating => self.just_finished,
        }
    }
}

/// A one-shot timer whose holder is removed when it runs out (a short-lived
/// hit effect).
pub struct DestroyAfter(pub Timer);

impl DestroyAfter {
    pub fn new(duration: u64) -> (r: DestroyAfter)
        ensures
            r.0 == (Timer { duration, remaining: duration, mode: TimerMode::Once, just_finished: false }),
    {
        DestroyAfter(Timer::new(duration, TimerMode::Once))
    }

    /// Advances the timer; returns whether the holder is to be removed now.
    pub fn expire(&mut self, delta: u64) -> (r: bool)
        requires
            old(self).0.wf(),
        ensures
            final(self).0 == tick_spec(old(self).0, delta),
            final(self).0.wf(),
            r == final(self).0.just_finished,
    {
        self.0.tick(delta)
    }
}

} // verus!
