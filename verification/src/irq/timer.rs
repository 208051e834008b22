//! The tick: charging the running thread for elapsed time, firing the alarm, and
//! choosing when the next timer interrupt comes.
use vstd::prelude::*;
use crate::cap::Capability;

verus! {

/// A one-shot alarm: at `time`, `ep` is notified.
#[derive(Clone, Copy, PartialEq, Eq, Structural, Debug)]
pub struct Alarm {
    pub time: usize,
    pub ep: Capability,
}

/// The timer's state: when the last tick was handled, and the pending alarm.
pub struct TimerState {
    pub last_tick_time: usize,
    pub alarm: Option<Alarm>,
}

/// The outcome of a tick.
#[derive(Clone, Copy, PartialEq, Eq, Structural, Debug)]
pub struct TickPlan {
    /// The running thread's remaining time slice, when a thread runs.
    pub timeslice: Option<usize>,
    /// The alarm that fell due; its endpoint is to be notified.
    pub fired: Option<Alarm>,
    /// When the next timer interrupt is due.
    pub next: usize,
}

/// Time elapsed since the last tick (0 on the first tick or when time went back).
pub open spec fn elapsed(now: usize, last: usize) -> usize {
    if now > last && last > 0 {
        (now - last) as usize
    } else {
        0
    }
}

impl TimerState {
    pub fn new() -> (r: Self)
        ensures
            r.last_tick_time == 0 && r.alarm.is_none(),
    {
        TimerState { last_tick_time: 0, alarm: None }
    }

    /// Handles a tick at `now`. The running thread (with `timeslice` left) is
    /// charged the elapsed time, down to zero; a due alarm is taken; the next
    /// interrupt comes when the running thread's slice runs out (a full
    /// `default_slice` when it has none left or no thread runs), or earlier at the
    /// pending alarm's time.
    pub fn program_next_tick(&mut self, now: usize, timeslice: Option<usize>, default_slice: usize) -> (r: TickPlan)
        requires
            now + default_slice <= usize::MAX,
            timeslice matches Some(s) ==> now + s <= usize::MAX,
        ensures
            final(self).last_tick_time == now,
            ({
                let e = elapsed(now, old(self).last_tick_time);
                let slice = match timeslice {
                    Some(s) => Some(if s > e { (s - e) as usize } else { 0usize }),
                    None => None,
                };
                let fired = match old(self).alarm {
                    Some(a) => if now >= a.time { Some(a) } else { None },
                    None => None,
                };
                let left = match slice {
                    Some(s) => if s > 0 { s } else { default_slice },
                    None => default_slice,
                };
                let base = (now + left) as usize;
                &&& r.timeslice == slice
                &&& r.fired == fired
                &&& final(self).alarm == if fired.is_some() { None } else { old(self).alarm }
                &&& (final(self).alarm matches Some(a) ==> (a.time > now ==> r.next <= a.time))
                &&& r.next == match final(self).alarm {
                    Some(a) => if a.time > now && a.time < base { a.time } else { base },
                    None => base,
                }
            }),
    {
        let last = self.last_tick_time;
        let e = if now > last && last > 0 { now - last } else { 0 };
        self.last_tick_time = now;
        let slice = match timeslice {
            Some(s) => Some(if s > e { s - e } else { 0 }),
            None => None,
        };
        let fired = match self.alarm {
            Some(a) => {
                if now >= a.time {
                    self.alarm = None;
                    Some(a)
                } else {
                    None
                }
            },
            None => None,
        };
        let left = match slice {
            Some(s) => if s > 0 { s } else { default_slice },
            None => default_slice,
        };
        let mut next = now + left;
        match self.alarm {
            Some(a) => {
                if a.time > now && a.time < next {
                    next = a.time;
                }
            },
            None => {},
        }
        TickPlan { timeslice: slice, fired, next }
    }

    /// Sets the alarm (replacing any pending one) and handles a tick at `now`.
    pub fn set_alarm(&mut self, time: usize, ep: Capability, now: usize, timeslice: Option<usize>, default_slice: usize) -> (r: TickPlan)
        requires
            now + default_slice <= usize::MAX,
            timeslice matches Some(s) ==> now + s <= usize::MAX,
        ensures
            final(self).last_tick_time == now,
            now >= time ==> r.fired == Some(Alarm { time, ep }) && final(self).alarm.is_none(),
            now < time ==> r.fired.is_none() && final(self).alarm == Some(Alarm { time, ep }),
            r.next <= now + default_slice || (timeslice matches Some(s) && r.next <= now + s),
            final(self).alarm matches Some(a) ==> r.next <= a.time,
    {
        self.alarm = Some(Alarm { time, ep });
        self.program_next_tick(now, timeslice, default_slice)
    }
}

} // verus!
