//! Contest lifecycle: a timer-driven state machine (not started → ready →
//! running → finished) owned by the server. The machine itself only
//! decides; the wall-clock work is handed to the driver as [`TimerOp`]
//! values, and a timer that fires hands its handle back to
//! [`Service::timer_fired`]. Handles come from a monotonic counter, so a
//! cancelled timer's late firing is recognized and ignored.

use vstd::prelude::*;

use crate::config::{Time, UpdateDuration};
use crate::error::{ContestError, OcjError};

verus! {

/// Where the contest stands.
#[derive(Clone, Copy, Debug)]
pub enum State {
    /// Not started, not yet scheduled.
    InDevelop,
    /// Scheduled: a start timer with handle `starter` is pending.
    Ready { time: Time, starter: u64 },
    /// Running: a finish timer is pending when a duration is set.
    Going { time: Time, finisher: Option<u64> },
    Finished,
}

/// Wall-clock work the driver must carry out after an operation.
#[derive(Clone, Copy, Debug, PartialEq, Eq, Structural)]
pub enum TimerOp {
    /// Cancel the timer with this handle; cancelling one that already
    /// fired is a no-op.
    Abort(u64),
    /// Schedule a wake-up at instant `at` (fire at once if already past)
    /// that hands `id` back to `timer_fired`.
    SpawnStarter { id: u64, at: u64 },
    /// The same, for the contest finish.
    SpawnFinisher { id: u64, at: u64 },
}

/// The owner's hook to invoke after a transition the timer caused.
#[derive(Clone, Copy, Debug, PartialEq, Eq, Structural)]
pub enum Hook {
    Start,
    Finish,
}

/// The contest lifecycle service: the guarded state and the counter that
/// hands out fresh timer handles.
pub struct Service {
    pub contest: State,
    pub next_timer: u64,
}

/// Every timer handle in the state came from the counter, and every
/// recorded time keeps its finish instant representable.
pub open spec fn state_wf(s: State, bound: u64) -> bool {
    match s {
        State::InDevelop => true,
        State::Ready { time, starter } => starter < bound && time.wf(),
        State::Going { time, finisher } => time.wf() && (match finisher {
            Some(f) => f < bound,
            None => true,
        }),
        State::Finished => true,
    }
}

/// The duration after an administrator's edit: add and subtract apply only
/// when a duration is already set; assignment always sets one.
pub open spec fn apply_duration(cur: Option<u64>, op: UpdateDuration) -> Option<u64> {
    match op {
        UpdateDuration::Add(d) => match cur {
            Some(c) => Some((c + d) as u64),
            None => None,
        },
        UpdateDuration::Sub(d) => match cur {
            Some(c) => Some((c - d) as u64),
            None => None,
        },
        UpdateDuration::Assign(d) => Some(d),
    }
}

/// What a duration edit needs of the machine's arithmetic: the new finish
/// instant, when one arises, stays representable, and a subtraction never
/// drops below zero.
pub open spec fn duration_op_ok(s: State, op: UpdateDuration) -> bool {
    match s {
        State::Ready { time, .. } | State::Going { time, .. } => match op {
            UpdateDuration::Add(d) => match time.duration {
                Some(c) => time.start + c + d <= u64::MAX,
                None => true,
            },
            UpdateDuration::Sub(d) => match time.duration {
                Some(c) => d <= c,
                None => true,
            },
            UpdateDuration::Assign(d) => time.start + d <= u64::MAX,
        },
        _ => true,
    }
}

/// What a start-time edit needs of the machine's arithmetic.
pub open spec fn start_op_ok(s: State, start: u64) -> bool {
    match s {
        State::Ready { time, .. } => match time.duration {
            Some(d) => start + d <= u64::MAX,
            None => true,
        },
        _ => true,
    }
}

/// The specified outcome of one lifecycle operation: the service after it,
/// the timer work it issues, the hook it fires, and the error it returns.
pub struct StepOut {
    pub s: Service,
    pub ops: Seq<TimerOp>,
    pub hook: Option<Hook>,
    pub err: Option<OcjError>,
}

/// Makes the contest ready: only from `InDevelop`, scheduling the start
/// timer; from any other state it fails with `AlreadyReady` and changes
/// nothing.
pub open spec fn spec_ready(s: Service, time: Time) -> StepOut {
    match s.contest {
        State::InDevelop => StepOut {
            s: Service {
                contest: State::Ready { time, starter: s.next_timer },
                next_timer: (s.next_timer + 1) as u64,
            },
            ops: seq![TimerOp::SpawnStarter { id: s.next_timer, at: time.start }],
            hook: None,
            err: None,
        },
        _ => StepOut {
            s,
            ops: seq![],
            hook: None,
            err: Some(OcjError::Contest(ContestError::AlreadyReady)),
        },
    }
}

/// Replaces the scheduled start: only while `Ready`, cancelling the old
/// start timer and scheduling a new one; `StillInDevelop` before,
/// `AlreadyGoing` after.
pub open spec fn spec_update_start_time(s: Service, start: u64) -> StepOut {
    match s.contest {
        State::Ready { time, starter } => StepOut {
            s: Service {
                contest: State::Ready {
                    time: Time { start, duration: time.duration },
                    starter: s.next_timer,
                },
                next_timer: (s.next_timer + 1) as u64,
            },
            ops: seq![
                TimerOp::Abort(starter),
                TimerOp::SpawnStarter { id: s.next_timer, at: start },
            ],
            hook: None,
            err: None,
        },
        State::InDevelop => StepOut {
            s,
            ops: seq![],
            hook: None,
            err: Some(OcjError::Contest(ContestError::StillInDevelop)),
        },
        _ => StepOut {
            s,
            ops: seq![],
            hook: None,
            err: Some(OcjError::Contest(ContestError::AlreadyGoing)),
        },
    }
}

/// Edits the duration: only while `Ready` or `Going`. While `Going`, a
/// duration that (still) exists reschedules the finish timer, cancelling
/// any previous one.
pub open spec fn spec_update_duration(s: Service, op: UpdateDuration) -> StepOut {
    match s.contest {
        State::Ready { time, starter } => StepOut {
            s: Service {
                contest: State::Ready {
                    time: Time {
                        start: time.start,
                        duration: apply_duration(time.duration, op),
                    },
                    starter,
                },
                next_timer: s.next_timer,
            },
            ops: seq![],
            hook: None,
            err: None,
        },
        State::Going { time, finisher } => {
            let new_time = Time { start: time.start, duration: apply_duration(time.duration, op) };
            match new_time.duration {
                Some(d) => StepOut {
                    s: Service {
                        contest: State::Going { time: new_time, finisher: Some(s.next_timer) },
                        next_timer: (s.next_timer + 1) as u64,
                    },
                    ops: match finisher {
                        Some(f) => seq![
                            TimerOp::Abort(f),
                            TimerOp::SpawnFinisher {
                                id: s.next_timer,
                                at: (new_time.start + d) as u64,
                            },
                        ],
                        None => seq![
                            TimerOp::SpawnFinisher {
                                id: s.next_timer,
                                at: (new_time.start + d) as u64,
                            },
                        ],
                    },
                    hook: None,
                    err: None,
                },
                None => StepOut {
                    s: Service {
                        contest: State::Going { time: new_time, finisher },
                        next_timer: s.next_timer,
                    },
                    ops: seq![],
                    hook: None,
                    err: None,
                },
            }
        },
        State::InDevelop => StepOut {
            s,
            ops: seq![],
            hook: None,
            err: Some(OcjError::Contest(ContestError::StillInDevelop)),
        },
        State::Finished => StepOut {
            s,
            ops: seq![],
            hook: None,
            err: Some(OcjError::Contest(ContestError::AlreadyGoing)),
        },
    }
}

/// A timer fired and handed back its handle. The pending start timer
/// starts the contest (scheduling the finish timer when a duration is
/// set); the pending finish timer finishes it; any other handle — a timer
/// cancelled too late, or one from before a shutdown — is ignored.
pub open spec fn spec_timer_fired(s: Service, id: u64) -> StepOut {
    match s.contest {
        State::Ready { time, starter } => {
            if starter == id {
                match time.duration {
                    Some(d) => StepOut {
                        s: Service {
                            contest: State::Going { time, finisher: Some(s.next_timer) },
                            next_timer: (s.next_timer + 1) as u64,
                        },
                        ops: seq![
                            TimerOp::SpawnFinisher {
                                id: s.next_timer,
                                at: (time.start + d) as u64,
                            },
                        ],
                        hook: Some(Hook::Start),
                        err: None,
                    },
                    None => StepOut {
                        s: Service {
                            contest: State::Going { time, finisher: None },
                            next_timer: s.next_timer,
                        },
                        ops: seq![],
                        hook: Some(Hook::Start),
                        err: None,
                    },
                }
            } else {
                StepOut { s, ops: seq![], hook: None, err: None }
            }
        },
        State::Going { time, finisher } => {
            if finisher == Some(id) {
                StepOut {
                    s: Service { contest: State::Finished, next_timer: s.next_timer },
                    ops: seq![],
                    hook: Some(Hook::Finish),
                    err: None,
                }
            } else {
                StepOut { s, ops: seq![], hook: None, err: None }
            }
        },
        _ => StepOut { s, ops: seq![], hook: None, err: None },
    }
}

impl Service {
    /// The state's timer handles stay below the counter.
    pub open spec fn wf(self) -> bool {
        state_wf(self.contest, self.next_timer)
    }

    /// A contest that is not yet scheduled.
    pub fn init() -> (r: Service)
        ensures
            r.wf(),
            r.contest is InDevelop,
            r.next_timer == 0,
    {
        Service { contest: State::InDevelop, next_timer: 0 }
    }

    /// The current lifecycle state, for a caller that must test a
    /// precondition before asking for a transition.
    pub fn current_state(&self) -> (r: &State)
        ensures
            *r == self.contest,
    {
        &self.contest
    }

    /// Makes the contest ready, scheduling its start timer.
    pub fn ready(&mut self, time: Time) -> (r: Result<Vec<TimerOp>, OcjError>)
        requires
            old(self).wf(),
            old(self).next_timer < u64::MAX,
            time.wf(),
        ensures
            final(self).wf(),
            *final(self) == spec_ready(*old(self), time).s,
            match r {
                Ok(ops) => spec_ready(*old(self), time).err is None && ops@ == spec_ready(
                    *old(self),
                    time,
                ).ops,
                Err(e) => spec_ready(*old(self), time).err == Some(e),
            },
    {
        match self.contest {
            State::InDevelop => {
                let id = self.next_timer;
                self.contest = State::Ready { time, starter: id };
                self.next_timer = self.next_timer + 1;
                let mut ops: Vec<TimerOp> = Vec::new();
                ops.push(TimerOp::SpawnStarter { id, at: time.start });
                proof {
                    assert(ops@ =~= spec_ready(*old(self), time).ops);
                }
                Ok(ops)
            },
            _ => Err(OcjError::Contest(ContestError::AlreadyReady)),
        }
    }

    /// Replaces the scheduled start time, cancelling the pending start
    /// timer and scheduling a new one.
    pub fn update_start_time(&mut self, start: u64) -> (r: Result<Vec<TimerOp>, OcjError>)
        requires
            old(self).wf(),
            old(self).next_timer < u64::MAX,
            start_op_ok(old(self).contest, start),
        ensures
            final(self).wf(),
            *final(self) == spec_update_start_time(*old(self), start).s,
            match r {
                Ok(ops) => spec_update_start_time(*old(self), start).err is None && ops@
                    == spec_update_start_time(*old(self), start).ops,
                Err(e) => spec_update_start_time(*old(self), start).err == Some(e),
            },
    {
        match self.contest {
            State::Ready { time, starter } => {
                let id = self.next_timer;
                self.contest = State::Ready {
                    time: Time { start, duration: time.duration },
                    starter: id,
                };
                self.next_timer = self.next_timer + 1;
                let mut ops: Vec<TimerOp> = Vec::new();
                ops.push(TimerOp::Abort(starter));
                ops.push(TimerOp::SpawnStarter { id, at: start });
                proof {
                    assert(ops@ =~= spec_update_start_time(*old(self), start).ops);
                }
                Ok(ops)
            },
            State::InDevelop => Err(OcjError::Contest(ContestError::StillInDevelop)),
            _ => Err(OcjError::Contest(ContestError::AlreadyGoing)),
        }
    }

    /// Edits the contest duration; while the contest runs, a set duration
    /// reschedules the finish timer.
    pub fn update_duration(&mut self, op: UpdateDuration) -> (r: Result<Vec<TimerOp>, OcjError>)
        requires
            old(self).wf(),
            old(self).next_timer < u64::MAX,
            duration_op_ok(old(self).contest, op),
        ensures
            final(self).wf(),
            *final(self) == spec_update_duration(*old(self), op).s,
            match r {
                Ok(ops) => spec_update_duration(*old(self), op).err is None && ops@
                    == spec_update_duration(*old(self), op).ops,
                Err(e) => spec_update_duration(*old(self), op).err == Some(e),
            },
    {
        match self.contest {
            State::Ready { time, starter } => {
                self.contest = State::Ready {
                    time: Time {
                        start: time.start,
                        duration: Self::apply_duration_exec(time.duration, op),
                    },
                    starter,
                };
                let ops: Vec<TimerOp> = Vec::new();
                proof {
                    assert(ops@ =~= spec_update_duration(*old(self), op).ops);
                }
                Ok(ops)
            },
            State::Going { time, finisher } => {
                let new_duration = Self::apply_duration_exec(time.duration, op);
                let new_time = Time { start: time.start, duration: new_duration };
                match new_duration {
                    Some(d) => {
                        let id = self.next_timer;
                        self.contest = State::Going { time: new_time, finisher: Some(id) };
                        self.next_timer = self.next_timer + 1;
                        let mut ops: Vec<TimerOp> = Vec::new();
                        if let Some(f) = finisher {
                            ops.push(TimerOp::Abort(f));
                        }
                        ops.push(TimerOp::SpawnFinisher { id, at: new_time.start + d });
                        proof {
                            assert(ops@ =~= spec_update_duration(*old(self), op).ops);
                        }
                        Ok(ops)
                    },
                    None => {
                        self.contest = State::Going { time: new_time, finisher };
                        let ops: Vec<TimerOp> = Vec::new();
                        proof {
                            assert(ops@ =~= spec_update_duration(*old(self), op).ops);
                        }
                        Ok(ops)
                    },
                }
            },
            State::InDevelop => Err(OcjError::Contest(ContestError::StillInDevelop)),
            State::Finished => Err(OcjError::Contest(ContestError::AlreadyGoing)),
        }
    }

    /// Reacts to a fired timer handing back its handle.
    pub fn timer_fired(&mut self, id: u64) -> (r: (Vec<TimerOp>, Option<Hook>))
        requires
            old(self).wf(),
            old(self).next_timer < u64::MAX,
        ensures
            final(self).wf(),
            *final(self) == spec_timer_fired(*old(self), id).s,
            r.0@ == spec_timer_fired(*old(self), id).ops,
            r.1 == spec_timer_fired(*old(self), id).hook,
    {
        match self.contest {
            State::Ready { time, starter } => {
                if starter == id {
                    match time.duration {
                        Some(d) => {
                            let fid = self.next_timer;
                            self.contest = State::Going { time, finisher: Some(fid) };
                            self.next_timer = self.next_timer + 1;
                            let mut ops: Vec<TimerOp> = Vec::new();
                            ops.push(TimerOp::SpawnFinisher { id: fid, at: time.start + d });
                            proof {
                                assert(ops@ =~= spec_timer_fired(*old(self), id).ops);
                            }
                            (ops, Some(Hook::Start))
                        },
                        None => {
                            self.contest = State::Going { time, finisher: None };
                            let ops: Vec<TimerOp> = Vec::new();
                            proof {
                                assert(ops@ =~= spec_timer_fired(*old(self), id).ops);
                            }
                            (ops, Some(Hook::Start))
                        },
                    }
                } else {
                    let ops: Vec<TimerOp> = Vec::new();
                    proof {
                        assert(ops@ =~= spec_timer_fired(*old(self), id).ops);
                    }
                    (ops, None)
                }
            },
            State::Going { time: _, finisher } => {
                let fired = match finisher {
                    Some(f) => f == id,
                    None => false,
                };
                if fired {
                    self.contest = State::Finished;
                    let ops: Vec<TimerOp> = Vec::new();
                    proof {
                        assert(ops@ =~= spec_timer_fired(*old(self), id).ops);
                    }
                    (ops, Some(Hook::Finish))
                } else {
                    let ops: Vec<TimerOp> = Vec::new();
                    proof {
                        assert(ops@ =~= spec_timer_fired(*old(self), id).ops);
                    }
                    (ops, None)
                }
            },
            _ => {
                let ops: Vec<TimerOp> = Vec::new();
                proof {
                    assert(ops@ =~= spec_timer_fired(*old(self), id).ops);
                }
                (ops, None)
            },
        }
    }

    /// The duration after an administrator's edit.
    fn apply_duration_exec(cur: Option<u64>, op: UpdateDuration) -> (r: Option<u64>)
        requires
            match op {
                UpdateDuration::Add(d) => match cur {
                    Some(c) => c + d <= u64::MAX,
                    None => true,
                },
                UpdateDuration::Sub(d) => match cur {
                    Some(c) => d <= c,
                    None => true,
                },
                UpdateDuration::Assign(_) => true,
            },
        ensures
            r == apply_duration(cur, op),
    {
        match op {
            UpdateDuration::Add(d) => match cur {
                Some(c) => Some(c + d),
                None => None,
            },
            UpdateDuration::Sub(d) => match cur {
                Some(c) => Some(c - d),
                None => None,
            },
            UpdateDuration::Assign(d) => Some(d),
        }
    }
}

/// Law (lifecycle guards): making the contest ready a second time fails
/// with `AlreadyReady` and leaves the state — its pending timer included —
/// untouched; editing the duration before the contest is ready fails with
/// `StillInDevelop` and changes nothing.
pub proof fn lemma_lifecycle_guards(s: Service, t1: Time, t2: Time, op: UpdateDuration)
    requires
        s.contest is InDevelop,
    ensures
        ({
            let first = spec_ready(s, t1);
            let second = spec_ready(first.s, t2);
            &&& first.err is None
            &&& second.err == Some(OcjError::Contest(ContestError::AlreadyReady))
            &&& second.s == first.s
        }),
        spec_update_duration(s, op).err == Some(OcjError::Contest(ContestError::StillInDevelop)),
        spec_update_duration(s, op).s == s,
{
}

/// Law (timer rescheduling): replacing the start time cancels exactly the
/// old wake-up and schedules exactly one new one; the old timer firing
/// afterwards changes nothing and fires no hook, while the new timer's
/// firing is what starts the contest.
pub proof fn lemma_timer_rescheduling(s: Service, start: u64)
    requires
        s.wf(),
        s.contest is Ready,
        start_op_ok(s.contest, start),
    ensures
        s.contest matches State::Ready { starter, .. } ==> {
            let u = spec_update_start_time(s, start);
            let stale = spec_timer_fired(u.s, starter);
            let fresh = spec_timer_fired(u.s, s.next_timer);
            &&& u.err is None
            &&& u.ops == seq![
                TimerOp::Abort(starter),
                TimerOp::SpawnStarter { id: s.next_timer, at: start },
            ]
            &&& starter != s.next_timer
            &&& stale.s == u.s && stale.hook is None && stale.ops == Seq::<TimerOp>::empty()
            &&& fresh.s.contest is Going && fresh.hook == Some(Hook::Start)
        },
{
}

} // verus!
