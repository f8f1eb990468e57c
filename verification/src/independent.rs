//! The independent runner: one periodic timer per configured key, each
//! driving its own press cadence against the shared backend.
//!
//! One timer is a small state machine stepped once per tick. At each
//! tick it observes the cancellation flag, the target's liveness and
//! the pause flag; when it emits, it records the send outcome against
//! its own consecutive-failure budget. The host runtime owns the timer
//! primitive that delivers the ticks (and with it the real-time
//! property that a window of length `W` holds about `W / period`
//! ticks); this module specifies what happens at each tick: exactly one
//! emission per benign tick, none while paused or after cancellation.
//! Ticks the runtime delivers late are handed to the machine as they
//! arrive; none is skipped silently.

use vstd::prelude::*;
use crate::config::DurationMs;
use crate::control::{budget_next, budget_ok, FailureBudget, FAILURE_LIMIT};

verus! {

/// What one tick observes: the cancellation flag, the target's
/// liveness, the pause flag, and — when the tick emits — whether the
/// send succeeded.
#[derive(Debug, Clone, Copy, PartialEq, Eq, Structural)]
pub struct TickObs {
    pub cancelled: bool,
    pub alive: bool,
    pub paused: bool,
    pub send_ok: bool,
}

/// Why a timer task ended.
#[derive(Debug, Clone, Copy, PartialEq, Eq, Structural)]
pub enum TimerExit {
    /// The cancellation flag was observed set.
    Cancelled,
    /// The target process was no longer alive.
    ProcessGone,
    /// The consecutive-failure budget was exhausted.
    TooManyFailures,
}

/// What one tick decided.
#[derive(Debug, Clone, Copy, PartialEq, Eq, Structural)]
pub enum TickDecision {
    /// Stop this timer task for the given reason.
    Exit(TimerExit),
    /// Paused: let the tick elapse without emitting.
    Skip,
    /// Emit this timer's key.
    Emit,
}

/// One timer's frozen configuration and failure budget. Timers sharing
/// a key are independent; each holds its own state.
#[derive(Debug, Clone)]
pub struct TimerRunner {
    pub key: String,
    pub period: DurationMs,
    pub failures: FailureBudget,
}

impl TimerRunner {
    pub open spec fn wf(self) -> bool {
        budget_ok(self.failures)
    }

    pub fn new(key: String, period: DurationMs) -> (r: TimerRunner)
        ensures
            r.wf(),
            r.key == key,
            r.period == period,
            r.failures.count == 0,
    {
        TimerRunner { key, period, failures: FailureBudget::new() }
    }
}

/// The decision at a tick: cancellation first, then liveness, then the
/// pause flag; otherwise emit.
pub open spec fn spec_tick_decide(m: TimerRunner, cancelled: bool, alive: bool, paused: bool)
    -> TickDecision {
    if cancelled {
        TickDecision::Exit(TimerExit::Cancelled)
    } else if !alive {
        TickDecision::Exit(TimerExit::ProcessGone)
    } else if paused {
        TickDecision::Skip
    } else {
        TickDecision::Emit
    }
}

/// The budget after recording a send outcome, and the exit it forces if
/// the budget is exhausted.
pub open spec fn spec_tick_record(m: TimerRunner, ok: bool) -> (TimerRunner, Option<TimerExit>) {
    let f2 = FailureBudget { count: budget_next(m.failures.count, ok) };
    let m2 = TimerRunner { key: m.key, period: m.period, failures: f2 };
    if f2.count >= FAILURE_LIMIT {
        (m2, Some(TimerExit::TooManyFailures))
    } else {
        (m2, None)
    }
}

/// One whole tick against one observation.
pub struct TickStep {
    pub next: TimerRunner,
    pub emit: Option<bool>,
    pub exit: Option<TimerExit>,
}

pub open spec fn spec_tick(m: TimerRunner, o: TickObs) -> TickStep {
    match spec_tick_decide(m, o.cancelled, o.alive, o.paused) {
        TickDecision::Exit(e) => TickStep { next: m, emit: None, exit: Some(e) },
        TickDecision::Skip => TickStep { next: m, emit: None, exit: None },
        TickDecision::Emit => {
            let (m2, ex) = spec_tick_record(m, o.send_ok);
            TickStep { next: m2, emit: Some(o.send_ok), exit: ex }
        },
    }
}

/// A whole timer run: the send outcomes of its emissions in order, the
/// exit if one was reached before the script ran out, and the final
/// state.
pub struct TimerTrace {
    pub emitted: Seq<bool>,
    pub exit: Option<TimerExit>,
    pub end: TimerRunner,
}

pub open spec fn run_timer(m: TimerRunner, script: Seq<TickObs>) -> TimerTrace
    decreases script.len(),
{
    if script.len() == 0 {
        TimerTrace { emitted: Seq::<bool>::empty(), exit: None, end: m }
    } else {
        let st = spec_tick(m, script[0]);
        let head = match st.emit {
            Some(b) => seq![b],
            None => Seq::<bool>::empty(),
        };
        if st.exit is Some {
            TimerTrace { emitted: head, exit: st.exit, end: st.next }
        } else {
            let rest = run_timer(st.next, script.drop_first());
            TimerTrace { emitted: head + rest.emitted, exit: rest.exit, end: rest.end }
        }
    }
}

/// What a timer run looks like executably.
pub struct TimerReport {
    pub emitted: Vec<bool>,
    pub exit: Option<TimerExit>,
}

impl TimerRunner {
    /// The decision at a tick, from the observed cancellation, liveness
    /// and pause flags.
    pub fn decide_tick(&self, cancelled: bool, alive: bool, paused: bool) -> (r: TickDecision)
        ensures
            r == spec_tick_decide(*self, cancelled, alive, paused),
    {
        if cancelled {
            TickDecision::Exit(TimerExit::Cancelled)
        } else if !alive {
            TickDecision::Exit(TimerExit::ProcessGone)
        } else if paused {
            TickDecision::Skip
        } else {
            TickDecision::Emit
        }
    }

    /// Records the outcome of the emission this tick made; reports the
    /// exit this forces, if any.
    pub fn record_send(&mut self, ok: bool) -> (r: Option<TimerExit>)
        requires
            old(self).wf(),
        ensures
            spec_tick_record(*old(self), ok) == (*final(self), r),
            r is None ==> final(self).wf(),
    {
        let fatal = self.failures.record(ok);
        if fatal {
            Some(TimerExit::TooManyFailures)
        } else {
            None
        }
    }

    /// Replays a timer task against a script of tick observations: the
    /// executable mirror of [`run_timer`].
    pub fn run_ticks(&mut self, script: &Vec<TickObs>) -> (r: TimerReport)
        requires
            old(self).wf(),
        ensures
            ({
                let t = run_timer(*old(self), script@);
                &&& r.emitted@ == t.emitted
                &&& r.exit == t.exit
                &&& *final(self) == t.end
            }),
    {
        let n = script.len();
        let mut emitted: Vec<bool> = Vec::new();
        let mut exit: Option<TimerExit> = None;
        let mut i: usize = 0;
        proof {
            assert(script@.skip(0) =~= script@);
            let rest = run_timer(*self, script@);
            assert(Seq::<bool>::empty() + rest.emitted =~= rest.emitted);
        }
        while i < n && exit.is_none()
            invariant
                n == script@.len(),
                i <= n,
                exit is None ==> self.wf(),
                exit is None ==> run_timer(*old(self), script@) == ({
                    let rest = run_timer(*self, script@.skip(i as int));
                    (TimerTrace {
                        emitted: emitted@ + rest.emitted,
                        exit: rest.exit,
                        end: rest.end,
                    })
                }),
                exit matches Some(e) ==> run_timer(*old(self), script@) == (TimerTrace {
                    emitted: emitted@,
                    exit: Some(e),
                    end: *self,
                }),
            decreases n - i,
        {
            let ghost prev = *self;
            let ghost prev_emitted = emitted@;
            let ghost tail = script@.skip(i as int);
            proof {
                assert(tail[0] == script@[i as int]);
                assert(tail.drop_first() =~= script@.skip(i + 1 as int));
            }
            let o = script[i];
            let d = self.decide_tick(o.cancelled, o.alive, o.paused);
            match d {
                TickDecision::Exit(e) => {
                    exit = Some(e);
                    proof {
                        let st = spec_tick(prev, o);
                        assert(st.exit == Some(e) && st.emit is None && st.next == prev);
                        assert(run_timer(prev, tail) == (TimerTrace {
                            emitted: Seq::<bool>::empty(),
                            exit: Some(e),
                            end: prev,
                        }));
                        assert(prev_emitted + Seq::<bool>::empty() =~= prev_emitted);
                        assert(run_timer(*old(self), script@) == (TimerTrace {
                            emitted: emitted@,
                            exit: Some(e),
                            end: *self,
                        }));
                    }
                },
                TickDecision::Skip => {
                    proof {
                        let st = spec_tick(prev, o);
                        assert(st.exit is None && st.emit is None && st.next == prev);
                        let rest = run_timer(prev, tail.drop_first());
                        assert(run_timer(prev, tail) == (TimerTrace {
                            emitted: Seq::<bool>::empty() + rest.emitted,
                            exit: rest.exit,
                            end: rest.end,
                        }));
                        assert(Seq::<bool>::empty() + rest.emitted =~= rest.emitted);
                        assert(run_timer(*old(self), script@) == (TimerTrace {
                            emitted: emitted@ + run_timer(
                                *self,
                                script@.skip(i + 1 as int),
                            ).emitted,
                            exit: run_timer(*self, script@.skip(i + 1 as int)).exit,
                            end: run_timer(*self, script@.skip(i + 1 as int)).end,
                        }));
                    }
                },
                TickDecision::Emit => {
                    emitted.push(o.send_ok);
                    let ex = self.record_send(o.send_ok);
                    proof {
                        assert(emitted@ == prev_emitted.push(o.send_ok));
                        let st = spec_tick(prev, o);
                        assert(st.emit == Some(o.send_ok));
                        assert(st.next == *self && st.exit == ex);
                        if ex is Some {
                            assert(run_timer(prev, tail) == (TimerTrace {
                                emitted: seq![o.send_ok],
                                exit: ex,
                                end: *self,
                            }));
                            assert(prev_emitted + seq![o.send_ok] =~= emitted@);
                            assert(run_timer(*old(self), script@) == (TimerTrace {
                                emitted: emitted@,
                                exit: ex,
                                end: *self,
                            }));
                        } else {
                            let rest = run_timer(*self, tail.drop_first());
                            assert(run_timer(prev, tail) == (TimerTrace {
                                emitted: seq![o.send_ok] + rest.emitted,
                                exit: rest.exit,
                                end: rest.end,
                            }));
                            assert(prev_emitted + (seq![o.send_ok] + rest.emitted) =~= emitted@
                                + rest.emitted);
                            assert(run_timer(*old(self), script@) == (TimerTrace {
                                emitted: emitted@ + run_timer(
                                    *self,
                                    script@.skip(i + 1 as int),
                                ).emitted,
                                exit: run_timer(*self, script@.skip(i + 1 as int)).exit,
                                end: run_timer(*self, script@.skip(i + 1 as int)).end,
                            }));
                        }
                    }
                    if ex.is_some() {
                        exit = ex;
                    }
                },
            }
            i = i + 1;
        }
        proof {
            if exit is None {
                assert(script@.skip(i as int) =~= Seq::<TickObs>::empty());
                assert(emitted@ + Seq::<bool>::empty() =~= emitted@);
            }
        }
        TimerReport { emitted, exit }
    }
}

/// A tick under which the timer emits and the send succeeds.
pub open spec fn benign_tick(o: TickObs) -> bool {
    !o.cancelled && o.alive && !o.paused && o.send_ok
}

/// A tick under which the timer emits but the send fails.
pub open spec fn adverse_tick(o: TickObs) -> bool {
    !o.cancelled && o.alive && !o.paused && !o.send_ok
}

/// One emission per tick: over benign ticks a timer emits exactly once
/// per delivered tick and keeps running. The per-window count of a real
/// run is therefore the tick count its timer primitive delivers, which
/// for a window `W` and period `p` is about `W / p`.
pub proof fn lemma_timer_ticks_emit(m: TimerRunner, script: Seq<TickObs>)
    requires
        m.wf(),
        forall|i: int| 0 <= i < script.len() ==> benign_tick(#[trigger] script[i]),
    ensures
        ({
            let t = run_timer(m, script);
            &&& t.exit is None
            &&& t.emitted.len() == script.len()
            &&& forall|j: int| 0 <= j < t.emitted.len() ==> #[trigger] t.emitted[j]
        }),
    decreases script.len(),
{
    if script.len() > 0 {
        let o = script[0];
        assert(benign_tick(o));
        let st = spec_tick(m, o);
        assert(st.exit is None && st.emit == Some(true) && st.next.wf());
        assert forall|i: int|
            0 <= i < script.drop_first().len() implies benign_tick(
            #[trigger] script.drop_first()[i],
        ) by {
            assert(script.drop_first()[i] == script[i + 1]);
        }
        lemma_timer_ticks_emit(st.next, script.drop_first());
        let rest = run_timer(st.next, script.drop_first());
        let t = run_timer(m, script);
        assert(t.emitted == seq![true] + rest.emitted);
        assert forall|j: int| 0 <= j < t.emitted.len() implies #[trigger] t.emitted[j] by {
            if j == 0 {
                assert(t.emitted[0]);
            } else {
                assert(t.emitted[j] == rest.emitted[j - 1]);
            }
        }
    }
}

/// Cancellation stops the timer: once any tick in the script shows the
/// flag set, the run has ended by that tick — it reports an exit, and
/// no emission stems from that tick or any later one.
pub proof fn lemma_timer_cancel_stops(m: TimerRunner, script: Seq<TickObs>, j: int)
    requires
        0 <= j < script.len(),
        script[j].cancelled,
    ensures
        run_timer(m, script).exit is Some,
        run_timer(m, script).emitted.len() <= j,
    decreases j,
{
    let st = spec_tick(m, script[0]);
    if j == 0 {
        assert(st.exit == Some(TimerExit::Cancelled));
    } else {
        if st.exit is None {
            assert(script.drop_first()[j - 1] == script[j]);
            lemma_timer_cancel_stops(st.next, script.drop_first(), j - 1);
        }
    }
}

/// Five adjacent injection failures stop the timer: under ticks that
/// emit but fail, the task attempts exactly as many sends as its budget
/// still allows and then exits with `TooManyFailures`.
pub proof fn lemma_timer_failures(m: TimerRunner, script: Seq<TickObs>)
    requires
        m.wf(),
        forall|i: int| 0 <= i < script.len() ==> adverse_tick(#[trigger] script[i]),
        script.len() >= FAILURE_LIMIT - m.failures.count,
    ensures
        ({
            let t = run_timer(m, script);
            &&& t.exit == Some(TimerExit::TooManyFailures)
            &&& t.emitted.len() == FAILURE_LIMIT - m.failures.count
        }),
    decreases FAILURE_LIMIT - m.failures.count,
{
    let o = script[0];
    assert(adverse_tick(o));
    let st = spec_tick(m, o);
    assert(st.emit == Some(false));
    if m.failures.count + 1 >= FAILURE_LIMIT {
        assert(st.exit == Some(TimerExit::TooManyFailures));
    } else {
        assert(st.exit is None);
        assert(st.next.wf() && st.next.failures.count == m.failures.count + 1);
        assert forall|i: int|
            0 <= i < script.drop_first().len() implies adverse_tick(
            #[trigger] script.drop_first()[i],
        ) by {
            assert(script.drop_first()[i] == script[i + 1]);
        }
        lemma_timer_failures(st.next, script.drop_first());
    }
}

} // verus!
