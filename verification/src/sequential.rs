//! The sequential runner: one timeline of (key, pause-after) steps,
//! driven step by step with optional looping and a bounded repeat count.
//!
//! The runner is a state machine. At the top of each iteration it
//! observes the cancellation flag, the target's liveness and the pause
//! flag and decides what to do ([`SequentialRunner::decide`]); after an
//! emission it records the send outcome and advances
//! ([`SequentialRunner::record_send`]). The host runtime performs the
//! actual send and the sleeps between decisions. A whole run against a
//! script of observations is specified by [`run_seq`] and mirrored
//! executably by [`SequentialRunner::run_script`]; the laws at the end
//! of this module pin down how many keystrokes a run emits and when it
//! stops.

use vstd::prelude::*;
use crate::config::KeyAction;
use crate::control::{budget_next, budget_ok, FailureBudget, FAILURE_LIMIT};

verus! {

/// What one iteration observes: the cancellation flag, the target's
/// liveness, the pause flag, and — when the iteration emits — whether
/// the send succeeded.
#[derive(Debug, Clone, Copy, PartialEq, Eq, Structural)]
pub struct SeqObs {
    pub cancelled: bool,
    pub alive: bool,
    pub paused: bool,
    pub send_ok: bool,
}

/// Why a sequential run ended.
#[derive(Debug, Clone, Copy, PartialEq, Eq, Structural)]
pub enum SeqExit {
    /// The cancellation flag was observed set.
    Cancelled,
    /// The target process was no longer alive.
    ProcessGone,
    /// The configured number of passes was completed.
    RepeatsDone,
    /// A single non-looping pass finished.
    PassDone,
    /// The consecutive-failure budget was exhausted.
    TooManyFailures,
}

/// What the top-of-iteration check decided.
#[derive(Debug, Clone, Copy, PartialEq, Eq, Structural)]
pub enum SeqDecision {
    /// Stop the run for the given reason.
    Exit(SeqExit),
    /// Paused: emit nothing, sleep briefly, check again.
    SleepPaused,
    /// Emit the step at this index, then sleep its pause.
    Emit(usize),
}

/// One emission of a run: which step was attempted, whether the send
/// succeeded, and the configured pause that follows the step.
#[derive(Debug, Clone, Copy, PartialEq, Eq, Structural)]
pub struct EmitRec {
    pub step: usize,
    pub ok: bool,
    pub sleep_ms: u64,
}

/// The sequential runner's frozen configuration and mutable position.
#[derive(Debug, Clone)]
pub struct SequentialRunner {
    pub steps: Vec<KeyAction>,
    pub loop_forever: bool,
    pub repeat_count: u32,
    pub step_index: usize,
    pub passes_completed: u32,
    pub failures: FailureBudget,
}

/// `passes_completed` rises monotonically; it saturates rather than
/// wrap, which no bounded repeat count can reach anyway.
pub open spec fn sat_inc(p: u32) -> u32 {
    if p == u32::MAX {
        p
    } else {
        (p + 1) as u32
    }
}

impl SequentialRunner {
    /// A runner fit to step: a non-empty step list, a position inside
    /// it, and a failure budget not yet exhausted.
    pub open spec fn wf(self) -> bool {
        &&& self.steps@.len() > 0
        &&& self.steps@.len() <= usize::MAX
        &&& self.step_index < self.steps@.len()
        &&& budget_ok(self.failures)
    }

    pub fn new(steps: Vec<KeyAction>, loop_forever: bool, repeat_count: u32) -> (r:
        SequentialRunner)
        requires
            steps@.len() > 0,
        ensures
            r.wf(),
            r.steps == steps,
            r.loop_forever == loop_forever,
            r.repeat_count == repeat_count,
            r.step_index == 0,
            r.passes_completed == 0,
            r.failures.count == 0,
    {
        proof {
            assert(steps.len() == steps@.len());
        }
        SequentialRunner {
            steps,
            loop_forever,
            repeat_count,
            step_index: 0,
            passes_completed: 0,
            failures: FailureBudget::new(),
        }
    }
}

/// The top-of-iteration decision: cancellation first, then liveness,
/// then the repeat bound, then the pause flag; otherwise emit the
/// current step.
pub open spec fn spec_decide(m: SequentialRunner, cancelled: bool, alive: bool, paused: bool)
    -> SeqDecision {
    if cancelled {
        SeqDecision::Exit(SeqExit::Cancelled)
    } else if !alive {
        SeqDecision::Exit(SeqExit::ProcessGone)
    } else if m.repeat_count > 0 && m.passes_completed >= m.repeat_count {
        SeqDecision::Exit(SeqExit::RepeatsDone)
    } else if paused {
        SeqDecision::SleepPaused
    } else {
        SeqDecision::Emit(m.step_index)
    }
}

/// The state after recording a send outcome, and the exit it forces if
/// any: an exhausted failure budget stops the run at once (before any
/// sleep); otherwise the position advances, a completed pass bumps the
/// pass count, and a completed pass without looping ends the run.
pub open spec fn spec_record(m: SequentialRunner, ok: bool) -> (SequentialRunner, Option<
    SeqExit,
>) {
    let f2 = FailureBudget { count: budget_next(m.failures.count, ok) };
    if f2.count >= FAILURE_LIMIT {
        (
            SequentialRunner {
                steps: m.steps,
                loop_forever: m.loop_forever,
                repeat_count: m.repeat_count,
                step_index: m.step_index,
                passes_completed: m.passes_completed,
                failures: f2,
            },
            Some(SeqExit::TooManyFailures),
        )
    } else if m.step_index + 1 == m.steps@.len() {
        let m2 = SequentialRunner {
            steps: m.steps,
            loop_forever: m.loop_forever,
            repeat_count: m.repeat_count,
            step_index: 0,
            passes_completed: sat_inc(m.passes_completed),
            failures: f2,
        };
        if m.loop_forever {
            (m2, None)
        } else {
            (m2, Some(SeqExit::PassDone))
        }
    } else {
        (
            SequentialRunner {
                steps: m.steps,
                loop_forever: m.loop_forever,
                repeat_count: m.repeat_count,
                step_index: (m.step_index + 1) as usize,
                passes_completed: m.passes_completed,
                failures: f2,
            },
            None,
        )
    }
}

/// One whole iteration against one observation: the decision, the
/// emission it makes if any, and the exit it forces if any.
pub struct SeqStep {
    pub next: SequentialRunner,
    pub emit: Option<EmitRec>,
    pub exit: Option<SeqExit>,
}

pub open spec fn spec_step(m: SequentialRunner, o: SeqObs) -> SeqStep {
    match spec_decide(m, o.cancelled, o.alive, o.paused) {
        SeqDecision::Exit(e) => SeqStep { next: m, emit: None, exit: Some(e) },
        SeqDecision::SleepPaused => SeqStep { next: m, emit: None, exit: None },
        SeqDecision::Emit(idx) => {
            let rec = EmitRec {
                step: idx,
                ok: o.send_ok,
                sleep_ms: m.steps@[idx as int].interval_after.millis,
            };
            let (m2, ex) = spec_record(m, o.send_ok);
            SeqStep { next: m2, emit: Some(rec), exit: ex }
        },
    }
}

/// A whole run: the emissions in order, the exit if one was reached
/// before the script ran out, and the final state.
pub struct SeqTrace {
    pub emitted: Seq<EmitRec>,
    pub exit: Option<SeqExit>,
    pub end: SequentialRunner,
}

/// Runs the machine over a script of observations, one per iteration,
/// stopping at the first forced exit.
pub open spec fn run_seq(m: SequentialRunner, script: Seq<SeqObs>) -> SeqTrace
    decreases script.len(),
{
    if script.len() == 0 {
        SeqTrace { emitted: Seq::<EmitRec>::empty(), exit: None, end: m }
    } else {
        let st = spec_step(m, script[0]);
        let head = match st.emit {
            Some(e) => seq![e],
            None => Seq::<EmitRec>::empty(),
        };
        if st.exit is Some {
            SeqTrace { emitted: head, exit: st.exit, end: st.next }
        } else {
            let rest = run_seq(st.next, script.drop_first());
            SeqTrace { emitted: head + rest.emitted, exit: rest.exit, end: rest.end }
        }
    }
}

/// A surviving step keeps the runner well-formed and its configuration
/// frozen.
proof fn lemma_step_preserves(m: SequentialRunner, o: SeqObs)
    requires
        m.wf(),
    ensures
        ({
            let st = spec_step(m, o);
            &&& st.exit is None ==> st.next.wf()
            &&& st.next.steps == m.steps
            &&& st.next.loop_forever == m.loop_forever
            &&& st.next.repeat_count == m.repeat_count
        }),
{
}

/// What a run's exit and emissions look like executably.
pub struct SeqReport {
    pub emitted: Vec<EmitRec>,
    pub exit: Option<SeqExit>,
}

impl SequentialRunner {
    /// The top-of-iteration decision, from the observed cancellation,
    /// liveness and pause flags.
    pub fn decide(&self, cancelled: bool, alive: bool, paused: bool) -> (r: SeqDecision)
        ensures
            r == spec_decide(*self, cancelled, alive, paused),
    {
        if cancelled {
            SeqDecision::Exit(SeqExit::Cancelled)
        } else if !alive {
            SeqDecision::Exit(SeqExit::ProcessGone)
        } else if self.repeat_count > 0 && self.passes_completed >= self.repeat_count {
            SeqDecision::Exit(SeqExit::RepeatsDone)
        } else if paused {
            SeqDecision::SleepPaused
        } else {
            SeqDecision::Emit(self.step_index)
        }
    }

    /// Records the outcome of the emission this iteration made and
    /// advances the position; reports the exit this forces, if any.
    pub fn record_send(&mut self, ok: bool) -> (r: Option<SeqExit>)
        requires
            old(self).wf(),
        ensures
            spec_record(*old(self), ok) == (*final(self), r),
            r is None ==> final(self).wf(),
    {
        let fatal = self.failures.record(ok);
        if fatal {
            return Some(SeqExit::TooManyFailures);
        }
        let len = self.steps.len();
        if self.step_index + 1 == len {
            self.step_index = 0;
            if self.passes_completed < u32::MAX {
                self.passes_completed = self.passes_completed + 1;
            }
            if self.loop_forever {
                None
            } else {
                Some(SeqExit::PassDone)
            }
        } else {
            self.step_index = self.step_index + 1;
            None
        }
    }

    /// Replays a run against a script of observations, one per
    /// iteration: the executable mirror of [`run_seq`]. The report
    /// carries the emissions in order and the exit, `None` when the
    /// script ran out first.
    pub fn run_script(&mut self, script: &Vec<SeqObs>) -> (r: SeqReport)
        requires
            old(self).wf(),
        ensures
            ({
                let t = run_seq(*old(self), script@);
                &&& r.emitted@ == t.emitted
                &&& r.exit == t.exit
                &&& *final(self) == t.end
            }),
    {
        let n = script.len();
        let mut emitted: Vec<EmitRec> = Vec::new();
        let mut exit: Option<SeqExit> = None;
        let mut i: usize = 0;
        proof {
            assert(script@.skip(0) =~= script@);
            let rest = run_seq(*self, script@);
            assert(Seq::<EmitRec>::empty() + rest.emitted =~= rest.emitted);
        }
        while i < n && exit.is_none()
            invariant
                n == script@.len(),
                i <= n,
                exit is None ==> self.wf(),
                exit is None ==> run_seq(*old(self), script@) == ({
                    let rest = run_seq(*self, script@.skip(i as int));
                    (SeqTrace {
                        emitted: emitted@ + rest.emitted,
                        exit: rest.exit,
                        end: rest.end,
                    })
                }),
                exit matches Some(e) ==> run_seq(*old(self), script@) == (SeqTrace {
                    emitted: emitted@,
                    exit: Some(e),
                    end: *self,
                }),
            decreases n - i,
        {
            let ghost prev = *self;
            let ghost prev_emitted = emitted@;
            let ghost tail = script@.skip(i as int);
            proof {
                assert(tail[0] == script@[i as int]);
                assert(tail.drop_first() =~= script@.skip(i + 1 as int));
            }
            let o = script[i];
            let d = self.decide(o.cancelled, o.alive, o.paused);
            match d {
                SeqDecision::Exit(e) => {
                    exit = Some(e);
                    proof {
                        let st = spec_step(prev, o);
                        assert(st.exit == Some(e) && st.emit is None && st.next == prev);
                        assert(run_seq(prev, tail) == (SeqTrace {
                            emitted: Seq::<EmitRec>::empty(),
                            exit: Some(e),
                            end: prev,
                        }));
                        assert(prev_emitted + Seq::<EmitRec>::empty() =~= prev_emitted);
                        assert(run_seq(*old(self), script@) == (SeqTrace {
                            emitted: emitted@,
                            exit: Some(e),
                            end: *self,
                        }));
                    }
                },
                SeqDecision::SleepPaused => {
                    proof {
                        let st = spec_step(prev, o);
                        assert(st.exit is None && st.emit is None && st.next == prev);
                        let rest = run_seq(prev, tail.drop_first());
                        assert(run_seq(prev, tail) == (SeqTrace {
                            emitted: Seq::<EmitRec>::empty() + rest.emitted,
                            exit: rest.exit,
                            end: rest.end,
                        }));
                        assert(Seq::<EmitRec>::empty() + rest.emitted =~= rest.emitted);
                        assert(run_seq(*old(self), script@) == (SeqTrace {
                            emitted: emitted@ + run_seq(*self, script@.skip(i + 1 as int)).emitted,
                            exit: run_seq(*self, script@.skip(i + 1 as int)).exit,
                            end: run_seq(*self, script@.skip(i + 1 as int)).end,
                        }));
                    }
                },
                SeqDecision::Emit(idx) => {
                    let rec = EmitRec {
                        step: idx,
                        ok: o.send_ok,
                        sleep_ms: self.steps[idx].interval_after.millis,
                    };
                    emitted.push(rec);
                    let ex = self.record_send(o.send_ok);
                    proof {
                        assert(emitted@ == prev_emitted.push(rec));
                        let st = spec_step(prev, o);
                        assert(st.emit == Some(rec));
                        assert(st.next == *self && st.exit == ex);
                        if ex is Some {
                            assert(run_seq(prev, tail) == (SeqTrace {
                                emitted: seq![rec],
                                exit: ex,
                                end: *self,
                            }));
                            assert(prev_emitted + seq![rec] =~= emitted@);
                            assert(run_seq(*old(self), script@) == (SeqTrace {
                                emitted: emitted@,
                                exit: ex,
                                end: *self,
                            }));
                        } else {
                            let rest = run_seq(*self, tail.drop_first());
                            assert(run_seq(prev, tail) == (SeqTrace {
                                emitted: seq![rec] + rest.emitted,
                                exit: rest.exit,
                                end: rest.end,
                            }));
                            assert(prev_emitted + (seq![rec] + rest.emitted) =~= emitted@
                                + rest.emitted);
                            assert(run_seq(*old(self), script@) == (SeqTrace {
                                emitted: emitted@ + run_seq(
                                    *self,
                                    script@.skip(i + 1 as int),
                                ).emitted,
                                exit: run_seq(*self, script@.skip(i + 1 as int)).exit,
                                end: run_seq(*self, script@.skip(i + 1 as int)).end,
                            }));
                        }
                    }
                    if ex.is_some() {
                        exit = ex;
                    }
                },
            }
            i = i + 1;
        }
        proof {
            if exit is None {
                assert(script@.skip(i as int) =~= Seq::<SeqObs>::empty());
                assert(emitted@ + Seq::<EmitRec>::empty() =~= emitted@);
            }
        }
        SeqReport { emitted, exit }
    }
}

/// An observation under which the runner emits and the send succeeds:
/// not cancelled, target alive, not paused, send ok.
pub open spec fn benign_obs(o: SeqObs) -> bool {
    !o.cancelled && o.alive && !o.paused && o.send_ok
}

pub open spec fn benign_script(s: Seq<SeqObs>) -> bool {
    forall|i: int| 0 <= i < s.len() ==> benign_obs(s[i])
}

/// An observation under which the runner emits but the send fails.
pub open spec fn adverse_obs(o: SeqObs) -> bool {
    !o.cancelled && o.alive && !o.paused && !o.send_ok
}

proof fn lemma_benign_drop_first(s: Seq<SeqObs>)
    requires
        benign_script(s),
        s.len() > 0,
    ensures
        benign_script(s.drop_first()),
{
    assert forall|j: int| 0 <= j < s.drop_first().len() implies benign_obs(
        s.drop_first()[j],
    ) by {
        assert(s.drop_first()[j] == s[j + 1]);
    }
}

proof fn lemma_seq_pass_from(m: SequentialRunner, script: Seq<SeqObs>)
    requires
        m.wf(),
        !m.loop_forever,
        m.repeat_count == 0 || m.passes_completed < m.repeat_count,
        benign_script(script),
        script.len() >= m.steps@.len() - m.step_index,
    ensures
        ({
            let t = run_seq(m, script);
            &&& t.exit == Some(SeqExit::PassDone)
            &&& t.emitted.len() == m.steps@.len() - m.step_index
            &&& forall|j: int|
                0 <= j < t.emitted.len() ==> (#[trigger] t.emitted[j]).ok && t.emitted[j].step
                    == m.step_index + j
        }),
    decreases m.steps@.len() - m.step_index,
{
    let o = script[0];
    assert(benign_obs(o));
    let st = spec_step(m, o);
    let rec = st.emit->0;
    assert(rec.ok && rec.step == m.step_index);
    if m.step_index + 1 == m.steps@.len() {
        assert(st.exit == Some(SeqExit::PassDone));
        let t = run_seq(m, script);
        assert(t.emitted == seq![rec]);
    } else {
        assert(st.exit is None);
        let m2 = st.next;
        assert(m2.wf() && m2.step_index == m.step_index + 1 && m2.steps == m.steps
            && m2.loop_forever == m.loop_forever && m2.repeat_count == m.repeat_count
            && m2.passes_completed == m.passes_completed);
        lemma_benign_drop_first(script);
        lemma_seq_pass_from(m2, script.drop_first());
        let rest = run_seq(m2, script.drop_first());
        let t = run_seq(m, script);
        assert(t.emitted == seq![rec] + rest.emitted);
        assert forall|j: int|
            0 <= j < t.emitted.len() implies (#[trigger] t.emitted[j]).ok && t.emitted[j].step
            == m.step_index + j by {
            if j == 0 {
                assert(t.emitted[0] == rec);
            } else {
                assert(t.emitted[j] == rest.emitted[j - 1]);
            }
        }
    }
}

/// With looping off, a fresh runner emits each step exactly once, in
/// order and successfully, and then stops with `PassDone` — whatever
/// the repeat bound says. This is the single-pass law: `len(steps)`
/// keystrokes, then a clean exit.
pub proof fn lemma_seq_single_pass(m: SequentialRunner, script: Seq<SeqObs>)
    requires
        m.wf(),
        !m.loop_forever,
        m.step_index == 0,
        m.passes_completed == 0,
        benign_script(script),
        script.len() >= m.steps@.len(),
    ensures
        ({
            let t = run_seq(m, script);
            &&& t.exit == Some(SeqExit::PassDone)
            &&& t.emitted.len() == m.steps@.len()
            &&& forall|j: int|
                0 <= j < t.emitted.len() ==> (#[trigger] t.emitted[j]).ok && t.emitted[j].step
                    == j
        }),
{
    lemma_seq_pass_from(m, script);
}

proof fn lemma_seq_repeat_from(m: SequentialRunner, script: Seq<SeqObs>)
    requires
        m.wf(),
        m.loop_forever,
        m.repeat_count > 0,
        m.passes_completed < m.repeat_count,
        benign_script(script),
        script.len() >= (m.repeat_count - m.passes_completed) * m.steps@.len() - m.step_index
            + 1,
    ensures
        ({
            let t = run_seq(m, script);
            &&& t.exit == Some(SeqExit::RepeatsDone)
            &&& t.emitted.len() == (m.repeat_count - m.passes_completed) * m.steps@.len()
                - m.step_index
            &&& forall|j: int| 0 <= j < t.emitted.len() ==> (#[trigger] t.emitted[j]).ok
        }),
    decreases (m.repeat_count - m.passes_completed) * m.steps@.len() - m.step_index,
{
    let len = m.steps@.len() as int;
    let rem = (m.repeat_count - m.passes_completed) * len - m.step_index;
    assert((m.repeat_count - m.passes_completed) * len >= 1 * len) by (nonlinear_arith)
        requires
            m.repeat_count - m.passes_completed >= 1,
            len >= 0,
    ;
    assert(rem >= 1);
    let o = script[0];
    assert(benign_obs(o));
    let st = spec_step(m, o);
    let rec = st.emit->0;
    assert(rec.ok);
    let m2 = st.next;
    lemma_benign_drop_first(script);
    if m.step_index + 1 == m.steps@.len() {
        let p2 = sat_inc(m.passes_completed);
        assert(p2 == m.passes_completed + 1);
        assert(st.exit is None);
        assert(m2.step_index == 0 && m2.passes_completed == p2);
        assert((m.repeat_count - p2) * len == (m.repeat_count - m.passes_completed) * len
            - len) by (nonlinear_arith)
            requires
                p2 == m.passes_completed + 1,
        ;
        if p2 == m.repeat_count {
            assert(rem == 1);
            let tail = script.drop_first();
            assert(tail.len() >= 1);
            let st2 = spec_step(m2, tail[0]);
            assert(st2.exit == Some(SeqExit::RepeatsDone) && st2.emit is None);
            let rest = run_seq(m2, tail);
            assert(rest.emitted =~= Seq::<EmitRec>::empty());
            assert(rest.exit == Some(SeqExit::RepeatsDone));
            let t = run_seq(m, script);
            assert(t.emitted == seq![rec] + rest.emitted);
            assert(t.emitted.len() == 1);
            assert forall|j: int| 0 <= j < t.emitted.len() implies (#[trigger] t.emitted[j]).ok by {
                assert(t.emitted[j] == rec);
            }
        } else {
            lemma_seq_repeat_from(m2, script.drop_first());
            let rest = run_seq(m2, script.drop_first());
            let t = run_seq(m, script);
            assert(t.emitted == seq![rec] + rest.emitted);
            assert forall|j: int| 0 <= j < t.emitted.len() implies (#[trigger] t.emitted[j]).ok by {
                if j == 0 {
                    assert(t.emitted[0] == rec);
                } else {
                    assert(t.emitted[j] == rest.emitted[j - 1]);
                }
            }
        }
    } else {
        assert(st.exit is None);
        assert(m2.step_index == m.step_index + 1 && m2.passes_completed == m.passes_completed);
        lemma_seq_repeat_from(m2, script.drop_first());
        let rest = run_seq(m2, script.drop_first());
        let t = run_seq(m, script);
        assert(t.emitted == seq![rec] + rest.emitted);
        assert forall|j: int| 0 <= j < t.emitted.len() implies (#[trigger] t.emitted[j]).ok by {
            if j == 0 {
                assert(t.emitted[0] == rec);
            } else {
                assert(t.emitted[j] == rest.emitted[j - 1]);
            }
        }
    }
}

/// With looping on and a positive repeat bound `k`, a fresh runner
/// emits exactly `k · len(steps)` successful keystrokes and then stops
/// with `RepeatsDone`.
pub proof fn lemma_seq_bounded_repeats(m: SequentialRunner, script: Seq<SeqObs>)
    requires
        m.wf(),
        m.loop_forever,
        m.repeat_count > 0,
        m.step_index == 0,
        m.passes_completed == 0,
        benign_script(script),
        script.len() >= m.repeat_count * m.steps@.len() + 1,
    ensures
        ({
            let t = run_seq(m, script);
            &&& t.exit == Some(SeqExit::RepeatsDone)
            &&& t.emitted.len() == m.repeat_count * m.steps@.len()
            &&& forall|j: int| 0 <= j < t.emitted.len() ==> (#[trigger] t.emitted[j]).ok
        }),
{
    lemma_seq_repeat_from(m, script);
}

/// `repeat_count = 1` with looping on: exactly one pass, then out.
pub proof fn lemma_seq_one_pass_looping(m: SequentialRunner, script: Seq<SeqObs>)
    requires
        m.wf(),
        m.loop_forever,
        m.repeat_count == 1,
        m.step_index == 0,
        m.passes_completed == 0,
        benign_script(script),
        script.len() >= m.steps@.len() + 1,
    ensures
        ({
            let t = run_seq(m, script);
            &&& t.exit == Some(SeqExit::RepeatsDone)
            &&& t.emitted.len() == m.steps@.len()
        }),
{
    lemma_seq_bounded_repeats(m, script);
}

/// Cancellation stops the run: once any observation in the script shows
/// the flag set, the run has ended by that iteration — it reports an
/// exit, and no keystroke of the run stems from that iteration or any
/// later one (at most one keystroke per earlier iteration).
pub proof fn lemma_seq_cancel_stops(m: SequentialRunner, script: Seq<SeqObs>, j: int)
    requires
        0 <= j < script.len(),
        script[j].cancelled,
    ensures
        run_seq(m, script).exit is Some,
        run_seq(m, script).emitted.len() <= j,
    decreases j,
{
    let st = spec_step(m, script[0]);
    if j == 0 {
        assert(st.exit == Some(SeqExit::Cancelled));
    } else {
        if st.exit is None {
            assert(script.drop_first()[j - 1] == script[j]);
            lemma_seq_cancel_stops(st.next, script.drop_first(), j - 1);
        }
    }
}

/// The pause that follows an emission is the configured pause of its
/// step, always: the runner consults the pause flag only at the top of
/// an iteration, so toggling it mid-sleep neither shortens nor extends
/// the active sleep.
pub proof fn lemma_seq_sleep_is_configured(m: SequentialRunner, script: Seq<SeqObs>)
    requires
        m.wf(),
    ensures
        ({
            let t = run_seq(m, script);
            forall|j: int|
                0 <= j < t.emitted.len() ==> (#[trigger] t.emitted[j]).step < m.steps@.len()
                    && t.emitted[j].sleep_ms == m.steps@[t.emitted[j].step as int].interval_after.millis
        }),
    decreases script.len(),
{
    if script.len() > 0 {
        let st = spec_step(m, script[0]);
        lemma_step_preserves(m, script[0]);
        if st.exit is None {
            lemma_seq_sleep_is_configured(st.next, script.drop_first());
            let rest = run_seq(st.next, script.drop_first());
            let t = run_seq(m, script);
            assert forall|j: int|
                0 <= j < t.emitted.len() implies (#[trigger] t.emitted[j]).step < m.steps@.len()
                && t.emitted[j].sleep_ms
                == m.steps@[t.emitted[j].step as int].interval_after.millis by {
                match st.emit {
                    Some(rec) => {
                        if j == 0 {
                            assert(t.emitted[0] == rec);
                        } else {
                            assert(t.emitted[j] == rest.emitted[j - 1]);
                        }
                    },
                    None => {
                        assert(t.emitted[j] == rest.emitted[j]);
                    },
                }
            }
        }
    }
}

/// Five adjacent injection failures stop the runner: under observations
/// that emit but fail, an unbounded looping runner attempts exactly as
/// many sends as the failure budget still allows and then exits with
/// `TooManyFailures`.
pub proof fn lemma_seq_failures(m: SequentialRunner, script: Seq<SeqObs>)
    requires
        m.wf(),
        m.loop_forever,
        m.repeat_count == 0,
        forall|i: int| 0 <= i < script.len() ==> adverse_obs(#[trigger] script[i]),
        script.len() >= FAILURE_LIMIT - m.failures.count,
    ensures
        ({
            let t = run_seq(m, script);
            &&& t.exit == Some(SeqExit::TooManyFailures)
            &&& t.emitted.len() == FAILURE_LIMIT - m.failures.count
            &&& forall|j: int| 0 <= j < t.emitted.len() ==> !(#[trigger] t.emitted[j]).ok
        }),
    decreases FAILURE_LIMIT - m.failures.count,
{
    let o = script[0];
    assert(adverse_obs(o));
    let st = spec_step(m, o);
    let rec = st.emit->0;
    assert(!rec.ok);
    if m.failures.count + 1 >= FAILURE_LIMIT {
        assert(st.exit == Some(SeqExit::TooManyFailures));
        let t = run_seq(m, script);
        assert(t.emitted == seq![rec]);
    } else {
        assert(st.exit is None);
        let m2 = st.next;
        assert(m2.wf() && m2.failures.count == m.failures.count + 1);
        assert forall|i: int|
            0 <= i < script.drop_first().len() implies adverse_obs(
            #[trigger] script.drop_first()[i],
        ) by {
            assert(script.drop_first()[i] == script[i + 1]);
        }
        lemma_seq_failures(m2, script.drop_first());
        let rest = run_seq(m2, script.drop_first());
        let t = run_seq(m, script);
        assert(t.emitted == seq![rec] + rest.emitted);
        assert forall|j: int| 0 <= j < t.emitted.len() implies !(#[trigger] t.emitted[j]).ok by {
            if j == 0 {
                assert(t.emitted[0] == rec);
            } else {
                assert(t.emitted[j] == rest.emitted[j - 1]);
            }
        }
    }
}

} // verus!
