//! Target acquisition: poll the process watcher up to a retry bound
//! until a window for the target process is found.
//!
//! One attempt is one observation: the cancellation flag at the top,
//! and what the watcher found. The machine answers with what to do:
//! stop on cancellation, hand out the found window, sleep and retry, or
//! give up when the attempt budget is spent. The host runtime performs
//! the snapshot and the one-to-two-second sleep between attempts; the
//! sleep yields cooperatively, so cancellation preempts it at the next
//! attempt's check.

use vstd::prelude::*;

verus! {

/// What one acquisition attempt observes: the cancellation flag and
/// the window the watcher found, if any.
#[derive(Debug, Clone, Copy, PartialEq, Eq, Structural)]
pub struct AcquireObs {
    pub cancelled: bool,
    pub window: Option<u64>,
}

/// What the attempt decided.
#[derive(Debug, Clone, Copy, PartialEq, Eq, Structural)]
pub enum AcquireDecision {
    /// The cancellation flag was observed set; stop without a result.
    Cancelled,
    /// A window was found; acquisition is done.
    Acquired(u64),
    /// Nothing found and attempts remain: sleep, then try again.
    RetrySleep,
    /// Nothing found and the attempt budget is spent.
    Exhausted,
}

/// How a finished acquisition ended.
#[derive(Debug, Clone, Copy, PartialEq, Eq, Structural)]
pub enum AcquireOutcome {
    Cancelled,
    Acquired(u64),
    Exhausted,
}

/// The acquisition loop's position: how many attempts failed so far,
/// against the configured bound.
#[derive(Debug, Clone, Copy, PartialEq, Eq, Structural)]
pub struct Acquirer {
    pub attempts_made: u32,
    pub max_retries: u32,
}

impl Acquirer {
    pub open spec fn wf(self) -> bool {
        &&& self.max_retries >= 1
        &&& self.attempts_made < self.max_retries
    }

    pub fn new(max_retries: u32) -> (r: Acquirer)
        requires
            max_retries >= 1,
        ensures
            r.wf(),
            r.attempts_made == 0,
            r.max_retries == max_retries,
    {
        Acquirer { attempts_made: 0, max_retries }
    }
}

/// One attempt: cancellation first, then a found window, then the
/// budget check; a spent budget gives up, otherwise the machine counts
/// the failed attempt and asks for a sleep.
pub open spec fn spec_attempt(m: Acquirer, o: AcquireObs) -> (Acquirer, AcquireDecision) {
    if o.cancelled {
        (m, AcquireDecision::Cancelled)
    } else {
        match o.window {
            Some(w) => (m, AcquireDecision::Acquired(w)),
            None => if m.attempts_made + 1 >= m.max_retries {
                (m, AcquireDecision::Exhausted)
            } else {
                (
                    Acquirer {
                        attempts_made: (m.attempts_made + 1) as u32,
                        max_retries: m.max_retries,
                    },
                    AcquireDecision::RetrySleep,
                )
            },
        }
    }
}

/// A whole acquisition: how many inter-attempt sleeps it took, how it
/// ended (`None` when the script ran out first), and the final state.
pub struct AcquireTrace {
    pub sleeps: nat,
    pub outcome: Option<AcquireOutcome>,
    pub end: Acquirer,
}

pub open spec fn run_acquire(m: Acquirer, script: Seq<AcquireObs>) -> AcquireTrace
    decreases script.len(),
{
    if script.len() == 0 {
        AcquireTrace { sleeps: 0, outcome: None, end: m }
    } else {
        let (m2, d) = spec_attempt(m, script[0]);
        match d {
            AcquireDecision::Cancelled => AcquireTrace {
                sleeps: 0,
                outcome: Some(AcquireOutcome::Cancelled),
                end: m2,
            },
            AcquireDecision::Acquired(w) => AcquireTrace {
                sleeps: 0,
                outcome: Some(AcquireOutcome::Acquired(w)),
                end: m2,
            },
            AcquireDecision::Exhausted => AcquireTrace {
                sleeps: 0,
                outcome: Some(AcquireOutcome::Exhausted),
                end: m2,
            },
            AcquireDecision::RetrySleep => {
                let rest = run_acquire(m2, script.drop_first());
                AcquireTrace {
                    sleeps: rest.sleeps + 1,
                    outcome: rest.outcome,
                    end: rest.end,
                }
            },
        }
    }
}

/// What a replayed acquisition looks like executably.
pub struct AcquireReport {
    pub sleeps: usize,
    pub outcome: Option<AcquireOutcome>,
}

impl Acquirer {
    /// One attempt, from the observed cancellation flag and the
    /// watcher's finding.
    pub fn step(&mut self, cancelled: bool, window: Option<u64>) -> (r: AcquireDecision)
        requires
            old(self).wf(),
        ensures
            spec_attempt(*old(self), AcquireObs { cancelled, window }) == (*final(self), r),
            r is RetrySleep ==> final(self).wf(),
    {
        if cancelled {
            AcquireDecision::Cancelled
        } else {
            match window {
                Some(w) => AcquireDecision::Acquired(w),
                None => {
                    if self.attempts_made + 1 >= self.max_retries {
                        AcquireDecision::Exhausted
                    } else {
                        self.attempts_made = self.attempts_made + 1;
                        AcquireDecision::RetrySleep
                    }
                },
            }
        }
    }

    /// Replays an acquisition against a script of observations: the
    /// executable mirror of [`run_acquire`].
    pub fn run_script(&mut self, script: &Vec<AcquireObs>) -> (r: AcquireReport)
        requires
            old(self).wf(),
        ensures
            ({
                let t = run_acquire(*old(self), script@);
                &&& r.sleeps == t.sleeps
                &&& r.outcome == t.outcome
                &&& *final(self) == t.end
            }),
    {
        let n = script.len();
        let mut sleeps: usize = 0;
        let mut outcome: Option<AcquireOutcome> = None;
        let mut i: usize = 0;
        proof {
            assert(script@.skip(0) =~= script@);
        }
        while i < n && outcome.is_none()
            invariant
                n == script@.len(),
                i <= n,
                sleeps <= i,
                outcome is None ==> self.wf(),
                outcome is None ==> ({
                    let rest = run_acquire(*self, script@.skip(i as int));
                    run_acquire(*old(self), script@) == (AcquireTrace {
                        sleeps: (sleeps + rest.sleeps) as nat,
                        outcome: rest.outcome,
                        end: rest.end,
                    })
                }),
                outcome matches Some(oc) ==> run_acquire(*old(self), script@) == (AcquireTrace {
                    sleeps: sleeps as nat,
                    outcome: Some(oc),
                    end: *self,
                }),
            decreases n - i,
        {
            let ghost prev = *self;
            let ghost tail = script@.skip(i as int);
            proof {
                assert(tail[0] == script@[i as int]);
                assert(tail.drop_first() =~= script@.skip(i + 1 as int));
            }
            let o = script[i];
            let d = self.step(o.cancelled, o.window);
            match d {
                AcquireDecision::Cancelled => {
                    outcome = Some(AcquireOutcome::Cancelled);
                },
                AcquireDecision::Acquired(w) => {
                    outcome = Some(AcquireOutcome::Acquired(w));
                },
                AcquireDecision::Exhausted => {
                    outcome = Some(AcquireOutcome::Exhausted);
                },
                AcquireDecision::RetrySleep => {
                    sleeps = sleeps + 1;
                },
            }
            i = i + 1;
        }
        AcquireReport { sleeps, outcome }
    }
}

/// With the watcher never finding a window and no cancellation, the
/// acquirer sleeps between attempts and gives up when the budget is
/// spent: from a fresh machine, `max_retries - 1` sleeps, then
/// `Exhausted` — the caller's process-not-found error.
pub proof fn lemma_acquire_exhausts(m: Acquirer, script: Seq<AcquireObs>)
    requires
        m.wf(),
        forall|i: int|
            0 <= i < script.len() ==> !(#[trigger] script[i]).cancelled && script[i].window
                is None,
        script.len() >= m.max_retries - m.attempts_made,
    ensures
        ({
            let t = run_acquire(m, script);
            &&& t.outcome == Some(AcquireOutcome::Exhausted)
            &&& t.sleeps == m.max_retries - m.attempts_made - 1
        }),
    decreases m.max_retries - m.attempts_made,
{
    let o = script[0];
    let (m2, d) = spec_attempt(m, o);
    if m.attempts_made + 1 >= m.max_retries {
        assert(d == AcquireDecision::Exhausted);
    } else {
        assert(d == AcquireDecision::RetrySleep);
        assert forall|i: int|
            0 <= i < script.drop_first().len() implies !(#[trigger] script.drop_first()[i]).cancelled
            && script.drop_first()[i].window is None by {
            assert(script.drop_first()[i] == script[i + 1]);
        }
        lemma_acquire_exhausts(m2, script.drop_first());
    }
}

/// A found window ends acquisition at once, with no further sleep.
pub proof fn lemma_acquire_finds(m: Acquirer, script: Seq<AcquireObs>, w: u64)
    requires
        script.len() > 0,
        !script[0].cancelled,
        script[0].window == Some(w),
    ensures
        run_acquire(m, script).outcome == Some(AcquireOutcome::Acquired(w)),
        run_acquire(m, script).sleeps == 0,
{
}

} // verus!
