//! The engine's configuration: a target process name, exactly one of a
//! sequential key list or a set of independent timers, and the knobs that
//! govern retries, looping and verbosity.
//!
//! Loading and saving configuration files is an outer concern; this
//! module holds the validated value the engine consumes, and the
//! validation rules themselves. Duration strings and their compact
//! re-serialization live in [`crate::duration`] and are re-exported here.

use vstd::prelude::*;
use vstd::string::StringExecFns;
use crate::text::is_blank;
pub use crate::duration::{parse_duration, duration_to_string, DurationMs, DurationError};

verus! {

/// One step of the sequential mode: press `key`, then wait
/// `interval_after` before the next step.
#[derive(Debug, Clone)]
pub struct KeyAction {
    pub key: String,
    pub interval_after: DurationMs,
}

/// One independent timer: press `key` every `interval`.
#[derive(Debug, Clone)]
pub struct IndependentKey {
    pub key: String,
    pub interval: DurationMs,
}

/// The validated configuration the engine runs from. Exactly one of
/// `key_sequence` and `independent_keys` may be non-empty.
#[derive(Debug, Clone)]
pub struct Config {
    pub process_name: String,
    pub key_sequence: Vec<KeyAction>,
    pub independent_keys: Vec<IndependentKey>,
    pub max_retries: u32,
    pub pause_hotkey: String,
    pub verbose: bool,
    pub loop_sequence: bool,
    pub repeat_count: u32,
}

/// Why a configuration was rejected; index payloads name the offending
/// entry.
#[derive(Debug, Clone, Copy, PartialEq, Eq, Structural)]
pub enum ConfigError {
    EmptyProcessName,
    NoKeysConfigured,
    BothModesConfigured,
    ZeroMaxRetries,
    EmptySequenceKey(usize),
    ShortSequenceInterval(usize),
    EmptyIndependentKey(usize),
    ShortIndependentInterval(usize),
}

/// The fault of sequential step `i`, if any: a blank key, or a pause
/// below one millisecond.
pub open spec fn step_error_at(steps: Seq<KeyAction>, i: int) -> Option<ConfigError>
    recommends
        0 <= i < steps.len(),
{
    if is_blank(steps[i].key@) {
        Some(ConfigError::EmptySequenceKey(i as usize))
    } else if steps[i].interval_after.millis < 1 {
        Some(ConfigError::ShortSequenceInterval(i as usize))
    } else {
        None
    }
}

/// The first faulty sequential step from `i` on.
pub open spec fn first_step_error(steps: Seq<KeyAction>, i: int) -> Option<ConfigError>
    decreases steps.len() - i,
{
    if i < 0 || i >= steps.len() {
        None
    } else if step_error_at(steps, i) is Some {
        step_error_at(steps, i)
    } else {
        first_step_error(steps, i + 1)
    }
}

/// The fault of independent timer `i`, if any: a blank key, or a period
/// below one millisecond.
pub open spec fn timer_error_at(timers: Seq<IndependentKey>, i: int) -> Option<ConfigError>
    recommends
        0 <= i < timers.len(),
{
    if is_blank(timers[i].key@) {
        Some(ConfigError::EmptyIndependentKey(i as usize))
    } else if timers[i].interval.millis < 1 {
        Some(ConfigError::ShortIndependentInterval(i as usize))
    } else {
        None
    }
}

/// The first faulty independent timer from `i` on.
pub open spec fn first_timer_error(timers: Seq<IndependentKey>, i: int) -> Option<ConfigError>
    decreases timers.len() - i,
{
    if i < 0 || i >= timers.len() {
        None
    } else if timer_error_at(timers, i) is Some {
        timer_error_at(timers, i)
    } else {
        first_timer_error(timers, i + 1)
    }
}

/// The first fault of a configuration, in the order validation checks:
/// a blank process name; no keys at all; both modes at once; a zero
/// retry bound; then the sequential steps in order; then the
/// independent timers in order.
pub open spec fn config_error(c: Config) -> Option<ConfigError> {
    if is_blank(c.process_name@) {
        Some(ConfigError::EmptyProcessName)
    } else if c.key_sequence@.len() == 0 && c.independent_keys@.len() == 0 {
        Some(ConfigError::NoKeysConfigured)
    } else if c.key_sequence@.len() > 0 && c.independent_keys@.len() > 0 {
        Some(ConfigError::BothModesConfigured)
    } else if c.max_retries == 0 {
        Some(ConfigError::ZeroMaxRetries)
    } else if first_step_error(c.key_sequence@, 0) is Some {
        first_step_error(c.key_sequence@, 0)
    } else {
        first_timer_error(c.independent_keys@, 0)
    }
}

/// A configuration the engine accepts.
pub open spec fn config_valid(c: Config) -> bool {
    config_error(c) is None
}

proof fn lemma_step_error_locate(steps: Seq<KeyAction>, start: int, k: int)
    requires
        0 <= start <= k < steps.len(),
        forall|j: int| start <= j < k ==> step_error_at(steps, j) is None,
        step_error_at(steps, k) is Some,
    ensures
        first_step_error(steps, start) == step_error_at(steps, k),
    decreases k - start,
{
    if start < k {
        lemma_step_error_locate(steps, start + 1, k);
    }
}

proof fn lemma_step_error_none(steps: Seq<KeyAction>, start: int)
    requires
        0 <= start <= steps.len(),
        forall|j: int| start <= j < steps.len() ==> step_error_at(steps, j) is None,
    ensures
        first_step_error(steps, start) is None,
    decreases steps.len() - start,
{
    if start < steps.len() {
        lemma_step_error_none(steps, start + 1);
    }
}

proof fn lemma_timer_error_locate(timers: Seq<IndependentKey>, start: int, k: int)
    requires
        0 <= start <= k < timers.len(),
        forall|j: int| start <= j < k ==> timer_error_at(timers, j) is None,
        timer_error_at(timers, k) is Some,
    ensures
        first_timer_error(timers, start) == timer_error_at(timers, k),
    decreases k - start,
{
    if start < k {
        lemma_timer_error_locate(timers, start + 1, k);
    }
}

proof fn lemma_timer_error_none(timers: Seq<IndependentKey>, start: int)
    requires
        0 <= start <= timers.len(),
        forall|j: int| start <= j < timers.len() ==> timer_error_at(timers, j) is None,
    ensures
        first_timer_error(timers, start) is None,
    decreases timers.len() - start,
{
    if start < timers.len() {
        lemma_timer_error_none(timers, start + 1);
    }
}

/// The retry bound used when a configuration names none.
pub fn default_max_retries() -> (r: u32)
    ensures
        r == 10,
{
    10
}

/// The pause hotkey used when a configuration names none.
pub fn default_pause_hotkey() -> (r: String)
    ensures
        r@ == "ctrl+alt+r"@,
{
    String::from_str("ctrl+alt+r")
}

/// Whether the sequential mode loops when a configuration does not say.
pub fn default_loop_sequence() -> (r: bool)
    ensures
        r,
{
    true
}

impl Config {
    /// Whether the independent-timer mode is selected.
    pub fn is_independent_mode(&self) -> (r: bool)
        ensures
            r == (self.independent_keys@.len() > 0),
    {
        self.independent_keys.len() > 0
    }

    /// Checks the configuration and reports its first fault: the process
    /// name must not be blank, exactly one mode must be populated, the
    /// retry bound must be positive, every key must be non-blank and
    /// every pause or period at least one millisecond.
    pub fn validate(&self) -> (r: Result<(), ConfigError>)
        ensures
            r is Ok <==> config_valid(*self),
            r matches Err(e) ==> config_error(*self) == Some(e),
    {
        if crate::text::is_blank_str(self.process_name.as_str()) {
            return Err(ConfigError::EmptyProcessName);
        }
        if self.key_sequence.len() == 0 && self.independent_keys.len() == 0 {
            return Err(ConfigError::NoKeysConfigured);
        }
        if self.key_sequence.len() > 0 && self.independent_keys.len() > 0 {
            return Err(ConfigError::BothModesConfigured);
        }
        if self.max_retries == 0 {
            return Err(ConfigError::ZeroMaxRetries);
        }
        let n = self.key_sequence.len();
        let mut i: usize = 0;
        while i < n
            invariant
                n == self.key_sequence@.len(),
                i <= n,
                !is_blank(self.process_name@),
                self.key_sequence@.len() + self.independent_keys@.len() > 0,
                self.key_sequence@.len() == 0 || self.independent_keys@.len() == 0,
                self.max_retries != 0,
                forall|j: int| 0 <= j < i ==> step_error_at(self.key_sequence@, j) is None,
            decreases n - i,
        {
            let step = &self.key_sequence[i];
            if crate::text::is_blank_str(step.key.as_str()) {
                proof {
                    lemma_step_error_locate(self.key_sequence@, 0, i as int);
                }
                return Err(ConfigError::EmptySequenceKey(i));
            }
            if step.interval_after.millis < 1 {
                proof {
                    lemma_step_error_locate(self.key_sequence@, 0, i as int);
                }
                return Err(ConfigError::ShortSequenceInterval(i));
            }
            i = i + 1;
        }
        proof {
            lemma_step_error_none(self.key_sequence@, 0);
        }
        let m = self.independent_keys.len();
        let mut t: usize = 0;
        while t < m
            invariant
                m == self.independent_keys@.len(),
                t <= m,
                !is_blank(self.process_name@),
                self.key_sequence@.len() + self.independent_keys@.len() > 0,
                self.key_sequence@.len() == 0 || self.independent_keys@.len() == 0,
                self.max_retries != 0,
                first_step_error(self.key_sequence@, 0) is None,
                forall|j: int| 0 <= j < t ==> timer_error_at(self.independent_keys@, j) is None,
            decreases m - t,
        {
            let timer = &self.independent_keys[t];
            if crate::text::is_blank_str(timer.key.as_str()) {
                proof {
                    lemma_timer_error_locate(self.independent_keys@, 0, t as int);
                }
                return Err(ConfigError::EmptyIndependentKey(t));
            }
            if timer.interval.millis < 1 {
                proof {
                    lemma_timer_error_locate(self.independent_keys@, 0, t as int);
                }
                return Err(ConfigError::ShortIndependentInterval(t));
            }
            t = t + 1;
        }
        proof {
            lemma_timer_error_none(self.independent_keys@, 0);
        }
        Ok(())
    }
}

} // verus!
