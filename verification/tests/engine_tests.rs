use process_key_sender::acquire::{AcquireObs, AcquireOutcome, Acquirer};
use process_key_sender::config::{DurationMs, KeyAction};
use process_key_sender::independent::{TickObs, TimerExit, TimerRunner};
use process_key_sender::key_sender::{KeyError, KeyEvent, KeySender, VK_CONTROL, VK_SHIFT};
use process_key_sender::process_finder::{any_name_match, first_matching_process, ProcessFinder};
use process_key_sender::sequential::{SeqExit, SeqObs, SequentialRunner};

fn step(key: &str, ms: u64) -> KeyAction {
    KeyAction {
        key: key.to_string(),
        interval_after: DurationMs::from_millis(ms),
    }
}

fn benign(n: usize) -> Vec<SeqObs> {
    vec![
        SeqObs {
            cancelled: false,
            alive: true,
            paused: false,
            send_ok: true
        };
        n
    ]
}

fn benign_ticks(n: usize) -> Vec<TickObs> {
    vec![
        TickObs {
            cancelled: false,
            alive: true,
            paused: false,
            send_ok: true
        };
        n
    ]
}

#[test]
fn test_key_resolution_table() {
    let sender = KeySender::new().unwrap();
    assert_eq!(sender.parse_key_windows("a").unwrap(), 0x41);
    assert_eq!(sender.parse_key_windows("z").unwrap(), 0x5a);
    assert_eq!(sender.parse_key_windows("0").unwrap(), 0x30);
    assert_eq!(sender.parse_key_windows("9").unwrap(), 0x39);
    assert_eq!(sender.parse_key_windows("f1").unwrap(), 0x70);
    assert_eq!(sender.parse_key_windows("F5").unwrap(), 0x74);
    assert_eq!(sender.parse_key_windows("f12").unwrap(), 0x7b);
    assert_eq!(sender.parse_key_windows("space").unwrap(), 0x20);
    assert_eq!(sender.parse_key_windows("ENTER").unwrap(), 0x0d);
    assert_eq!(
        sender.parse_key_windows("return").unwrap(),
        sender.parse_key_windows("enter").unwrap()
    );
    assert_eq!(
        sender.parse_key_windows("esc").unwrap(),
        sender.parse_key_windows("escape").unwrap()
    );
    assert_eq!(sender.parse_key_windows("ctrl").unwrap(), VK_CONTROL);
    assert_eq!(sender.parse_key_windows("shift").unwrap(), VK_SHIFT);
    assert_eq!(sender.parse_key_windows("pagedown").unwrap(), 0x22);
    assert_eq!(sender.parse_key_windows("f13"), Err(KeyError::UnsupportedKey));
    assert_eq!(sender.parse_key_windows("f0"), Err(KeyError::UnsupportedKey));
    assert_eq!(sender.parse_key_windows("widget"), Err(KeyError::UnsupportedKey));
    assert_eq!(sender.parse_key_windows(" a"), Err(KeyError::UnsupportedKey));
}

#[test]
fn test_combination_validation() {
    let sender = KeySender::new().unwrap();
    assert!(sender.parse_key_for_validation("ctrl+s").is_ok());
    assert!(sender.parse_key_for_validation("alt+tab").is_ok());
    assert!(sender.parse_key_for_validation(" Ctrl + Shift + S ").is_ok());
    assert!(sender.parse_key_for_validation("r").is_ok());
    // A non-modifier prefix, or a modifier in last position, is invalid.
    assert_eq!(
        sender.parse_key_for_validation("a+b"),
        Err(KeyError::InvalidCombination)
    );
    assert_eq!(
        sender.parse_key_for_validation("ctrl+shift"),
        Err(KeyError::InvalidCombination)
    );
    // An unknown token is unsupported.
    assert_eq!(
        sender.parse_key_for_validation("ctrl+widget"),
        Err(KeyError::UnsupportedKey)
    );
    assert_eq!(
        sender.parse_key_for_validation("bogus+s"),
        Err(KeyError::UnsupportedKey)
    );
}

#[test]
fn test_combination_event_order() {
    // The batch for ctrl+shift+s: modifiers down in order, the primary
    // pressed and released, modifiers up in reverse order.
    let sender = KeySender::new().unwrap();
    let events = sender.plan_key_events("ctrl+shift+s").unwrap();
    let expected = vec![
        KeyEvent { vk: VK_CONTROL, down: true },
        KeyEvent { vk: VK_SHIFT, down: true },
        KeyEvent { vk: 0x53, down: true },
        KeyEvent { vk: 0x53, down: false },
        KeyEvent { vk: VK_SHIFT, down: false },
        KeyEvent { vk: VK_CONTROL, down: false },
    ];
    assert_eq!(events, expected);
}

#[test]
fn test_single_key_event_order() {
    let sender = KeySender::new().unwrap();
    let events = sender.plan_key_events("r").unwrap();
    let expected = vec![
        KeyEvent { vk: 0x52, down: true },
        KeyEvent { vk: 0x52, down: false },
    ];
    assert_eq!(events, expected);
}

#[test]
fn test_send_key_reports_platform_unsupported() {
    // Delivery needs the host's input layer; the library-side send
    // validates and plans, then reports the platform stub's error.
    let sender = KeySender::new().unwrap();
    assert_eq!(
        sender.send_key_to_window(1, "r"),
        Err(KeyError::PlatformUnsupported)
    );
    assert_eq!(
        sender.send_key_to_window(1, "widget"),
        Err(KeyError::UnsupportedKey)
    );
    assert_eq!(
        sender.send_key_unix(1, "r"),
        Err(KeyError::PlatformUnsupported)
    );
}

#[test]
fn test_sequential_single_pass() {
    // loop_forever=false, repeat_count=0: one pass of len(steps)
    // emissions, then a clean exit.
    let mut runner = SequentialRunner::new(vec![step("r", 100), step("a", 250)], false, 0);
    let report = runner.run_script(&benign(10));
    assert_eq!(report.exit, Some(SeqExit::PassDone));
    assert_eq!(report.emitted.len(), 2);
    assert_eq!(report.emitted[0].step, 0);
    assert_eq!(report.emitted[1].step, 1);
    assert!(report.emitted.iter().all(|e| e.ok));
}

#[test]
fn test_sequential_two_step_repeat() {
    // Steps 1 and 2 at 50 ms, repeat_count=2: emissions 1,2,1,2.
    let mut runner = SequentialRunner::new(vec![step("1", 50), step("2", 50)], true, 2);
    let report = runner.run_script(&benign(10));
    assert_eq!(report.exit, Some(SeqExit::RepeatsDone));
    let steps: Vec<usize> = report.emitted.iter().map(|e| e.step).collect();
    assert_eq!(steps, vec![0, 1, 0, 1]);
}

#[test]
fn test_sequential_simple_repeat() {
    // One step at 100 ms, loop_forever=true, repeat_count=3: three
    // emissions of the single step, then a clean exit.
    let mut runner = SequentialRunner::new(vec![step("r", 100)], true, 3);
    let report = runner.run_script(&benign(10));
    assert_eq!(report.exit, Some(SeqExit::RepeatsDone));
    assert_eq!(report.emitted.len(), 3);
    assert!(report.emitted.iter().all(|e| e.ok && e.step == 0 && e.sleep_ms == 100));
}

#[test]
fn test_sequential_repeat_one_exits_after_one_pass() {
    // repeat_count=1 exits after one pass whether looping or not.
    let mut looping = SequentialRunner::new(vec![step("a", 10), step("b", 10)], true, 1);
    let report = looping.run_script(&benign(10));
    assert_eq!(report.exit, Some(SeqExit::RepeatsDone));
    assert_eq!(report.emitted.len(), 2);

    let mut single = SequentialRunner::new(vec![step("a", 10), step("b", 10)], false, 1);
    let report = single.run_script(&benign(10));
    assert_eq!(report.exit, Some(SeqExit::PassDone));
    assert_eq!(report.emitted.len(), 2);
}

#[test]
fn test_sequential_cancellation_stops_emissions() {
    let mut runner = SequentialRunner::new(vec![step("r", 10)], true, 0);
    let mut script = benign(2);
    script.push(SeqObs { cancelled: true, alive: true, paused: false, send_ok: true });
    script.extend(benign(5));
    let report = runner.run_script(&script);
    assert_eq!(report.exit, Some(SeqExit::Cancelled));
    assert_eq!(report.emitted.len(), 2);
}

#[test]
fn test_sequential_process_exit_detected() {
    // The process vanishes between iterations: the next top-of-loop
    // check reports it and the run ends cleanly after one emission.
    let mut runner = SequentialRunner::new(vec![step("r", 1000)], true, 0);
    let script = vec![
        SeqObs { cancelled: false, alive: true, paused: false, send_ok: true },
        SeqObs { cancelled: false, alive: false, paused: false, send_ok: true },
    ];
    let report = runner.run_script(&script);
    assert_eq!(report.exit, Some(SeqExit::ProcessGone));
    assert_eq!(report.emitted.len(), 1);
}

#[test]
fn test_sequential_pause_defers_emission() {
    // Paused iterations emit nothing; the emission that follows keeps
    // its configured pause.
    let mut runner = SequentialRunner::new(vec![step("r", 100)], true, 0);
    let script = vec![
        SeqObs { cancelled: false, alive: true, paused: false, send_ok: true },
        SeqObs { cancelled: false, alive: true, paused: true, send_ok: true },
        SeqObs { cancelled: false, alive: true, paused: true, send_ok: true },
        SeqObs { cancelled: false, alive: true, paused: false, send_ok: true },
    ];
    let report = runner.run_script(&script);
    assert_eq!(report.exit, None);
    assert_eq!(report.emitted.len(), 2);
    assert!(report.emitted.iter().all(|e| e.sleep_ms == 100));
}

#[test]
fn test_sequential_failure_budget() {
    // Five adjacent failures stop the run; a success within the first
    // four resets the counter and the run continues.
    let fail = SeqObs { cancelled: false, alive: true, paused: false, send_ok: false };
    let ok = SeqObs { cancelled: false, alive: true, paused: false, send_ok: true };

    let mut runner = SequentialRunner::new(vec![step("r", 10)], true, 0);
    let report = runner.run_script(&vec![fail; 7]);
    assert_eq!(report.exit, Some(SeqExit::TooManyFailures));
    assert_eq!(report.emitted.len(), 5);
    assert!(report.emitted.iter().all(|e| !e.ok));

    let mut runner = SequentialRunner::new(vec![step("r", 10)], true, 0);
    let script = vec![fail, fail, fail, fail, ok, fail, fail, fail, fail, ok];
    let report = runner.run_script(&script);
    assert_eq!(report.exit, None);
    assert_eq!(report.emitted.len(), 10);
}

#[test]
fn test_independent_two_timers() {
    // Timers (r, 100ms) and (a, 250ms) over a one-second window: the
    // timer primitive delivers about 10 and 4 ticks; each benign tick
    // emits exactly once.
    let mut fast = TimerRunner::new("r".to_string(), DurationMs::from_millis(100));
    let mut slow = TimerRunner::new("a".to_string(), DurationMs::from_millis(250));
    let fast_report = fast.run_ticks(&benign_ticks(10));
    let slow_report = slow.run_ticks(&benign_ticks(4));
    assert_eq!(fast_report.exit, None);
    assert_eq!(fast_report.emitted.len(), 10);
    assert_eq!(slow_report.exit, None);
    assert_eq!(slow_report.emitted.len(), 4);
}

#[test]
fn test_independent_cancellation_and_liveness() {
    let mut timer = TimerRunner::new("r".to_string(), DurationMs::from_millis(100));
    let script = vec![
        TickObs { cancelled: false, alive: true, paused: false, send_ok: true },
        TickObs { cancelled: true, alive: true, paused: false, send_ok: true },
    ];
    let report = timer.run_ticks(&script);
    assert_eq!(report.exit, Some(TimerExit::Cancelled));
    assert_eq!(report.emitted.len(), 1);

    let mut timer = TimerRunner::new("r".to_string(), DurationMs::from_millis(100));
    let script = vec![TickObs { cancelled: false, alive: false, paused: false, send_ok: true }];
    let report = timer.run_ticks(&script);
    assert_eq!(report.exit, Some(TimerExit::ProcessGone));
    assert_eq!(report.emitted.len(), 0);
}

#[test]
fn test_independent_pause_skips_ticks() {
    let mut timer = TimerRunner::new("r".to_string(), DurationMs::from_millis(100));
    let paused = TickObs { cancelled: false, alive: true, paused: true, send_ok: true };
    let active = TickObs { cancelled: false, alive: true, paused: false, send_ok: true };
    let report = timer.run_ticks(&vec![active, paused, paused, active]);
    assert_eq!(report.exit, None);
    assert_eq!(report.emitted.len(), 2);
}

#[test]
fn test_independent_failure_budget() {
    let fail = TickObs { cancelled: false, alive: true, paused: false, send_ok: false };
    let ok = TickObs { cancelled: false, alive: true, paused: false, send_ok: true };

    let mut timer = TimerRunner::new("r".to_string(), DurationMs::from_millis(100));
    let report = timer.run_ticks(&vec![fail; 8]);
    assert_eq!(report.exit, Some(TimerExit::TooManyFailures));
    assert_eq!(report.emitted.len(), 5);

    let mut timer = TimerRunner::new("r".to_string(), DurationMs::from_millis(100));
    let report = timer.run_ticks(&vec![fail, fail, fail, fail, ok, fail, fail]);
    assert_eq!(report.exit, None);
    assert_eq!(report.emitted.len(), 7);
}

#[test]
fn test_acquisition_failure() {
    // The process never appears; with max_retries=3 the acquirer
    // sleeps between attempts and then gives up.
    let mut acquirer = Acquirer::new(3);
    let script = vec![AcquireObs { cancelled: false, window: None }; 3];
    let report = acquirer.run_script(&script);
    assert_eq!(report.outcome, Some(AcquireOutcome::Exhausted));
    assert_eq!(report.sleeps, 2);
}

#[test]
fn test_acquisition_success_and_cancellation() {
    let mut acquirer = Acquirer::new(5);
    let script = vec![
        AcquireObs { cancelled: false, window: None },
        AcquireObs { cancelled: false, window: Some(42) },
    ];
    let report = acquirer.run_script(&script);
    assert_eq!(report.outcome, Some(AcquireOutcome::Acquired(42)));
    assert_eq!(report.sleeps, 1);

    let mut acquirer = Acquirer::new(5);
    let script = vec![AcquireObs { cancelled: true, window: Some(42) }];
    let report = acquirer.run_script(&script);
    assert_eq!(report.outcome, Some(AcquireOutcome::Cancelled));
    assert_eq!(report.sleeps, 0);
}

#[test]
fn test_process_name_matching() {
    let list = vec![
        (1u64, "systemd".to_string()),
        (2u64, "Revolution Idle.exe".to_string()),
        (3u64, "notepad.exe".to_string()),
    ];
    assert_eq!(first_matching_process(&list, "revolution idle"), Some(2));
    assert_eq!(first_matching_process(&list, "NOTEPAD"), Some(3));
    assert_eq!(first_matching_process(&list, "sys"), Some(1));
    assert_eq!(first_matching_process(&list, "chrome"), None);
    assert!(any_name_match(&list, "idle.EXE"));
    assert!(!any_name_match(&list, "chrome"));
}

#[test]
fn test_process_finder_against_live_system() {
    let mut finder = ProcessFinder::new();
    // The empty name is contained in every process name, and this test
    // process itself is running.
    assert!(finder.is_process_running(""));
    // A name no real process carries.
    assert!(!finder.is_process_running("no_such_process_name_qq9913zz"));
    assert_eq!(finder.find_process_window("no_such_process_name_qq9913zz"), None);
}
