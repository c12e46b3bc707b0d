use std::cell::Cell;
use std::rc::Rc;
use std::sync::atomic::{AtomicBool, Ordering};
use std::sync::Arc;
use std::time::Duration;

use logi_wheel::device::WheelModel;
use logi_wheel::fftest::{
    build_ff_effect, encode_ff_event, ff_type_supported, force_sequence, resolve_direction, run_sequence,
    SequenceHost,
    step_countdown, step_status_text, texture_sequence, Countdown, DeviceError, FfDevice, FfEffect,
    SequenceEnd, SequenceEvent, SequenceOutcome, SequenceProgress, Side, SimKind, SimStep, StepEffect,
    StepState, WaitOutcome, EV_FF, FF_BITS_LEN, FF_CONSTANT, FF_DAMPER, FF_EFFECT_SIZE, FF_PERIODIC,
    FF_RAMP, FF_SINE, FF_SPRING, SIM_LEVEL_30, SIM_SATURATION_30,
};

/// How the front-ends wait: a zero wait is over at once; any other wait
/// ends early when the run is cancelled. (No real sleeping here: nothing
/// can flip the flag while a single-threaded test waits.)
fn wait_for(cancel: &AtomicBool) -> impl FnMut(Duration) -> WaitOutcome + '_ {
    move |d: Duration| {
        if d.is_zero() {
            WaitOutcome::Completed
        } else if cancel.load(Ordering::Relaxed) {
            WaitOutcome::Cancelled
        } else {
            WaitOutcome::Completed
        }
    }
}

/// One run with a host over `cancel`, `on_event` and `wait`.
fn run_hosted<D: FfDevice, E: FnMut(SequenceEvent), W: FnMut(Duration) -> WaitOutcome>(
    device: &mut D,
    steps: &[SimStep],
    model: WheelModel,
    cancel: &AtomicBool,
    countdown: Countdown,
    on_event: E,
    wait: W,
) -> SequenceOutcome {
    let mut host = SequenceHost::new(cancel, on_event, wait);
    run_sequence(device, steps, model, countdown, &mut host)
}

// -----------------------------------------------------------------
// ff_effect layout / capability bits.
// -----------------------------------------------------------------

#[test]
fn ff_effect_layout_matches_kernel_abi() {
    let e = build_ff_effect(&force_sequence()[0], WheelModel::Rs50);
    let bytes = e.to_bytes();
    assert_eq!(bytes.len(), 48);
    assert_eq!(FF_EFFECT_SIZE, 48);
    // The union starts at offset 16, after seven u16 fields and padding.
    assert_eq!(&bytes[16..48], &e.u.0[..]);
    assert_eq!(u16::from_le_bytes([bytes[0], bytes[1]]), e.type_);
    assert_eq!(i16::from_le_bytes([bytes[2], bytes[3]]), e.id);
    assert_eq!(u16::from_le_bytes([bytes[4], bytes[5]]), e.direction);
    assert_eq!(u16::from_le_bytes([bytes[10], bytes[11]]), e.replay_length);
    assert_eq!(&bytes[14..16], &[0, 0]);
}

#[test]
fn ff_type_supported_reads_the_bitmap() {
    let mut bits = [0u8; FF_BITS_LEN];
    bits[FF_CONSTANT as usize / 8] |= 1 << (FF_CONSTANT as usize % 8);
    assert!(ff_type_supported(&bits, FF_CONSTANT));
    assert!(!ff_type_supported(&bits, FF_RAMP));
    // A too-short slice never panics, just reports unsupported.
    assert!(!ff_type_supported(&[], FF_CONSTANT));
}

// -----------------------------------------------------------------
// Step tables: exactly what we intend to upload.
// -----------------------------------------------------------------

#[test]
fn force_sequence_has_the_ten_specified_steps_in_order() {
    let seq = force_sequence();
    assert_eq!(seq.len(), 10);
    let types: Vec<u16> = seq.iter().map(|s| s.effect.ff_type()).collect();
    assert_eq!(
        types,
        vec![
            FF_CONSTANT, FF_CONSTANT, FF_CONSTANT, FF_CONSTANT, FF_CONSTANT, FF_CONSTANT, FF_RAMP, FF_SPRING,
            FF_DAMPER, FF_PERIODIC,
        ]
    );
    let total_ms: u32 = seq.iter().map(|s| u32::from(s.duration_ms)).sum();
    assert!((10_000..=11_000).contains(&total_ms), "total_ms={total_ms}");
}

#[test]
fn force_sequence_opens_with_six_short_alternating_pulses_of_equal_moderate_level() {
    let seq = force_sequence();
    let pulses = &seq[0..6];
    for (i, step) in pulses.iter().enumerate() {
        let (expected_side, expected_word) = if i % 2 == 0 { (Side::Left, "left") } else { (Side::Right, "right") };
        assert_eq!(step.direction, expected_side, "pulse {i} side");
        assert!(step.label.contains(expected_word), "pulse {i} label: {}", step.label);
        assert_eq!(step.duration_ms, 450, "pulse {i} duration");
        let StepEffect::Constant { level } = step.effect else { panic!("expected a Constant pulse") };
        assert_eq!(level, SIM_LEVEL_30, "pulse {i} level");
    }
}

#[test]
fn force_sequence_ramp_rises_from_zero() {
    let StepEffect::Ramp { start, end } = force_sequence()[6].effect else {
        panic!("expected a Ramp step");
    };
    assert_eq!(start, 0);
    assert!(end > 0);
}

#[test]
fn force_sequence_spring_and_damper_use_a_true_restoring_pair() {
    let seq = force_sequence();
    for step in [&seq[7], &seq[8]] {
        assert_eq!(step.direction, Side::Neither, "condition effects ignore direction");
        let (right_coeff, left_coeff, right_sat, left_sat) = match step.effect {
            StepEffect::Spring { right_coeff, left_coeff, right_sat, left_sat }
            | StepEffect::Damper { right_coeff, left_coeff, right_sat, left_sat } => {
                (right_coeff, left_coeff, right_sat, left_sat)
            }
            _ => panic!("expected a condition step"),
        };
        assert!(right_coeff > 0);
        assert!(left_coeff > 0);
        assert_eq!(right_coeff, left_coeff);
        assert!(right_sat > 0);
        assert_eq!(right_sat, left_sat);
    }
}

#[test]
fn force_sequence_sine_step_is_periodic_sine_with_moderate_magnitude() {
    let StepEffect::Periodic { waveform, magnitude, .. } = force_sequence()[9].effect else {
        panic!("expected a Periodic step");
    };
    assert_eq!(waveform, FF_SINE);
    assert!(magnitude > 0 && magnitude < i16::MAX / 2, "moderate, not full-scale");
}

#[test]
fn resolve_direction_is_swapped_on_the_g923_but_not_on_dd_wheels() {
    for model in [WheelModel::Rs50, WheelModel::GPro, WheelModel::Unknown] {
        assert_eq!(resolve_direction(Side::Right, model), 0x4000, "{model:?} right");
        assert_eq!(resolve_direction(Side::Left, model), 0xC000, "{model:?} left");
    }
    assert_eq!(resolve_direction(Side::Left, WheelModel::G923), 0x4000);
    assert_eq!(resolve_direction(Side::Right, WheelModel::G923), 0xC000);
    for model in [WheelModel::Rs50, WheelModel::GPro, WheelModel::Unknown, WheelModel::G923] {
        assert_eq!(resolve_direction(Side::Neither, model), 0, "{model:?} condition effect");
    }
}

#[test]
fn build_ff_effect_resolves_the_force_sequences_pulse_directions_per_model() {
    let seq = force_sequence();
    let left = &seq[0];
    let right = &seq[1];
    assert!(left.label.contains("left"));
    assert!(right.label.contains("right"));

    assert_eq!(build_ff_effect(left, WheelModel::Rs50).direction, 0xC000, "Rs50 left: today's value");
    assert_eq!(build_ff_effect(right, WheelModel::Rs50).direction, 0x4000, "Rs50 right: today's value");
    assert_eq!(build_ff_effect(left, WheelModel::G923).direction, 0x4000, "G923 left: swapped");
    assert_eq!(build_ff_effect(right, WheelModel::G923).direction, 0xC000, "G923 right: swapped");
}

#[test]
fn texture_sequence_progresses_through_rising_frequencies_at_one_amplitude() {
    let seq = texture_sequence();
    assert!((3..=4).contains(&seq.len()));
    let mut last_period = u16::MAX;
    for step in &seq {
        let StepEffect::Periodic { waveform, period_ms, magnitude } = step.effect else {
            panic!("expected every texture step to be Periodic");
        };
        assert_eq!(waveform, FF_SINE);
        assert_eq!(magnitude, SIM_LEVEL_30, "one moderate amplitude throughout");
        assert!(period_ms < last_period, "each step's frequency must rise (period must fall)");
        last_period = period_ms;
    }
    let total_ms: u32 = seq.iter().map(|s| u32::from(s.duration_ms)).sum();
    assert!((6_000..=10_000).contains(&total_ms), "total_ms={total_ms}");
}

#[test]
fn build_ff_effect_matches_the_step_it_was_built_from() {
    let seq = force_sequence();
    let e = build_ff_effect(&seq[1], WheelModel::Rs50);
    assert_eq!(e.type_, FF_CONSTANT);
    assert_eq!(e.id, -1, "fresh upload, kernel assigns the id");
    assert_eq!(e.direction, 0x4000, "Rs50 right pulse: today's convention");
    assert_eq!(e.replay_length, seq[1].duration_ms);
    assert_eq!(i16::from_le_bytes([e.u.0[0], e.u.0[1]]), SIM_LEVEL_30);

    let spring = build_ff_effect(&seq[7], WheelModel::Rs50);
    assert_eq!(spring.type_, FF_SPRING);
    assert_eq!(u16::from_le_bytes([spring.u.0[0], spring.u.0[1]]), SIM_SATURATION_30);
    assert_eq!(i16::from_le_bytes([spring.u.0[4], spring.u.0[5]]), SIM_LEVEL_30, "right_coeff");
    assert_eq!(i16::from_le_bytes([spring.u.0[6], spring.u.0[7]]), SIM_LEVEL_30, "left_coeff");
}

#[test]
fn sim_kind_maps_to_the_matching_table() {
    assert_eq!(SimKind::Force.steps(), force_sequence());
    assert_eq!(SimKind::Texture.steps(), texture_sequence());
}

// -----------------------------------------------------------------
// The runner, against a mock FfDevice.
// -----------------------------------------------------------------

/// A device double that never touches a real fd: counts uploads and
/// erases (to catch a leaked effect slot), records every play (id, value)
/// call, and can be told which `ff_effect.type`s it supports and to
/// "disappear" (ENODEV) after a given number of uploads.
struct MockDevice {
    supported: Vec<u16>,
    uploads: usize,
    erases: usize,
    plays: Vec<(i16, i32)>,
    next_id: i16,
    gone_after_uploads: Option<usize>,
    /// If set, `erase` flips this once its call count reaches the given
    /// number: the between-steps cancel check, without any real sleeping.
    cancel_after_erases: Option<(usize, Arc<AtomicBool>)>,
}

impl MockDevice {
    fn supporting(types: &[u16]) -> Self {
        MockDevice {
            supported: types.to_vec(),
            uploads: 0,
            erases: 0,
            plays: Vec::new(),
            next_id: 0,
            gone_after_uploads: None,
            cancel_after_erases: None,
        }
    }
}

impl FfDevice for MockDevice {
    fn set_gain(&mut self, _value: i32) -> Result<(), DeviceError> {
        Ok(())
    }

    fn upload(&mut self, effect: &FfEffect) -> Result<i16, DeviceError> {
        self.uploads += 1;
        if self.gone_after_uploads == Some(self.uploads) {
            return Err(DeviceError::Gone);
        }
        let id = self.next_id;
        self.next_id += 1;
        let _ = effect;
        Ok(id)
    }

    fn play(&mut self, id: i16, value: i32) -> Result<(), DeviceError> {
        self.plays.push((id, value));
        Ok(())
    }

    fn erase(&mut self, _id: i16) {
        self.erases += 1;
        if let Some((n, cancel)) = &self.cancel_after_erases {
            if self.erases == *n {
                cancel.store(true, Ordering::Relaxed);
            }
        }
    }

    fn ff_bits(&mut self) -> [u8; FF_BITS_LEN] {
        let mut bits = [0u8; FF_BITS_LEN];
        for t in &self.supported {
            bits[usize::from(*t) / 8] |= 1 << (usize::from(*t) % 8);
        }
        bits
    }
}

/// Tiny local steps (duration 0) so runner tests exercise the exact same
/// code paths as the real sequences without sleeping out real durations.
const QUICK_STEPS: &[SimStep] = &[
    SimStep { label: "one", effect: StepEffect::Constant { level: 100 }, duration_ms: 0, direction: Side::Right },
    SimStep { label: "two", effect: StepEffect::Ramp { start: 0, end: 100 }, duration_ms: 0, direction: Side::Right },
    SimStep {
        label: "three",
        effect: StepEffect::Periodic { waveform: FF_SINE, period_ms: 10, magnitude: 100 },
        duration_ms: 0,
        direction: Side::Right,
    },
];

const RUNNER_TEST_MODEL: WheelModel = WheelModel::Rs50;

#[test]
fn run_sequence_completes_every_step_with_no_leaked_effect_slot() {
    let mut device = MockDevice::supporting(&[FF_CONSTANT, FF_RAMP, FF_PERIODIC]);
    let cancel = AtomicBool::new(false);
    let mut seen = Vec::new();
    let outcome = run_hosted(
        &mut device,
        QUICK_STEPS,
        RUNNER_TEST_MODEL,
        &cancel,
        Countdown::none(),
        |ev| {
            if let SequenceEvent::Step { row, total, step } = ev {
                seen.push((row, total, step.label));
            }
        },
        wait_for(&cancel),
    );
    assert_eq!(outcome.end, SequenceEnd::Completed);
    assert_eq!(outcome.ran, 3);
    assert!(outcome.skipped.is_empty());
    assert_eq!(seen, vec![(0, 3, "one"), (1, 3, "two"), (2, 3, "three")]);
    assert_eq!(device.uploads, 3);
    assert_eq!(device.erases, 3, "every upload must be erased - no leaked slot");
    assert_eq!(device.plays, vec![(0, 1), (0, 0), (1, 1), (1, 0), (2, 1), (2, 0)]);
}

#[test]
fn run_sequence_skips_steps_the_device_does_not_advertise() {
    let mut device = MockDevice::supporting(&[FF_CONSTANT]);
    let cancel = AtomicBool::new(false);
    let mut skip_report = None;
    let outcome = run_hosted(
        &mut device,
        QUICK_STEPS,
        RUNNER_TEST_MODEL,
        &cancel,
        Countdown::none(),
        |ev| {
            if let SequenceEvent::Skipped(rows) = ev {
                skip_report = Some(rows.to_vec());
            }
        },
        wait_for(&cancel),
    );
    assert_eq!(outcome.end, SequenceEnd::Completed);
    assert_eq!(outcome.ran, 1);
    assert_eq!(outcome.skipped, vec!["two", "three"]);
    assert_eq!(skip_report, Some(vec![(1, "two"), (2, "three")]));
    assert_eq!(device.uploads, 1);
    assert_eq!(device.erases, 1);
    assert!(outcome.summary().contains("not supported"));
}

#[test]
fn run_sequence_skipping_every_step_runs_nothing_and_still_completes() {
    let mut device = MockDevice::supporting(&[]);
    let cancel = AtomicBool::new(false);
    let outcome =
        run_hosted(&mut device, QUICK_STEPS, RUNNER_TEST_MODEL, &cancel, Countdown::none(), |_| {}, wait_for(&cancel));
    assert_eq!(outcome.end, SequenceEnd::Completed);
    assert_eq!(outcome.ran, 0);
    assert_eq!(outcome.skipped.len(), 3);
    assert_eq!(device.uploads, 0);
    assert_eq!(device.erases, 0);
}

#[test]
fn run_sequence_cancelled_before_it_starts_runs_nothing() {
    let mut device = MockDevice::supporting(&[FF_CONSTANT, FF_RAMP, FF_PERIODIC]);
    let cancel = AtomicBool::new(true);
    let outcome =
        run_hosted(&mut device, QUICK_STEPS, RUNNER_TEST_MODEL, &cancel, Countdown::none(), |_| {}, wait_for(&cancel));
    assert_eq!(outcome.end, SequenceEnd::Cancelled);
    assert_eq!(outcome.ran, 0);
    assert_eq!(device.uploads, 0);
}

#[test]
fn run_sequence_cancelled_mid_step_stops_and_erases_then_ends() {
    let mut device = MockDevice::supporting(&[FF_CONSTANT, FF_RAMP, FF_PERIODIC]);
    let cancel = AtomicBool::new(false);
    let mut seen = Vec::new();
    let outcome = run_hosted(
        &mut device,
        QUICK_STEPS,
        RUNNER_TEST_MODEL,
        &cancel,
        Countdown::none(),
        |ev| {
            if let SequenceEvent::Step { row, step, .. } = ev {
                seen.push(step.label);
                if row == 1 {
                    cancel.store(true, Ordering::Relaxed);
                }
            }
        },
        wait_for(&cancel),
    );
    assert_eq!(outcome.end, SequenceEnd::Cancelled);
    assert_eq!(outcome.ran, 2, "the interrupted step counts as ran: it was stopped and erased cleanly");
    assert_eq!(seen, vec!["one", "two"], "the third step's Step event never fires");
    assert_eq!(device.uploads, 2);
    assert_eq!(device.erases, 2, "no leaked slot on a mid-step cancel");
}

#[test]
fn run_sequence_cancelled_between_steps_ends_before_the_next_one_starts() {
    let cancel = Arc::new(AtomicBool::new(false));
    let mut device = MockDevice::supporting(&[FF_CONSTANT, FF_RAMP, FF_PERIODIC]);
    device.cancel_after_erases = Some((1, cancel.clone()));
    let mut seen = Vec::new();
    let outcome = run_hosted(
        &mut device,
        QUICK_STEPS,
        RUNNER_TEST_MODEL,
        &cancel,
        Countdown::none(),
        |ev| {
            if let SequenceEvent::Step { step, .. } = ev {
                seen.push(step.label);
            }
        },
        wait_for(&cancel),
    );
    assert_eq!(outcome.end, SequenceEnd::Cancelled);
    assert_eq!(outcome.ran, 1);
    assert_eq!(seen, vec!["one"], "the second step never starts");
    assert_eq!(device.uploads, 1);
    assert_eq!(device.erases, 1);
}

#[test]
fn run_sequence_ends_quietly_on_device_gone_mid_upload() {
    let mut device = MockDevice::supporting(&[FF_CONSTANT, FF_RAMP, FF_PERIODIC]);
    device.gone_after_uploads = Some(2); // the second step's upload
    let cancel = AtomicBool::new(false);
    let outcome =
        run_hosted(&mut device, QUICK_STEPS, RUNNER_TEST_MODEL, &cancel, Countdown::none(), |_| {}, wait_for(&cancel));
    assert_eq!(outcome.end, SequenceEnd::DeviceGone);
    assert_eq!(outcome.ran, 1, "only the first step ever completed");
    assert_eq!(device.uploads, 2, "the failed upload still counts as attempted");
    assert_eq!(device.erases, 1, "nothing to erase for the upload that never succeeded");
    assert!(!outcome.summary().contains("error"), "ENODEV must not read as a generic error");
}

#[test]
fn run_sequence_surfaces_a_non_enodev_failure() {
    struct FailGain;
    impl FfDevice for FailGain {
        fn set_gain(&mut self, _v: i32) -> Result<(), DeviceError> {
            Err(DeviceError::Other("permission denied".to_string()))
        }
        fn upload(&mut self, _e: &FfEffect) -> Result<i16, DeviceError> {
            unreachable!()
        }
        fn play(&mut self, _id: i16, _v: i32) -> Result<(), DeviceError> {
            unreachable!()
        }
        fn erase(&mut self, _id: i16) {
            unreachable!()
        }
        fn ff_bits(&mut self) -> [u8; FF_BITS_LEN] {
            let mut b = [0u8; FF_BITS_LEN];
            b[FF_CONSTANT as usize / 8] |= 1 << (FF_CONSTANT as usize % 8);
            b
        }
    }
    let mut device = FailGain;
    let cancel = AtomicBool::new(false);
    let outcome = run_hosted(
        &mut device,
        &QUICK_STEPS[..1],
        RUNNER_TEST_MODEL,
        &cancel,
        Countdown::none(),
        |_| {},
        wait_for(&cancel),
    );
    assert_eq!(outcome.end, SequenceEnd::Failed("permission denied".to_string()));
    assert_eq!(outcome.ran, 0);
    assert!(outcome.summary().contains("permission denied"));
}

#[test]
fn step_status_text_names_the_step_and_its_position() {
    let text = step_status_text(1, 10, &force_sequence()[1]);
    assert_eq!(text, "step 2/10: Constant force, right pulse");
}

#[test]
fn run_sequence_counts_down_before_every_step_including_the_first() {
    let mut device = MockDevice::supporting(&[FF_CONSTANT, FF_RAMP, FF_PERIODIC]);
    let cancel = AtomicBool::new(false);
    let countdown = Countdown { ticks: 3, tick: Duration::ZERO };
    let mut events: Vec<String> = Vec::new();
    let outcome = run_hosted(
        &mut device,
        &QUICK_STEPS[..1],
        RUNNER_TEST_MODEL,
        &cancel,
        countdown,
        |ev| match ev {
            SequenceEvent::Countdown { row, seconds_left, .. } => {
                events.push(format!("countdown row={row} secs={seconds_left}"))
            }
            SequenceEvent::Step { row, .. } => events.push(format!("step row={row}")),
            SequenceEvent::Done { row, .. } => events.push(format!("done row={row}")),
            SequenceEvent::Skipped(_) => {}
        },
        wait_for(&cancel),
    );
    assert_eq!(outcome.end, SequenceEnd::Completed);
    assert_eq!(
        events,
        vec!["countdown row=0 secs=3", "countdown row=0 secs=2", "countdown row=0 secs=1", "step row=0", "done row=0",],
        "the very first step gets the same lead-in as every other one"
    );
}

#[test]
fn run_sequence_cancelled_mid_countdown_never_plays_that_step() {
    let mut device = MockDevice::supporting(&[FF_CONSTANT, FF_RAMP, FF_PERIODIC]);
    let cancel = AtomicBool::new(false);
    let countdown = Countdown { ticks: 3, tick: Duration::from_millis(20) };
    let mut seen: Vec<u64> = Vec::new();
    let outcome = run_hosted(
        &mut device,
        QUICK_STEPS,
        RUNNER_TEST_MODEL,
        &cancel,
        countdown,
        |ev| {
            if let SequenceEvent::Countdown { seconds_left, .. } = ev {
                seen.push(seconds_left);
                if seconds_left == 2 {
                    cancel.store(true, Ordering::Relaxed);
                }
            }
        },
        wait_for(&cancel),
    );
    assert_eq!(outcome.end, SequenceEnd::Cancelled);
    assert_eq!(outcome.ran, 0, "the step never played: it was still counting down");
    assert_eq!(seen, vec![3, 2], "the tick after the cancel never fires");
    assert_eq!(device.uploads, 0, "cancelling mid-countdown must never upload the effect");
}

// -----------------------------------------------------------------
// SequenceProgress.
// -----------------------------------------------------------------

#[test]
fn sequence_progress_starts_pending_and_matches_the_step_table() {
    let seq = force_sequence();
    let progress = SequenceProgress::new(&seq);
    assert_eq!(progress.states.len(), seq.len(), "one row per step, no more, no less");
    assert!(progress.states.iter().all(|s| *s == StepState::Pending));
    assert_eq!(progress.current, None);
}

#[test]
fn sequence_progress_follows_one_step_through_countdown_play_and_done() {
    let mut progress = SequenceProgress::new(QUICK_STEPS);
    progress.apply(&SequenceEvent::Countdown { row: 0, total: 3, step: &QUICK_STEPS[0], seconds_left: 3 });
    assert_eq!(progress.states[0], StepState::Countdown(3));
    assert_eq!(progress.current, Some(0));
    assert_eq!(progress.states[1], StepState::Pending, "other rows are untouched");

    progress.apply(&SequenceEvent::Countdown { row: 0, total: 3, step: &QUICK_STEPS[0], seconds_left: 1 });
    assert_eq!(progress.states[0], StepState::Countdown(1));

    progress.apply(&SequenceEvent::Step { row: 0, total: 3, step: &QUICK_STEPS[0] });
    assert_eq!(progress.states[0], StepState::Playing);
    assert_eq!(progress.current, Some(0));

    progress.apply(&SequenceEvent::Done { row: 0, total: 3 });
    assert_eq!(progress.states[0], StepState::Done);
    assert_eq!(progress.current, None, "nothing active once the step is done");
    assert_eq!(progress.states[0], StepState::Done);
}

#[test]
fn sequence_progress_marks_skipped_rows_without_touching_others() {
    let mut progress = SequenceProgress::new(QUICK_STEPS);
    progress.apply(&SequenceEvent::Skipped(&[(1, "two"), (2, "three")]));
    assert_eq!(progress.states, vec![StepState::Pending, StepState::Skipped, StepState::Skipped]);
}

#[test]
fn sequence_progress_reflects_a_full_run_including_a_skip() {
    let mut device = MockDevice::supporting(&[FF_CONSTANT, FF_PERIODIC]);
    let cancel = AtomicBool::new(false);
    let mut progress = SequenceProgress::new(QUICK_STEPS);
    let outcome = run_hosted(
        &mut device,
        QUICK_STEPS,
        RUNNER_TEST_MODEL,
        &cancel,
        Countdown::none(),
        |ev| {
            progress.apply(&ev);
        },
        wait_for(&cancel),
    );
    assert_eq!(outcome.end, SequenceEnd::Completed);
    assert_eq!(progress.states, vec![StepState::Done, StepState::Skipped, StepState::Done]);
    assert_eq!(progress.current, None);
}

#[test]
fn sequence_progress_keeps_a_cancelled_run_s_last_states_visible() {
    let mut device = MockDevice::supporting(&[FF_CONSTANT, FF_RAMP, FF_PERIODIC]);
    let cancel = AtomicBool::new(false);
    let mut progress = SequenceProgress::new(QUICK_STEPS);
    let outcome = run_hosted(
        &mut device,
        QUICK_STEPS,
        RUNNER_TEST_MODEL,
        &cancel,
        Countdown::none(),
        |ev| {
            progress.apply(&ev);
            if let SequenceEvent::Step { row, .. } = ev {
                if row == 1 {
                    cancel.store(true, Ordering::Relaxed);
                }
            }
        },
        wait_for(&cancel),
    );
    assert_eq!(outcome.end, SequenceEnd::Cancelled);
    assert_eq!(progress.states, vec![StepState::Done, StepState::Done, StepState::Pending]);
}

#[test]
fn step_state_status_text_never_relies_on_color_alone() {
    assert_eq!(StepState::Pending.status_text(), "pending");
    assert_eq!(StepState::Countdown(3).status_text(), "3...");
    assert_eq!(StepState::Playing.status_text(), "playing");
    assert_eq!(StepState::Done.status_text(), "done");
    assert_eq!(StepState::Skipped.status_text(), "skipped");
}

// -----------------------------------------------------------------
// Beyond the original's cases.
// -----------------------------------------------------------------

#[test]
fn an_ff_event_is_a_zero_timestamp_then_type_code_value() {
    let ev = encode_ff_event(7, -2);
    assert_eq!(ev.len(), 24);
    assert!(ev[..16].iter().all(|b| *b == 0));
    assert_eq!(u16::from_le_bytes([ev[16], ev[17]]), EV_FF);
    assert_eq!(u16::from_le_bytes([ev[18], ev[19]]), 7);
    assert_eq!(i32::from_le_bytes([ev[20], ev[21], ev[22], ev[23]]), -2);
}

#[test]
fn the_front_ends_count_down_three_seconds() {
    let c = step_countdown();
    assert_eq!(c.ticks, 3);
    assert_eq!(c.tick, Duration::from_secs(1));
    assert_eq!(Countdown::none().ticks, 0);
    assert_eq!(Countdown::none().tick, Duration::ZERO);
}

#[test]
fn sim_kind_labels_name_the_sequence() {
    assert_eq!(SimKind::Force.label(), "force feedback");
    assert_eq!(SimKind::Texture.label(), "TrueForce texture");
}

#[test]
fn a_failed_play_ends_the_run_after_stopping_and_erasing() {
    struct FailPlay {
        erased: Rc<Cell<usize>>,
    }
    impl FfDevice for FailPlay {
        fn set_gain(&mut self, _v: i32) -> Result<(), DeviceError> {
            Ok(())
        }
        fn upload(&mut self, _e: &FfEffect) -> Result<i16, DeviceError> {
            Ok(4)
        }
        fn play(&mut self, _id: i16, v: i32) -> Result<(), DeviceError> {
            if v == 1 {
                Err(DeviceError::Other("busy".to_string()))
            } else {
                Ok(())
            }
        }
        fn erase(&mut self, id: i16) {
            assert_eq!(id, 4);
            self.erased.set(self.erased.get() + 1);
        }
        fn ff_bits(&mut self) -> [u8; FF_BITS_LEN] {
            [0xff; FF_BITS_LEN]
        }
    }
    let erased = Rc::new(Cell::new(0));
    let mut device = FailPlay { erased: erased.clone() };
    let cancel = AtomicBool::new(false);
    let outcome =
        run_hosted(&mut device, QUICK_STEPS, RUNNER_TEST_MODEL, &cancel, Countdown::none(), |_| {}, wait_for(&cancel));
    assert_eq!(outcome.end, SequenceEnd::Failed("busy".to_string()));
    assert_eq!(outcome.ran, 0);
    assert_eq!(erased.get(), 1, "the uploaded slot is still erased");
    assert_eq!(outcome.summary(), "error: busy");
}

#[test]
fn summaries_name_how_the_run_ended() {
    let done = SequenceOutcome { end: SequenceEnd::Completed, ran: 3, skipped: vec![] };
    assert_eq!(done.summary(), "finished");
    let gone = SequenceOutcome { end: SequenceEnd::DeviceGone, ran: 1, skipped: vec!["two"] };
    assert_eq!(gone.summary(), "wheel disconnected, stopped (not supported by this wheel, skipped: two)");
    let stopped = SequenceOutcome { end: SequenceEnd::Cancelled, ran: 0, skipped: vec!["a", "b"] };
    assert_eq!(stopped.summary(), "stopped (not supported by this wheel, skipped: a, b)");
}

/// A device that writes every call into a log it shares with the host.
struct LoggingDevice {
    log: Rc<std::cell::RefCell<Vec<String>>>,
    next_id: i16,
}

impl FfDevice for LoggingDevice {
    fn set_gain(&mut self, value: i32) -> Result<(), DeviceError> {
        self.log.borrow_mut().push(format!("gain {value}"));
        Ok(())
    }

    fn upload(&mut self, _effect: &FfEffect) -> Result<i16, DeviceError> {
        let id = self.next_id;
        self.next_id += 1;
        self.log.borrow_mut().push(format!("upload -> {id}"));
        Ok(id)
    }

    fn play(&mut self, id: i16, value: i32) -> Result<(), DeviceError> {
        self.log.borrow_mut().push(format!("play {id} {value}"));
        Ok(())
    }

    fn erase(&mut self, id: i16) {
        self.log.borrow_mut().push(format!("erase {id}"));
    }

    fn ff_bits(&mut self) -> [u8; FF_BITS_LEN] {
        self.log.borrow_mut().push("bits".to_string());
        let mut bits = [0u8; FF_BITS_LEN];
        for t in [FF_CONSTANT, FF_PERIODIC] {
            bits[usize::from(t) / 8] |= 1 << (usize::from(t) % 8);
        }
        bits
    }
}

#[test]
fn run_sequence_interleaves_events_waits_and_device_calls_in_one_order() {
    let log = Rc::new(std::cell::RefCell::new(Vec::new()));
    let mut device = LoggingDevice { log: log.clone(), next_id: 0 };
    let cancel = AtomicBool::new(false);
    let events = log.clone();
    let waits = log.clone();
    let outcome = run_hosted(
        &mut device,
        QUICK_STEPS,
        RUNNER_TEST_MODEL,
        &cancel,
        Countdown { ticks: 2, tick: Duration::from_millis(5) },
        move |ev| {
            let line = match ev {
                SequenceEvent::Skipped(rows) => format!("skipped {rows:?}"),
                SequenceEvent::Countdown { row, total, seconds_left, .. } => {
                    format!("countdown {row}/{total} {seconds_left}")
                }
                SequenceEvent::Step { row, total, step } => format!("step {row}/{total} {}", step.label),
                SequenceEvent::Done { row, total } => format!("done {row}/{total}"),
            };
            events.borrow_mut().push(line);
        },
        move |d: Duration| {
            waits.borrow_mut().push(format!("wait {}ms", d.as_millis()));
            WaitOutcome::Completed
        },
    );
    assert_eq!(outcome.end, SequenceEnd::Completed);
    assert_eq!(outcome.ran, 2);
    assert_eq!(outcome.skipped, vec!["two"]);
    let expected = vec![
        "bits",
        "skipped [(1, \"two\")]",
        "gain 65535",
        "countdown 0/3 2",
        "wait 5ms",
        "countdown 0/3 1",
        "wait 5ms",
        "step 0/3 one",
        "upload -> 0",
        "play 0 1",
        "wait 0ms",
        "play 0 0",
        "erase 0",
        "done 0/3",
        "countdown 2/3 2",
        "wait 5ms",
        "countdown 2/3 1",
        "wait 5ms",
        "step 2/3 three",
        "upload -> 1",
        "play 1 1",
        "wait 0ms",
        "play 1 0",
        "erase 1",
        "done 2/3",
    ];
    assert_eq!(*log.borrow(), expected);
}

#[test]
fn run_sequence_stops_at_once_when_a_countdown_wait_answers_cancelled() {
    let log = Rc::new(std::cell::RefCell::new(Vec::new()));
    let mut device = LoggingDevice { log: log.clone(), next_id: 0 };
    let cancel = AtomicBool::new(false);
    let waits = log.clone();
    let outcome = run_hosted(
        &mut device,
        QUICK_STEPS,
        RUNNER_TEST_MODEL,
        &cancel,
        Countdown { ticks: 3, tick: Duration::from_millis(5) },
        |_| {},
        move |d: Duration| {
            waits.borrow_mut().push(format!("wait {}ms", d.as_millis()));
            WaitOutcome::Cancelled
        },
    );
    assert_eq!(outcome.end, SequenceEnd::Cancelled);
    assert_eq!(outcome.ran, 0);
    assert_eq!(*log.borrow(), vec!["bits", "gain 65535", "wait 5ms"]);
}
