use mousedb::codes::{
    BTN_LEFT, BTN_RIGHT, BTN_TASK, EV_KEY, EV_REL, EV_SYN, INPUT_PROP_POINTER, REL_HWHEEL_HI_RES,
    REL_WHEEL, REL_X, REL_Y, UI_SET_EVBIT, UI_SET_KEYBIT, UI_SET_PROPBIT, UI_SET_RELBIT,
};
use mousedb::device::{
    setup_goes_on, virtual_mouse_setup, InputId, SetupStep, UInputUserDev, DEVICE_SIZE,
};
use mousedb::event::{push_le, read_le, InputEvent, TimeVal, EVENT_SIZE};
use mousedb::filter::{Cmd, Config, Filter, Note};
use mousedb::session::{
    next_step, poll_outcome, poll_timeout_ms, Event, ReadOutcome, Step, WaitOutcome,
};
use mousedb::text::{
    chars_of, parse_number, push_decimal, push_signed_decimal, same_text, split_once, starts_with,
};
use mousedb::time::{Duration, Instant};
use mousedb::wire::{append_confirmation, flush_held, process_bytes, write_events, Diagnostic};

fn left(value: i32) -> InputEvent {
    InputEvent::new(EV_KEY, BTN_LEFT, value)
}

fn ms(ms: u64) -> Instant {
    Instant::from_nanos(ms * 1_000_000)
}

fn standard() -> Filter {
    Filter::new(Config::default())
}

/// Raw records through a batch: what went out, the result, and the log.
fn batch(
    f: &mut Filter,
    data: &[u8],
    now: Instant,
) -> (Vec<u8>, Result<usize, String>, Vec<String>) {
    let mut written = Vec::new();
    let mut out = vec![9; 5];
    let mut log = Vec::new();
    let result = process_bytes(
        |bytes: &[u8]| {
            written.extend_from_slice(bytes);
            Ok(())
        },
        f,
        &mut out,
        data,
        now,
        true,
        &mut log,
    );
    assert_eq!(out, written);
    (written, result, log.iter().map(Diagnostic::describe).collect())
}

fn records(events: &[InputEvent]) -> Vec<u8> {
    events.iter().flat_map(|ev| ev.as_bytes()).collect()
}

// Events and their records.

#[test]
fn record_layout_is_exact() {
    let ev = InputEvent {
        time: TimeVal { tv_sec: 0x0102_0304_0506_0708, tv_usec: -2 },
        type_: 0x1122,
        code: 0x3344,
        value: -3,
    };
    assert_eq!(
        ev.as_bytes(),
        vec![
            8, 7, 6, 5, 4, 3, 2, 1, 0xfe, 0xff, 0xff, 0xff, 0xff, 0xff, 0xff, 0xff, 0x22, 0x11,
            0x44, 0x33, 0xfd, 0xff, 0xff, 0xff
        ]
    );
    assert_eq!(InputEvent::syn().as_bytes(), vec![0; EVENT_SIZE]);
}

#[test]
fn event_survives_its_record() {
    for (sec, value) in [(0, 0), (-1, -1), (i64::MIN, i32::MIN), (i64::MAX, i32::MAX)] {
        let ev = InputEvent {
            time: TimeVal { tv_sec: sec, tv_usec: 999_999 },
            type_: u16::MAX,
            code: 1,
            value,
        };
        let back = InputEvent::from_bytes(&ev.as_bytes());
        assert_eq!(back, ev);
        assert_eq!(back.time, ev.time);
    }
}

#[test]
fn record_survives_its_event() {
    let record: Vec<u8> = (0..24).map(|i| (i * 37 + 200) as u8).collect();
    assert_eq!(InputEvent::from_bytes(&record).as_bytes(), record);
}

#[test]
fn equality_ignores_the_timestamp() {
    let stamped = InputEvent { time: TimeVal { tv_sec: 5, tv_usec: 6 }, ..left(1) };
    assert_eq!(stamped, left(1));
    assert_ne!(left(1), left(0));
    assert_ne!(InputEvent::new(EV_KEY, 7, 1), InputEvent::new(EV_KEY, 8, 1));
    assert_ne!(InputEvent::new(EV_REL, 7, 1), InputEvent::new(EV_KEY, 7, 1));
}

#[test]
fn numbers_in_bytes() {
    let mut out = vec![1];
    push_le(&mut out, 0xABCD_EF01, 3);
    assert_eq!(out, vec![1, 0x01, 0xEF, 0xCD]);
    assert_eq!(read_le(&out, 1, 4), 0xCD_EF01);
    assert_eq!(read_le(&out, 2, 2), 0);
}

#[test]
fn events_read_well_in_a_log() {
    assert_eq!(left(1).describe(), "ev(type=1, code=272, value=1)");
    assert_eq!(
        InputEvent::new(EV_REL, 65535, i32::MIN).describe(),
        "ev(type=2, code=65535, value=-2147483648)"
    );
    assert_eq!(
        Diagnostic::Swallowed(left(0), Note::HeldRelease).describe(),
        "swallowed ev(type=1, code=272, value=0): HeldRelease"
    );
    assert_eq!(Diagnostic::ReleaseConfirmed.describe(), "left release confirmed (button up)");
    let names: Vec<&str> = [
        Note::PhantomPress,
        Note::PhantomRelease,
        Note::BounceRepress,
        Note::StrayRelease,
        Note::HeldRelease,
    ]
    .iter()
    .map(|note| note.name())
    .collect();
    assert_eq!(
        names,
        vec!["PhantomPress", "PhantomRelease", "BounceRepress", "StrayRelease", "HeldRelease"]
    );
}

// Time.

#[test]
fn spans_of_time() {
    assert_eq!(Duration::from_millis(80).nanos, 80_000_000);
    assert_eq!(Duration { nanos: 1_999_999 }.as_millis(), 1);
    assert!(Duration::zero().is_zero());
    assert!(!Duration { nanos: 1 }.is_zero());
    assert_eq!(ms(50).duration_since(ms(20)), Duration::from_millis(30));
    assert_eq!(ms(20).duration_since(ms(50)), Duration::zero());
    let deadline = ms(100).deadline_after(Duration::from_millis(30));
    assert!(!deadline.is_reached(Instant::from_nanos(129_999_999)));
    assert!(deadline.is_reached(ms(130)));
    assert_eq!(deadline.saturating_duration_since(ms(100)), Duration::from_millis(30));
    assert_eq!(deadline.saturating_duration_since(ms(131)), Duration::zero());
}

#[test]
fn longest_window_does_not_overflow() {
    let mut f = Filter::new(Config {
        release_window: Duration::from_millis(u64::MAX),
        hold_threshold: Duration::zero(),
        ..Config::default()
    });
    let end = Instant::from_nanos(u64::MAX);
    f.on_event(&left(1), end);
    assert_eq!(f.on_event(&left(0), end), (Cmd::Swallow, Some(Note::HeldRelease)));
    assert_eq!(f.time_to_confirm(end), Some(Duration::from_millis(u64::MAX)));
    assert_eq!(f.confirm(end), None);
    assert_eq!(next_step(&f, Event::Idle, end), Step::Wait(i32::MAX));
}

// The filter.

#[test]
fn tuning_starts_from_the_defaults() {
    let cfg = Config::default();
    assert_eq!(cfg.press_window, Duration::from_millis(80));
    assert_eq!(cfg.release_window, Duration::from_millis(30));
    assert_eq!(cfg.hold_threshold, Duration::from_millis(150));
    assert!(!cfg.verbose);
    let f = Filter::new(cfg);
    assert_eq!(f.cfg, cfg);
    assert!(!f.left_down && !f.drop_next_release && !f.moved_while_down);
    assert!(f.last_press.is_none() && f.held_release.is_none());
    assert_eq!(f.time_to_confirm(ms(1)), None);
}

#[test]
fn press_window_is_exclusive() {
    let mut f = standard();
    assert_eq!(f.on_event(&left(1), ms(1000)), (Cmd::Pass, None));
    assert_eq!(f.on_event(&left(0), ms(1010)), (Cmd::Pass, None));
    assert_eq!(
        f.on_event(&left(1), Instant::from_nanos(1_079_999_999)),
        (Cmd::Swallow, Some(Note::PhantomPress))
    );
    assert_eq!(f.on_event(&left(0), ms(1080)), (Cmd::Swallow, Some(Note::PhantomRelease)));
    // The phantom did not restart the window.
    assert_eq!(f.on_event(&left(1), ms(1080)), (Cmd::Pass, None));
}

#[test]
fn hold_threshold_is_inclusive() {
    let mut f = standard();
    f.on_event(&left(1), ms(1000));
    assert_eq!(f.on_event(&left(0), Instant::from_nanos(1_149_999_999)), (Cmd::Pass, None));
    f.on_event(&left(1), ms(2000));
    assert_eq!(f.on_event(&left(0), ms(2150)), (Cmd::Swallow, Some(Note::HeldRelease)));
}

#[test]
fn deadline_is_inclusive_and_release_leaves_once() {
    let mut f = standard();
    f.on_event(&left(1), ms(1000));
    f.on_event(&left(0), ms(1200));
    assert_eq!(f.time_to_confirm(ms(1210)), Some(Duration::from_millis(20)));
    assert_eq!(f.confirm(Instant::from_nanos(1_229_999_999)), None);
    assert_eq!(f.time_to_confirm(ms(1230)), Some(Duration::zero()));
    assert!(f.left_down, "down until the release is let go");
    assert_eq!(f.confirm(ms(1230)), Some(left(0)));
    assert!(!f.left_down);
    assert_eq!(f.confirm(ms(1230)), None);
    assert_eq!(f.time_to_confirm(ms(1230)), None);
}

#[test]
fn bounce_leaves_no_trace() {
    let mut f = standard();
    f.on_event(&left(1), ms(1000));
    f.on_event(&InputEvent::new(EV_REL, REL_Y, 3), ms(1001));
    assert!(f.moved_while_down);
    assert_eq!(f.on_event(&left(0), ms(1010)), (Cmd::Swallow, Some(Note::HeldRelease)));
    assert!(f.left_down, "the compositor has not seen the release");
    assert_eq!(f.on_event(&left(1), ms(1015)), (Cmd::Swallow, Some(Note::BounceRepress)));
    assert!(f.left_down && f.moved_while_down && f.held_release.is_none());
    assert_eq!(f.press_at, ms(1000));
    assert_eq!(f.last_press, Some(ms(1000)));
}

#[test]
fn stray_edges_are_swallowed() {
    let mut f = standard();
    assert_eq!(f.on_event(&left(0), ms(1)), (Cmd::Swallow, Some(Note::StrayRelease)));
    assert_eq!(f.on_event(&left(2), ms(1)), (Cmd::Swallow, Some(Note::StrayRelease)));
    f.on_event(&left(1), ms(1000));
    assert_eq!(f.on_event(&left(2), ms(1001)), (Cmd::Pass, None));
    // A second release while the first is held back.
    f.on_event(&left(0), ms(1200));
    assert_eq!(f.on_event(&left(0), ms(1201)), (Cmd::Swallow, Some(Note::StrayRelease)));
    assert!(f.held_release.is_some());
    // For the compositor the button is still down, so it may repeat.
    assert_eq!(f.on_event(&left(2), ms(1201)), (Cmd::Pass, None));
    // Values that mean nothing pass.
    assert_eq!(f.on_event(&left(3), ms(1202)), (Cmd::Pass, None));
    assert_eq!(f.on_left_button(&left(-1), ms(1202)), (Cmd::Pass, None));
}

#[test]
fn wheel_is_not_motion() {
    let mut f = standard();
    f.on_event(&left(1), ms(1000));
    assert_eq!(f.on_event(&InputEvent::new(EV_REL, REL_WHEEL, 1), ms(1001)), (Cmd::Pass, None));
    assert!(!f.moved_while_down);
    assert_eq!(f.on_event(&left(0), ms(1002)), (Cmd::Pass, None));
    // Motion while the button is up is no drag either.
    f.on_event(&InputEvent::new(EV_REL, REL_X, 1), ms(1003));
    assert!(!f.moved_while_down);
}

#[test]
fn windows_of_zero_switch_things_off() {
    let mut f = Filter::new(Config {
        press_window: Duration::zero(),
        release_window: Duration::zero(),
        ..Config::default()
    });
    for t in [1000, 1001, 1002] {
        assert_eq!(f.on_event(&left(1), ms(t)), (Cmd::Pass, None));
        assert_eq!(f.on_event(&InputEvent::new(EV_REL, REL_X, 1), ms(t)), (Cmd::Pass, None));
        assert_eq!(f.on_event(&left(0), ms(t)), (Cmd::Pass, None));
    }
    let mut f = Filter::new(Config { hold_threshold: Duration::zero(), ..Config::default() });
    f.on_event(&left(1), ms(1000));
    assert_eq!(f.on_event(&left(0), ms(1000)), (Cmd::Swallow, Some(Note::HeldRelease)));
}

#[test]
fn clock_running_backwards_counts_as_no_time() {
    let mut f = standard();
    f.on_event(&left(1), ms(1000));
    assert_eq!(f.on_event(&left(0), ms(500)), (Cmd::Pass, None));
    assert_eq!(f.on_event(&left(1), ms(500)), (Cmd::Swallow, Some(Note::PhantomPress)));
}

// Batches.

#[test]
fn forwarded_records_are_verbatim_and_logged() {
    let mut f = standard();
    let stamp = TimeVal { tv_sec: 77, tv_usec: 88 };
    let stamped = InputEvent { time: stamp, ..left(1) };
    let mut data = records(&[stamped, left(1), InputEvent::new(EV_KEY, BTN_RIGHT, 1)]);
    data.extend_from_slice(&[1, 2, 3]); // a partial record
    let (out, result, log) = batch(&mut f, &data, ms(1000));
    assert_eq!(out, records(&[stamped, InputEvent::new(EV_KEY, BTN_RIGHT, 1)]));
    assert_eq!(InputEvent::from_bytes(&out[..EVENT_SIZE]).time, stamp);
    assert_eq!(result, Ok(2));
    assert_eq!(log, vec!["swallowed ev(type=1, code=272, value=1): PhantomPress"]);
}

#[test]
fn partial_record_alone_is_nothing() {
    let mut f = standard();
    let (out, result, log) = batch(&mut f, &[0; 23], ms(1000));
    assert!(out.is_empty() && log.is_empty());
    assert_eq!(result, Ok(0));
}

#[test]
fn due_release_goes_out_behind_its_batch() {
    let mut f = standard();
    batch(&mut f, &records(&[left(1)]), ms(1000));
    batch(&mut f, &records(&[left(0)]), ms(1200));
    let motion = InputEvent::new(EV_REL, REL_X, 2);
    let (out, result, log) = batch(&mut f, &records(&[motion]), ms(1230));
    assert_eq!(out, records(&[motion, left(0), InputEvent::syn()]));
    assert_eq!(result, Ok(3));
    assert_eq!(log, vec!["left release confirmed (button up)"]);
}

#[test]
fn press_inside_the_window_is_a_bounce() {
    let mut f = standard();
    batch(&mut f, &records(&[left(1)]), ms(1000));
    batch(&mut f, &records(&[left(0)]), ms(1200));
    let (out, _, log) =
        batch(&mut f, &records(&[left(1)]), Instant::from_nanos(1_229_999_999));
    assert!(out.is_empty());
    assert_eq!(log, vec!["swallowed ev(type=1, code=272, value=1): BounceRepress"]);
    assert!(f.left_down);
}

#[test]
fn press_after_the_window_follows_the_due_release() {
    for t in [1230, 1300] {
        let mut f = standard();
        batch(&mut f, &records(&[left(1)]), ms(1000));
        batch(&mut f, &records(&[left(0)]), ms(1200));
        let motion = InputEvent::new(EV_REL, REL_X, 2);
        let (out, result, log) =
            batch(&mut f, &records(&[motion, left(1), InputEvent::syn()]), ms(t));
        assert_eq!(
            out,
            records(&[motion, left(0), InputEvent::syn(), left(1), InputEvent::syn()])
        );
        assert_eq!(result, Ok(5));
        assert_eq!(log, vec!["left release confirmed (button up)"]);
        assert!(f.left_down && f.held_release.is_none());
        assert_eq!(f.last_press, Some(ms(t)));
    }
}

#[test]
fn due_release_goes_out_before_a_phantom_press_too() {
    let mut f = Filter::new(Config {
        hold_threshold: Duration::zero(),
        ..Config::default()
    });
    batch(&mut f, &records(&[left(1)]), ms(1000));
    batch(&mut f, &records(&[left(0)]), ms(1010));
    let (out, _, log) = batch(&mut f, &records(&[left(1)]), ms(1050));
    assert_eq!(out, records(&[left(0), InputEvent::syn()]));
    assert_eq!(
        log,
        vec![
            "left release confirmed (button up)",
            "swallowed ev(type=1, code=272, value=1): PhantomPress"
        ]
    );
    assert!(!f.left_down);
    let (out, _, _) = batch(&mut f, &records(&[left(0)]), ms(1060));
    assert!(out.is_empty());
}

#[test]
fn late_press_is_judged_without_the_held_release() {
    let mut f = standard();
    f.on_event(&left(1), ms(1000));
    f.on_event(&left(0), ms(1200));
    assert_eq!(f.on_left_button(&left(1), ms(1230)), (Cmd::Pass, None));
    assert!(f.left_down && f.held_release.is_none());
}

#[test]
fn batches_may_be_split() {
    let events = [left(1), InputEvent::new(EV_REL, REL_X, 2), left(0), InputEvent::syn()];
    let mut whole = standard();
    let (expected, _, _) = batch(&mut whole, &records(&events), ms(1000));
    let mut split = standard();
    let mut got = Vec::new();
    for ev in events {
        got.extend(batch(&mut split, &records(&[ev]), ms(1000)).0);
    }
    assert_eq!(got, expected);
    assert_eq!(split.held_release, whole.held_release);
}

#[test]
fn quiet_log_stays_empty() {
    let mut f = standard();
    let mut log = Vec::new();
    let mut out = Vec::new();
    let result: Result<usize, ()> = process_bytes(
        |_: &[u8]| Ok(()),
        &mut f,
        &mut out,
        &records(&[left(0)]),
        ms(1),
        false,
        &mut log,
    );
    assert_eq!(result, Ok(0));
    assert!(log.is_empty());
}

#[test]
fn write_errors_are_handed_on() {
    let mut f = standard();
    let mut out = Vec::new();
    let mut log = Vec::new();
    let result: Result<usize, &str> = process_bytes(
        |_: &[u8]| Err("full"),
        &mut f,
        &mut out,
        &records(&[left(1)]),
        ms(1000),
        true,
        &mut log,
    );
    assert_eq!(result, Err("full"));
    assert!(f.left_down, "the filter has moved on all the same");
    f.on_event(&left(0), ms(1200));
    let result: Result<usize, &str> =
        flush_held(|_: &[u8]| Err("gone"), &mut f, &mut out, ms(1300), true, &mut log);
    assert_eq!(result, Err("gone"));
}

#[test]
fn nothing_to_write_is_not_written() {
    let result: Result<usize, ()> = write_events(|_: &[u8]| panic!("written"), &[]);
    assert_eq!(result, Ok(0));
    let mut seen = 0;
    let result: Result<usize, ()> = write_events(
        |bytes: &[u8]| {
            seen = bytes.len();
            Ok(())
        },
        &[7; 50],
    );
    assert_eq!(result, Ok(2));
    assert_eq!(seen, 50);
}

#[test]
fn confirmation_is_appended() {
    let mut f = standard();
    f.on_event(&left(1), ms(1000));
    f.on_event(&left(0), ms(1200));
    let mut out = vec![1, 2];
    let mut log = Vec::new();
    assert!(!append_confirmation(&mut f, ms(1229), &mut out, true, &mut log));
    assert_eq!(out, vec![1, 2]);
    assert!(append_confirmation(&mut f, ms(1230), &mut out, true, &mut log));
    assert_eq!(&out[2..], &records(&[left(0), InputEvent::syn()])[..]);
    assert_eq!(log.len(), 1);
    assert!(!append_confirmation(&mut f, ms(1240), &mut out, true, &mut log));
}

/// Left edges that take turns going in take turns coming out, and no release
/// comes out of nowhere.
#[test]
fn clicks_stay_whole() {
    let mut f = standard();
    let mut t: u64 = 1000;
    let mut seen_down = false;
    let mut physically_down = false;
    let mut state: u32 = 12345;
    for _ in 0..3000 {
        state = state.wrapping_mul(1_103_515_245).wrapping_add(12345);
        t += ((state >> 16) % 60) as u64;
        let mut events = vec![InputEvent::new(EV_REL, REL_X, 1)];
        if (state >> 20) % 3 != 0 {
            physically_down = !physically_down;
            events.push(left(physically_down as i32));
        }
        let (out, _, _) = batch(&mut f, &records(&events), ms(t));
        for record in out.chunks_exact(EVENT_SIZE) {
            let ev = InputEvent::from_bytes(record);
            if ev == left(1) {
                assert!(!seen_down, "pressed twice");
                seen_down = true;
            } else if ev == left(0) {
                assert!(seen_down, "released twice");
                seen_down = false;
            }
        }
        assert_eq!(seen_down, f.left_down);
    }
}

// What the program does next.

#[test]
fn timeouts_for_poll() {
    assert_eq!(poll_timeout_ms(Duration::zero()), 0);
    assert_eq!(poll_timeout_ms(Duration { nanos: 999_999 }), 0);
    assert_eq!(poll_timeout_ms(Duration { nanos: 1_000_000 }), 1);
    assert_eq!(poll_timeout_ms(Duration { nanos: 29_999_999 }), 29);
    assert_eq!(poll_timeout_ms(Duration::from_millis(2_147_483_647)), i32::MAX);
    assert_eq!(poll_timeout_ms(Duration::from_millis(2_147_483_648)), i32::MAX);
}

#[test]
fn outcomes_of_poll() {
    assert_eq!(poll_outcome(1, false), WaitOutcome::Readable);
    assert_eq!(poll_outcome(0, true), WaitOutcome::TimedOut);
    assert_eq!(poll_outcome(-1, true), WaitOutcome::Interrupted);
    assert_eq!(poll_outcome(-1, false), WaitOutcome::Failed);
}

#[test]
fn steps_of_the_program() {
    let mut f = standard();
    assert_eq!(next_step(&f, Event::Idle, ms(0)), Step::Read);
    f.on_event(&left(1), ms(1000));
    f.on_event(&left(0), ms(1200));
    assert_eq!(next_step(&f, Event::Idle, ms(1205)), Step::Wait(25));
    assert_eq!(
        next_step(&f, Event::Idle, Instant::from_nanos(1_229_999_999)),
        Step::Wait(0)
    );
    assert_eq!(next_step(&f, Event::Idle, ms(1230)), Step::Flush);
    let now = ms(1205);
    assert_eq!(next_step(&f, Event::Waited(WaitOutcome::Readable), now), Step::Read);
    assert_eq!(next_step(&f, Event::Waited(WaitOutcome::TimedOut), now), Step::Flush);
    assert_eq!(next_step(&f, Event::Waited(WaitOutcome::Interrupted), now), Step::Again);
    assert_eq!(next_step(&f, Event::Waited(WaitOutcome::Failed), now), Step::Abort);
    assert_eq!(next_step(&f, Event::Got(ReadOutcome::Bytes(0)), now), Step::Finish);
    assert_eq!(
        next_step(&f, Event::Got(ReadOutcome::Bytes(48)), now),
        Step::Process { len: 48, partial: false }
    );
    assert_eq!(
        next_step(&f, Event::Got(ReadOutcome::Bytes(50)), now),
        Step::Process { len: 50, partial: true }
    );
    assert_eq!(next_step(&f, Event::Got(ReadOutcome::Interrupted), now), Step::Again);
    assert_eq!(next_step(&f, Event::Got(ReadOutcome::Failed), now), Step::Abort);
}

// The virtual mouse.

#[test]
fn device_record_is_exact() {
    let dev = UInputUserDev::virtual_mouse();
    assert_eq!(
        dev.id,
        InputId { bustype: 3, vendor: 0xfeed, product: 0xdeb0, version: 1 }
    );
    let bytes = dev.as_bytes();
    assert_eq!(bytes.len(), DEVICE_SIZE);
    assert_eq!(&bytes[..24], b"debounced virtual mouse\0");
    assert!(bytes[24..80].iter().all(|b| *b == 0));
    assert_eq!(&bytes[80..88], &[3, 0, 0xed, 0xfe, 0xb0, 0xde, 1, 0]);
    assert!(bytes[88..].iter().all(|b| *b == 0));
}

#[test]
fn device_record_holds_every_field() {
    let mut dev = UInputUserDev::virtual_mouse();
    dev.ff_effects_max = 0x0403_0201;
    dev.absmax[0] = -1;
    dev.absmin[63] = 5;
    dev.absfuzz[1] = 256;
    dev.absflat[63] = i32::MIN;
    let bytes = dev.as_bytes();
    assert_eq!(&bytes[88..92], &[1, 2, 3, 4]);
    assert_eq!(&bytes[92..96], &[0xff; 4]);
    assert_eq!(&bytes[600..604], &[5, 0, 0, 0]);
    assert_eq!(&bytes[608..612], &[0, 1, 0, 0]);
    assert_eq!(&bytes[1112..], &[0, 0, 0, 0x80]);
}

#[test]
fn setup_announces_then_creates() {
    let steps = virtual_mouse_setup();
    assert_eq!(steps.len(), 21);
    let must = |request, value: u16| SetupStep::Announce {
        request,
        value: value as i32,
        required: true,
    };
    assert_eq!(steps[0], must(UI_SET_EVBIT, EV_KEY));
    assert_eq!(steps[2], must(UI_SET_EVBIT, EV_SYN));
    assert_eq!(steps[3], must(UI_SET_KEYBIT, BTN_LEFT));
    assert_eq!(steps[10], must(UI_SET_KEYBIT, BTN_TASK));
    assert_eq!(steps[11], must(UI_SET_RELBIT, REL_X));
    assert_eq!(steps[16], must(UI_SET_RELBIT, REL_HWHEEL_HI_RES));
    assert_eq!(
        steps[17],
        SetupStep::Announce {
            request: UI_SET_PROPBIT,
            value: INPUT_PROP_POINTER,
            required: false
        }
    );
    assert_eq!(
        &steps[18..],
        &[SetupStep::Describe, SetupStep::Create, SetupStep::Settle { millis: 100 }]
    );
}

#[test]
fn setup_ends_at_the_first_refusal_that_matters() {
    for step in virtual_mouse_setup() {
        assert!(setup_goes_on(step, true));
        let hint = matches!(step, SetupStep::Announce { request: UI_SET_PROPBIT, .. });
        assert_eq!(setup_goes_on(step, false), hint);
    }
}

/// Accepted presses are never closer together than the press window, however
/// the button chatters.
#[test]
fn accepted_presses_are_spaced() {
    let mut f = standard();
    let mut last: Option<u64> = None;
    let mut t: u64 = 1000;
    let mut state: u32 = 99;
    let mut accepted = 0;
    for _ in 0..3000 {
        state = state.wrapping_mul(1_103_515_245).wrapping_add(12345);
        t += ((state >> 16) % 50) as u64;
        f.confirm(ms(t));
        let value = ((state >> 20) % 2) as i32;
        if f.on_event(&left(value), ms(t)).0 == Cmd::Pass && value == 1 {
            assert!(last.map_or(true, |earlier| t - earlier >= 80));
            last = Some(t);
            accepted += 1;
        }
    }
    assert!(accepted > 100);
}

/// Single calls, with looks at the held release in between at any time: what is
/// held is a release that came, due one window later, and no phantom is awaited
/// meanwhile; edges go out in turns.
#[test]
fn calls_keep_clicks_whole() {
    let mut f = standard();
    let mut t: u64 = 1000;
    let mut state: u32 = 7;
    let mut physically_down = false;
    let mut seen_down = false;
    let mut held_since = 0;
    for _ in 0..5000 {
        state = state.wrapping_mul(1_103_515_245).wrapping_add(12345);
        t += ((state >> 16) % 45) as u64;
        let toggles = (state >> 20) % 2 == 0;
        if (toggles && !physically_down) || (state >> 24) % 3 == 0 {
            if let Some(release) = f.confirm(ms(t)) {
                assert_eq!(release, left(0));
                assert!(seen_down, "released twice");
                assert!(t >= held_since + 30, "let go inside the window");
                seen_down = false;
            }
        }
        if toggles {
            physically_down = !physically_down;
            let (cmd, note) = f.on_event(&left(physically_down as i32), ms(t));
            if note == Some(Note::HeldRelease) {
                held_since = t;
            }
            if cmd == Cmd::Pass {
                assert_ne!(seen_down, physically_down, "an edge that changes nothing");
                seen_down = physically_down;
            }
        }
        assert_eq!(f.left_down, seen_down);
        if let Some((held, deadline)) = f.held_release {
            assert_eq!(held, left(0));
            assert_eq!(deadline.nanos, (held_since as u128 + 30) * 1_000_000);
            assert!(!f.drop_next_release);
        }
        assert_eq!(f.cfg, Config::default());
    }
}

// Text.

#[test]
fn text_is_compared_and_split_by_characters() {
    assert_eq!(chars_of("a\u{e9}="), vec!['a', '\u{e9}', '=']);
    assert!(same_text("--x", "--x"));
    assert!(!same_text("--x", "--y") && !same_text("--x", "--xy") && !same_text("", "-"));
    assert_eq!(split_once("k=v=w", '='), ("k", Some("v=w")));
    assert_eq!(split_once("\u{e9}=\u{1f5b1}", '='), ("\u{e9}", Some("\u{1f5b1}")));
    assert_eq!(split_once("=", '='), ("", Some("")));
    assert_eq!(split_once("key", '='), ("key", None));
    assert_eq!(split_once("", '='), ("", None));
    assert!(starts_with("-v", '-') && !starts_with("v-", '-') && !starts_with("", '-'));
}

#[test]
fn numbers_are_read_as_the_standard_library_reads_them() {
    for text in [
        "0", "7", "+7", "007", "18446744073709551615", "18446744073709551616", "", "+", "-1",
        "-0", "1 ", " 1", "1_0", "0x10", "1.5", "++1", "+-1", "99999999999999999999999999",
        "00000000000000000000000000000001", "\u{ff11}",
    ] {
        assert_eq!(parse_number(text), text.parse::<u64>().ok(), "{text:?}");
    }
}

#[test]
fn numbers_are_written_in_decimal() {
    for n in [0, 9, 10, 272, u64::MAX] {
        let mut text = String::from("n=");
        push_decimal(&mut text, n);
        assert_eq!(text, format!("n={n}"));
        assert_eq!(parse_number(&text[2..]), Some(n));
    }
    for v in [0, -1, i32::MIN, i32::MAX] {
        let mut text = String::new();
        push_signed_decimal(&mut text, v);
        assert_eq!(text, format!("{v}"));
    }
}
