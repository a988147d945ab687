use mousedb::codes::{BTN_LEFT, BTN_RIGHT, EV_KEY, EV_REL, EV_SYN, REL_X, SYN_REPORT};
use mousedb::event::{InputEvent, EVENT_SIZE};
use mousedb::filter::{Config, Filter};
use mousedb::time::{Duration, Instant};
use mousedb::wire::{flush_held, process_bytes};
use std::io::{self, Write};

fn press() -> InputEvent {
    InputEvent::new(EV_KEY, BTN_LEFT, 1)
}
fn release() -> InputEvent {
    InputEvent::new(EV_KEY, BTN_LEFT, 0)
}
fn move_x(dx: i32) -> InputEvent {
    InputEvent::new(EV_REL, REL_X, dx)
}
fn btn_right(v: i32) -> InputEvent {
    InputEvent::new(EV_KEY, BTN_RIGHT, v)
}
fn syn() -> InputEvent {
    InputEvent::new(EV_SYN, SYN_REPORT, 0)
}

fn decode(bytes: &[u8]) -> Vec<InputEvent> {
    bytes.chunks_exact(EVENT_SIZE).map(InputEvent::from_bytes).collect()
}

fn later(t: Instant, ms: u64) -> Instant {
    Instant::from_nanos(t.nanos + ms * 1_000_000)
}

fn some_time() -> Instant {
    Instant::from_nanos(3_141_592_653_589)
}

/// Raw records in from a fake mouse, raw records out to a fake virtual device,
/// by way of the functions that the program itself calls.
struct Sim {
    f: Filter,
    t: Instant,
    wire: Vec<u8>,
}

impl Sim {
    fn new(cfg: Config) -> Self {
        Sim {
            f: Filter::new(cfg),
            t: some_time(),
            wire: Vec::new(),
        }
    }

    /// Advance the fake clock.
    fn at(&mut self, ms: u64) {
        self.t = later(self.t, ms);
    }

    /// One read of the mouse: a batch of events, unfiltered bytes.
    fn feed(&mut self, evs: &[InputEvent]) {
        let mut raw = Vec::with_capacity(evs.len() * EVENT_SIZE);
        for e in evs {
            raw.extend_from_slice(&e.as_bytes());
        }
        let mut out = Vec::new();
        let wire = &mut self.wire;
        process_bytes(
            |bytes: &[u8]| wire.write_all(bytes),
            &mut self.f,
            &mut out,
            &raw,
            self.t,
            false,
            &mut Vec::new(),
        )
        .unwrap();
    }

    /// A frame as a real device sends it: payload, then EV_SYN.
    fn frame(&mut self, evs: &[InputEvent]) {
        let mut batch = evs.to_vec();
        batch.push(syn());
        self.feed(&batch);
    }

    /// Time passing with nothing arriving from the device.
    fn tick(&mut self, ms: u64) {
        self.at(ms);
        self.feed(&[]);
    }

    fn out(&self) -> Vec<InputEvent> {
        decode(&self.wire)
    }

    fn held(&self) -> bool {
        self.f.held_release.is_some()
    }

    fn count(&self, ev: InputEvent) -> usize {
        self.out().iter().filter(|e| **e == ev).count()
    }
}

fn cfg() -> Config {
    Config::default()
}

/// A plain click must not hold anything back at all.
#[test]
fn plain_click_forwards_everything_immediately() {
    let mut s = Sim::new(cfg());
    s.frame(&[press()]);
    s.at(40);
    s.frame(&[release()]);
    assert!(!s.held(), "a short, still press must not open a hold window");
    assert_eq!(
        s.out(),
        vec![press(), syn(), release(), syn()],
        "the click is forwarded verbatim, both edges, nothing delayed"
    );
}

/// Motion, wheel and the other buttons flow while a left release is being
/// debounced.
#[test]
fn motion_is_never_buffered_while_a_release_is_held() {
    let mut s = Sim::new(cfg());
    s.frame(&[press()]);
    for _ in 0..2 {
        s.at(5);
        s.frame(&[move_x(-4)]); // dragging
    }
    s.at(5);
    s.frame(&[release()]); // -> the release alone waits
    assert!(s.held(), "a release during a drag is debounced");
    assert_eq!(s.count(release()), 0, "release not on the wire yet");

    for dx in [-4, -4, -3] {
        s.at(1);
        s.frame(&[move_x(dx)]);
        let out = s.out();
        assert_eq!(
            out.last(),
            Some(&syn()),
            "each motion frame is still closed by EV_SYN while the release is pending"
        );
        assert!(out.iter().any(|e| *e == move_x(dx)), "motion {dx} forwarded at once");
    }
    assert_eq!(
        s.out().iter().filter(|e| e.type_ == EV_REL).count(),
        5,
        "2 motion frames before the release + 3 after it, all delivered live"
    );

    s.tick(40); // window expires
    let out = s.out();
    let rel = out.iter().position(|e| *e == release()).expect("release flushed");
    assert_eq!(out[rel + 1], syn(), "a flushed key event must close its frame");
    // The motion that arrived during the window went out at the time it arrived,
    // so the flushed release must land after it, never cutting in front.
    let last_motion = out
        .iter()
        .rposition(|e| e.type_ == EV_REL)
        .expect("motion on the wire");
    assert!(
        rel > last_motion,
        "release flushed at {rel} but the last motion was at {last_motion}: \
         motion must never be replayed behind the release"
    );
    assert_eq!(
        out[last_motion + 1],
        syn(),
        "the motion right before the flush kept its own frame"
    );
}

/// A flushed release brings a frame end of its own, which evdev would otherwise
/// wait for.
#[test]
fn flush_on_a_still_mouse_still_closes_the_frame() {
    let mut f = Filter::new(Config {
        hold_threshold: Duration::zero(), // always hold, worst case for framing
        ..cfg()
    });
    let t0 = some_time();
    f.on_event(&press(), t0);
    f.on_event(&release(), later(t0, 200));
    let mut wire: Vec<u8> = Vec::new();
    let mut out = Vec::new();
    flush_held(
        |bytes: &[u8]| wire.write_all(bytes),
        &mut f,
        &mut out,
        later(t0, 210),
        false,
        &mut Vec::new(),
    )
    .unwrap();
    assert!(wire.is_empty(), "not due yet: nothing may be written");
    flush_held(
        |bytes: &[u8]| wire.write_all(bytes),
        &mut f,
        &mut out,
        later(t0, 300),
        false,
        &mut Vec::new(),
    )
    .unwrap();
    assert_eq!(
        decode(&wire),
        vec![release(), syn()],
        "release + SYN_REPORT, and an empty buffer must not leave the release unterminated"
    );
}

/// Break-edge bounce while dragging: the button must stay logically down.
#[test]
fn bounce_while_dragging_keeps_the_button_down() {
    let mut s = Sim::new(cfg());
    s.frame(&[press()]);
    s.at(5);
    s.frame(&[move_x(-10)]);
    s.at(10);
    s.frame(&[release()]); // bounce: contact flickered open
    s.at(8);
    s.frame(&[press()]); // ... and closed again inside the window
    assert!(!s.held(), "the bounce cancelled the hold");
    assert_eq!(s.count(release()), 0, "a bouncing release never reaches the compositor");
    assert_eq!(s.count(press()), 1, "nor does the matching re-press");
    assert_eq!(s.count(move_x(-10)), 1, "but the drag motion kept flowing");

    s.at(60);
    s.frame(&[release()]); // the real release
    assert!(s.held());
    s.tick(40);
    assert_eq!(s.count(release()), 1, "exactly one release, at the end");
}

/// Phantom make-edge bounce (the classic double click) stays suppressed.
#[test]
fn phantom_repress_and_its_release_are_dropped() {
    let mut s = Sim::new(cfg());
    s.frame(&[press()]);
    s.at(30);
    s.frame(&[release()]);
    s.at(20); // 50 ms after the accepted press: inside the 80 ms press window
    s.frame(&[press()]);
    s.at(25);
    s.frame(&[release()]);
    assert_eq!(s.count(press()), 1, "one click, not two");
    assert_eq!(s.count(release()), 1);
    s.at(500);
    s.frame(&[press()]); // the next real click still works
    assert_eq!(s.count(press()), 2);
}

/// A long hold is still a hold: the release is debounced, so a drag that
/// bounces is not cut into two.
#[test]
fn long_hold_gets_the_release_window() {
    let mut s = Sim::new(cfg());
    s.frame(&[press()]);
    s.at(400); // held 400 ms, no movement at all
    s.frame(&[release()]);
    assert!(s.held());
    s.tick(40);
    assert_eq!(s.count(release()), 1);
}

/// Nothing that is not a BTN_LEFT edge may ever be swallowed, delayed or
/// reordered. Checked on a long pseudo-random stream, at the byte level.
#[test]
fn no_non_left_event_is_ever_lost() {
    let mut s = Sim::new(Config {
        hold_threshold: Duration::zero(),
        release_window: Duration::from_millis(80),
        ..cfg()
    });
    let mut state: u64 = 0x243F6A88885A308D;
    let mut rng = move || {
        state = state
            .wrapping_mul(6364136223846793005)
            .wrapping_add(1442695040888963407);
        (state >> 33) as u32
    };
    let mut sent: Vec<InputEvent> = Vec::new();
    for _ in 0..4000 {
        s.at((rng() % 12) as u64);
        let ev = match rng() % 10 {
            0 => press(),
            1 => release(),
            2 => btn_right((rng() % 2) as i32),
            n => move_x(n as i32 - 5),
        };
        let mut frame = vec![ev];
        if rng() % 4 == 0 {
            frame.push(btn_right((rng() % 2) as i32));
        }
        frame.push(syn());
        sent.extend(frame.iter().cloned());
        s.feed(&frame);
        s.tick(0);
    }
    // Non-SYN, non-left data events must pass through 1:1 and in order.
    // (An extra EV_SYN comes with a held release, so SYNs are not counted 1:1.)
    let is_data =
        |e: &&InputEvent| e.type_ != EV_SYN && !(e.type_ == EV_KEY && e.code == BTN_LEFT);
    let expected: Vec<InputEvent> = sent.iter().filter(is_data).cloned().collect();
    let got: Vec<InputEvent> = s.out().iter().filter(is_data).cloned().collect();
    assert_eq!(
        got.len(),
        expected.len(),
        "data events must pass through 1:1, never buffered or dropped"
    );
    assert_eq!(got, expected, "and in the exact order they arrived");
}

/// A `Write` sink that counts calls, to pin down "one write per batch".
#[derive(Default)]
struct Counted {
    bytes: usize,
    writes: usize,
}
impl Write for Counted {
    fn write(&mut self, b: &[u8]) -> io::Result<usize> {
        self.bytes += b.len();
        self.writes += 1;
        Ok(b.len())
    }
    fn flush(&mut self) -> io::Result<()> {
        Ok(())
    }
}

/// The whole point of the coalescing: N events in, one write out.
#[test]
fn one_read_batch_is_one_write() {
    let mut f = Filter::new(cfg());
    let mut sink = Counted::default();
    let mut out = Vec::new();
    let mut raw = Vec::new();
    for e in [press(), move_x(-3), syn(), move_x(-3), syn()] {
        raw.extend_from_slice(&e.as_bytes());
    }
    let n = process_bytes(
        |bytes: &[u8]| sink.write_all(bytes),
        &mut f,
        &mut out,
        &raw,
        some_time(),
        false,
        &mut Vec::new(),
    )
    .unwrap();
    assert_eq!(n, 5, "5 events forwarded");
    assert_eq!(sink.writes, 1, "one write() for the whole batch");
    assert_eq!(sink.bytes, 5 * EVENT_SIZE);
    // and an empty batch with nothing pending writes nothing at all
    assert_eq!(
        process_bytes(
            |bytes: &[u8]| sink.write_all(bytes),
            &mut f,
            &mut out,
            &[],
            some_time(),
            false,
            &mut Vec::new(),
        )
        .unwrap(),
        0
    );
    assert_eq!(sink.writes, 1, "no spurious empty write()");
}
