//! The debounce state machine. It is free of I/O: it is told what the mouse
//! sent and what time it is, and says what to do about it.

use vstd::prelude::*;

use crate::codes::{BTN_LEFT, EV_KEY, EV_REL, REL_X, REL_Y};
use crate::event::InputEvent;
use crate::time::{nanos_between, Deadline, Duration, Instant};

verus! {

/// How the filter is tuned.
#[derive(Copy, Clone, Debug, PartialEq, Eq, Structural)]
pub struct Config {
    /// A press arriving this soon after an accepted press is contact bounce on
    /// the make edge (a phantom extra click) and is dropped, together with its
    /// release.
    pub press_window: Duration,
    /// How long a left release may be held back while waiting for break bounce.
    pub release_window: Duration,
    /// Only hold a release back if the button was logically down for at least
    /// this long. A short press with no movement is a plain click: its release
    /// is forwarded immediately and the pointer never notices anything.
    pub hold_threshold: Duration,
    pub verbose: bool,
}

impl Config {
    /// Whether every window has a length that a window may have.
    pub open spec fn wf(self) -> bool {
        self.press_window.wf() && self.release_window.wf() && self.hold_threshold.wf()
    }

    /// The tuning used unless told otherwise: windows of 80, 30 and 150 ms.
    pub open spec fn standard() -> Config {
        Config {
            press_window: Duration { nanos: 80_000_000 },
            release_window: Duration { nanos: 30_000_000 },
            hold_threshold: Duration { nanos: 150_000_000 },
            verbose: false,
        }
    }
}

impl Default for Config {
    fn default() -> (cfg: Self)
        ensures
            cfg == Config::standard(),
            cfg.wf(),
    {
        Config {
            press_window: Duration::from_millis(80),
            release_window: Duration::from_millis(30),
            hold_threshold: Duration::from_millis(150),
            verbose: false,
        }
    }
}

/// What the caller must do with an incoming event.
#[derive(Copy, Clone, Debug, PartialEq, Eq, Structural)]
pub enum Cmd {
    /// Write it to the virtual device verbatim, right now.
    Pass,
    /// It was a bounce: drop it.
    Swallow,
}

/// Why an event was swallowed.
#[derive(Copy, Clone, Debug, PartialEq, Eq, Structural)]
pub enum Note {
    PhantomPress,
    PhantomRelease,
    BounceRepress,
    StrayRelease,
    HeldRelease,
}

impl Note {
    /// How the reason reads in a log.
    pub open spec fn text(self) -> Seq<char> {
        match self {
            Note::PhantomPress => "PhantomPress"@,
            Note::PhantomRelease => "PhantomRelease"@,
            Note::BounceRepress => "BounceRepress"@,
            Note::StrayRelease => "StrayRelease"@,
            Note::HeldRelease => "HeldRelease"@,
        }
    }

    /// How the reason reads in a log.
    pub fn name(&self) -> (name: &'static str)
        ensures
            name@ == self.text(),
    {
        match self {
            Note::PhantomPress => "PhantomPress",
            Note::PhantomRelease => "PhantomRelease",
            Note::BounceRepress => "BounceRepress",
            Note::StrayRelease => "StrayRelease",
            Note::HeldRelease => "HeldRelease",
        }
    }
}

/// The state of the filter.
#[derive(Debug)]
pub struct Filter {
    pub cfg: Config,
    /// When the last accepted press came.
    pub last_press: Option<Instant>,
    /// Set when a press was swallowed as a phantom: swallow its release too.
    pub drop_next_release: bool,
    /// Logical state of the left button as far as the compositor knows: still
    /// down while its release is held back.
    pub left_down: bool,
    /// Movement while the button was down: the user is dragging.
    pub moved_while_down: bool,
    /// When the button went down. Nothing reads it before the first press.
    pub press_at: Instant,
    /// A left release waiting out `release_window`, with its confirmation
    /// deadline. Only the release is held back: never motion, never the other
    /// buttons.
    pub held_release: Option<(InputEvent, Deadline)>,
}

impl Filter {
    /// What holds of a filter at all times.
    pub open spec fn wf(self) -> bool {
        &&& self.cfg.wf()
        // The button counts as down since the last accepted press.
        &&& self.last_press matches Some(t) ==> self.press_at == t
        &&& self.left_down || self.drop_next_release ==> self.last_press is Some
        // What is held back is a left release, which the compositor has not seen.
        &&& self.held_release matches Some((ev, _)) ==> {
            &&& ev.is_left_release()
            &&& self.left_down
            &&& self.cfg.release_window.nanos > 0
        }
    }

    /// A filter that has seen nothing yet.
    pub open spec fn fresh(cfg: Config, press_at: Instant) -> Filter {
        Filter {
            cfg,
            last_press: None,
            drop_next_release: false,
            left_down: false,
            moved_while_down: false,
            press_at,
            held_release: None,
        }
    }

    /// Whether a press at `now` falls inside the window of a held release: the
    /// contact flickered, and the button never really let go.
    pub open spec fn press_is_bounce(self, now: Instant) -> bool {
        self.held_release matches Some((_, deadline)) && !deadline.reached(now)
    }

    /// Whether a press at `now` comes too soon after the last accepted one.
    pub open spec fn press_is_phantom(self, now: Instant) -> bool {
        &&& self.cfg.press_window.nanos > 0
        &&& self.last_press matches Some(t)
        &&& nanos_between(t, now) < self.cfg.press_window.nanos
    }

    /// Whether a genuine release at `now` has to wait out the release window:
    /// it ends a drag or a long press, or every release waits.
    pub open spec fn release_must_wait(self, now: Instant) -> bool {
        &&& self.cfg.release_window.nanos > 0
        &&& {
            ||| self.moved_while_down
            ||| self.cfg.hold_threshold.nanos == 0
            ||| nanos_between(self.press_at, now) >= self.cfg.hold_threshold.nanos
        }
    }

    /// Why `ev`, arriving at `now`, is swallowed; `None` if it passes.
    pub open spec fn note(self, ev: InputEvent, now: Instant) -> Option<Note> {
        if !ev.is_left() {
            None
        } else if ev.value == 1 {
            if self.press_is_bounce(now) {
                Some(Note::BounceRepress)
            } else if self.press_is_phantom(now) {
                Some(Note::PhantomPress)
            } else {
                None
            }
        } else if ev.value == 0 {
            if self.drop_next_release {
                Some(Note::PhantomRelease)
            } else if !self.left_down || self.held_release is Some {
                Some(Note::StrayRelease)
            } else if self.release_must_wait(now) {
                Some(Note::HeldRelease)
            } else {
                None
            }
        } else if ev.value == 2 && !self.left_down {
            Some(Note::StrayRelease)
        } else {
            None
        }
    }

    /// What is said of `ev`, arriving at `now`: it is swallowed exactly when
    /// there is a note on it.
    pub open spec fn verdict(self, ev: InputEvent, now: Instant) -> (Cmd, Option<Note>) {
        match self.note(ev, now) {
            Some(note) => (Cmd::Swallow, Some(note)),
            None => (Cmd::Pass, None),
        }
    }

    /// The state after `ev` has arrived at `now`. A press that passes leaves
    /// nothing held back: a release that was due had its place before it.
    pub open spec fn after(self, ev: InputEvent, now: Instant) -> Filter {
        match self.note(ev, now) {
            Some(Note::BounceRepress) => Filter { held_release: None, ..self },
            Some(Note::PhantomPress) => Filter { drop_next_release: true, ..self },
            Some(Note::PhantomRelease) => Filter { drop_next_release: false, ..self },
            Some(Note::StrayRelease) => self,
            Some(Note::HeldRelease) => Filter {
                held_release: Some(
                    (
                        ev,
                        Deadline { nanos: (now.nanos + self.cfg.release_window.nanos) as u128 },
                    ),
                ),
                ..self
            },
            None => if ev.is_left_press() {
                Filter {
                    last_press: Some(now),
                    press_at: now,
                    left_down: true,
                    moved_while_down: false,
                    drop_next_release: false,
                    held_release: None,
                    ..self
                }
            } else if ev.is_left_release() {
                Filter { left_down: false, ..self }
            } else if ev.is_motion() && self.left_down {
                Filter { moved_while_down: true, ..self }
            } else {
                self
            },
        }
    }

    /// Whether the release held back, if any, has waited out its window.
    pub open spec fn release_is_due(self, now: Instant) -> bool {
        self.released(now) is Some
    }

    /// The release that is let go at `now`: the one held back, if it is due.
    pub open spec fn released(self, now: Instant) -> Option<InputEvent> {
        match self.held_release {
            Some((ev, deadline)) if deadline.reached(now) => Some(ev),
            _ => None,
        }
    }

    /// The time until the held release is due, if one is held.
    pub open spec fn time_left(self, now: Instant) -> Option<Duration> {
        match self.held_release {
            Some((_, deadline)) => Some(
                Duration {
                    nanos: (if deadline.reached(now) {
                        0
                    } else {
                        deadline.nanos - now.nanos
                    }) as u128,
                },
            ),
            None => None,
        }
    }

    /// The state once a release that is due has been let go.
    pub open spec fn after_confirm(self, now: Instant) -> Filter {
        if self.release_is_due(now) {
            Filter { held_release: None, left_down: false, ..self }
        } else {
            self
        }
    }

    pub fn new(cfg: Config) -> (filter: Self)
        requires
            cfg.wf(),
        ensures
            filter == Filter::fresh(cfg, (Instant { nanos: 0 })),
            filter.wf(),
    {
        Filter {
            cfg,
            last_press: None,
            drop_next_release: false,
            left_down: false,
            moved_while_down: false,
            press_at: Instant::from_nanos(0),
            held_release: None,
        }
    }

    /// Decides on one event from the mouse. Everything that is not about the
    /// left button passes the instant it arrives: motion, wheel, the other
    /// buttons, frame ends. Before a left press, let go of a release that is
    /// due (see [`Filter::confirm`]): it belongs before the press.
    pub fn on_event(&mut self, ev: &InputEvent, now: Instant) -> (verdict: (Cmd, Option<Note>))
        requires
            old(self).wf(),
        ensures
            verdict == old(self).verdict(*ev, now),
            *final(self) == old(self).after(*ev, now),
            final(self).wf(),
    {
        if ev.type_ == EV_KEY && ev.code == BTN_LEFT {
            return self.on_left_button(ev, now);
        }
        if self.left_down && ev.type_ == EV_REL && (ev.code == REL_X || ev.code == REL_Y) {
            self.moved_while_down = true;
        }
        (Cmd::Pass, None)
    }

    /// Decides on one event of the left button.
    pub fn on_left_button(&mut self, ev: &InputEvent, now: Instant) -> (verdict: (
        Cmd,
        Option<Note>,
    ))
        requires
            old(self).wf(),
            ev.is_left(),
        ensures
            verdict == old(self).verdict(*ev, now),
            *final(self) == old(self).after(*ev, now),
            final(self).wf(),
    {
        match ev.value {
            1 => {
                // A press inside the release window is break-edge bounce: the
                // button never really let go. Swallow both edges, stay down.
                let bounce = match self.held_release {
                    Some((_, deadline)) => !deadline.is_reached(now),
                    None => false,
                };
                if bounce {
                    self.held_release = None;
                    return (Cmd::Swallow, Some(Note::BounceRepress));
                }
                let phantom = !self.cfg.press_window.is_zero() && match self.last_press {
                    Some(t) => now.duration_since(t).nanos < self.cfg.press_window.nanos,
                    None => false,
                };
                if phantom {
                    self.drop_next_release = true;
                    return (Cmd::Swallow, Some(Note::PhantomPress));
                }
                self.last_press = Some(now);
                self.press_at = now;
                self.left_down = true;
                self.moved_while_down = false;
                self.drop_next_release = false;
                self.held_release = None;
                (Cmd::Pass, None)
            },
            0 => {
                if self.drop_next_release {
                    self.drop_next_release = false;
                    return (Cmd::Swallow, Some(Note::PhantomRelease));
                }
                if !self.left_down || self.held_release.is_some() {
                    // A release with no press behind it: the compositor already
                    // has the button up, or will once the held release goes out.
                    return (Cmd::Swallow, Some(Note::StrayRelease));
                }
                let hold = !self.cfg.release_window.is_zero() && (self.moved_while_down
                    || self.cfg.hold_threshold.is_zero() || now.duration_since(self.press_at).nanos
                    >= self.cfg.hold_threshold.nanos);
                if hold {
                    // Only the release waits. Motion keeps flowing meanwhile.
                    self.held_release = Some((*ev, now.deadline_after(self.cfg.release_window)));
                    return (Cmd::Swallow, Some(Note::HeldRelease));
                }
                self.left_down = false;
                (Cmd::Pass, None)
            },
            2 => {
                // Autorepeat should not happen for mouse buttons.
                if self.left_down {
                    (Cmd::Pass, None)
                } else {
                    (Cmd::Swallow, Some(Note::StrayRelease))
                }
            },
            _ => (Cmd::Pass, None),
        }
    }

    /// How long to wait before checking the held release again. `None` means
    /// that no release is held: wait for the mouse alone.
    pub fn time_to_confirm(&self, now: Instant) -> (wait: Option<Duration>)
        ensures
            wait == self.time_left(now),
    {
        match self.held_release {
            Some((_, deadline)) => Some(deadline.saturating_duration_since(now)),
            None => None,
        }
    }

    /// Lets the held release go if its window has expired with no bounce.
    pub fn confirm(&mut self, now: Instant) -> (release: Option<InputEvent>)
        requires
            old(self).wf(),
        ensures
            release == old(self).released(now),
            *final(self) == old(self).after_confirm(now),
            final(self).wf(),
    {
        match self.held_release {
            Some((ev, deadline)) => {
                if !deadline.is_reached(now) {
                    return None;
                }
                self.held_release = None;
                self.left_down = false;
                Some(ev)
            },
            None => None,
        }
    }
}

} // verus!
