//! What the filter decides, in terms of codes, values and nanoseconds.

use vstd::prelude::*;

use crate::codes::{BTN_LEFT, EV_KEY, EV_REL, EV_SYN, REL_X, REL_Y, SYN_REPORT};
use crate::event::InputEvent;
use crate::filter::{Cmd, Config, Filter, Note};
use crate::laws::{call_after, calls_after, press_times, Call};
use crate::time::{nanos_between, Deadline, Duration, Instant};

verus! {

/// The codes that decisions turn on are the kernel's.
pub proof fn law_decisions_turn_on_the_kernels_codes()
    ensures
        EV_SYN == 0 && SYN_REPORT == 0,
        EV_KEY == 1 && BTN_LEFT == 0x110,
        EV_REL == 2 && REL_X == 0 && REL_Y == 1,
{
}

/// The time that passed and the time at which it passed add up; time that would
/// have run backwards is none.
pub proof fn law_elapsed_time_adds_up(earlier: Instant, later: Instant)
    ensures
        earlier.nanos <= later.nanos ==> earlier.nanos + nanos_between(earlier, later)
            == later.nanos,
        later.nanos <= earlier.nanos ==> nanos_between(earlier, later) == 0,
{
}

/// A deadline is reached from its own nanosecond on.
pub proof fn law_deadline_is_reached_from_its_nanosecond_on(deadline: Deadline, now: Instant)
    ensures
        deadline.reached(now) <==> now.nanos >= deadline.nanos,
{
}

/// A new filter has seen no press, holds nothing back and has the button up.
pub proof fn law_new_filter_has_seen_nothing(cfg: Config, press_at: Instant)
    ensures
        ({
            let filter = Filter::fresh(cfg, press_at);
            &&& filter.cfg == cfg
            &&& filter.last_press is None
            &&& filter.held_release is None
            &&& !filter.left_down && !filter.moved_while_down && !filter.drop_next_release
        }),
{
}

/// The tuning used unless told otherwise: 80 ms after a press, 30 ms for a
/// release, held from 150 ms on.
pub proof fn law_standard_tuning()
    ensures
        Config::standard().press_window.nanos == 80 * 1_000_000,
        Config::standard().release_window.nanos == 30 * 1_000_000,
        Config::standard().hold_threshold.nanos == 150 * 1_000_000,
        !Config::standard().verbose,
{
}

/// An event that is not type 1, code 0x110 passes, and does nothing to the
/// filter, unless it is horizontal or vertical movement while the button is
/// down: that makes a drag of it, and nothing takes it back.
pub proof fn law_other_events_pass_and_movement_is_remembered(
    filter: Filter,
    ev: InputEvent,
    now: Instant,
)
    requires
        ev.type_ != 1 || ev.code != 0x110,
    ensures
        filter.verdict(ev, now) == (Cmd::Pass, None::<Note>),
        ev.type_ == 2 && (ev.code == 0 || ev.code == 1) && filter.left_down ==> filter.after(
            ev,
            now,
        ) == (Filter { moved_while_down: true, ..filter }),
        !(ev.type_ == 2 && (ev.code == 0 || ev.code == 1) && filter.left_down) ==> filter.after(
            ev,
            now,
        ) == filter,
{
}

/// A press inside the window of a held release only takes the release back.
pub proof fn law_press_inside_the_release_window(filter: Filter, press: InputEvent, now: Instant)
    requires
        press.type_ == 1 && press.code == 0x110 && press.value == 1,
        filter.held_release matches Some((_, deadline)) && now.nanos < deadline.nanos,
    ensures
        filter.verdict(press, now) == (Cmd::Swallow, Some(Note::BounceRepress)),
        filter.after(press, now) == (Filter { held_release: None, ..filter }),
{
}

/// Any other press less than the press window after the last accepted one is
/// swallowed, and all that remains of it is that its release is to go too.
pub proof fn law_press_inside_the_press_window(
    filter: Filter,
    press: InputEvent,
    now: Instant,
    then: Instant,
)
    requires
        press.type_ == 1 && press.code == 0x110 && press.value == 1,
        filter.held_release matches Some((_, deadline)) ==> now.nanos >= deadline.nanos,
        filter.last_press == Some(then),
        filter.cfg.press_window.nanos > 0,
        now.nanos < then.nanos + filter.cfg.press_window.nanos,
    ensures
        filter.verdict(press, now) == (Cmd::Swallow, Some(Note::PhantomPress)),
        filter.after(press, now) == (Filter { drop_next_release: true, ..filter }),
{
}

/// Every other press passes, and the filter starts afresh from it: the button is
/// down since `now`, nothing has moved, nothing is held or to be dropped.
pub proof fn law_every_other_press_passes(filter: Filter, press: InputEvent, now: Instant)
    requires
        press.type_ == 1 && press.code == 0x110 && press.value == 1,
        filter.held_release matches Some((_, deadline)) ==> now.nanos >= deadline.nanos,
        filter.last_press matches Some(then) ==> filter.cfg.press_window.nanos == 0 || now.nanos
            >= then.nanos + filter.cfg.press_window.nanos,
    ensures
        filter.verdict(press, now) == (Cmd::Pass, None::<Note>),
        ({
            let after = filter.after(press, now);
            &&& after.cfg == filter.cfg
            &&& after.last_press == Some(now)
            &&& after.press_at == now
            &&& after.left_down
            &&& !after.moved_while_down
            &&& !after.drop_next_release
            &&& after.held_release is None
        }),
{
}

/// The release that a swallowed press waits for is swallowed, and nothing else
/// comes of it.
pub proof fn law_awaited_release_is_swallowed(filter: Filter, release: InputEvent, now: Instant)
    requires
        release.type_ == 1 && release.code == 0x110 && release.value == 0,
        filter.drop_next_release,
    ensures
        filter.verdict(release, now) == (Cmd::Swallow, Some(Note::PhantomRelease)),
        filter.after(release, now) == (Filter { drop_next_release: false, ..filter }),
{
}

/// A release of a button that is up, or already being released, is swallowed
/// without a trace.
pub proof fn law_release_of_nothing_is_swallowed(
    filter: Filter,
    release: InputEvent,
    now: Instant,
)
    requires
        release.type_ == 1 && release.code == 0x110 && release.value == 0,
        !filter.drop_next_release,
        !filter.left_down || filter.held_release is Some,
    ensures
        filter.verdict(release, now) == (Cmd::Swallow, Some(Note::StrayRelease)),
        filter.after(release, now) == filter,
{
}

/// Any other release is held back exactly if there is a release window and the
/// pointer moved or the press is at least the hold threshold old; then nothing
/// changes but that it is held, until one release window later. Otherwise it
/// passes, and nothing changes but that the button is up.
pub proof fn law_any_other_release_passes_or_waits(
    filter: Filter,
    release: InputEvent,
    now: Instant,
)
    requires
        filter.wf(),
        release.type_ == 1 && release.code == 0x110 && release.value == 0,
        !filter.drop_next_release && filter.left_down && filter.held_release is None,
    ensures
        ({
            let after = filter.after(release, now);
            let waits = filter.cfg.release_window.nanos > 0 && (filter.moved_while_down
                || filter.cfg.hold_threshold.nanos == 0 || now.nanos >= filter.press_at.nanos
                + filter.cfg.hold_threshold.nanos);
            if waits {
                &&& filter.verdict(release, now) == (Cmd::Swallow, Some(Note::HeldRelease))
                &&& after.held_release matches Some((held, deadline)) && held == release
                    && deadline.nanos == now.nanos + filter.cfg.release_window.nanos
                &&& after == (Filter { held_release: after.held_release, ..filter })
            } else {
                &&& filter.verdict(release, now) == (Cmd::Pass, None::<Note>)
                &&& after == (Filter { left_down: false, ..filter })
            }
        }),
{
}

/// Of the remaining values of the left button, autorepeat passes while the
/// button is down and is swallowed while it is up, every other passes; none of
/// them leaves a trace.
pub proof fn law_remaining_values_leave_no_trace(filter: Filter, ev: InputEvent, now: Instant)
    requires
        ev.type_ == 1 && ev.code == 0x110,
        ev.value != 0 && ev.value != 1,
    ensures
        filter.after(ev, now) == filter,
        ev.value == 2 && !filter.left_down ==> filter.verdict(ev, now) == (
            Cmd::Swallow,
            Some(Note::StrayRelease),
        ),
        ev.value != 2 || filter.left_down ==> filter.verdict(ev, now) == (
            Cmd::Pass,
            None::<Note>,
        ),
{
}

/// Whether none of `calls` brings an event of the left button.
pub open spec fn leave_the_button_alone(calls: Seq<Call>) -> bool {
    forall|i: int|
        0 <= i < calls.len() ==> (#[trigger] calls[i] matches Call::Event(ev, _) ==> !(ev.type_ == 1
            && ev.code == 0x110))
}

/// Whether any of `calls` brings horizontal or vertical movement.
pub open spec fn bring_movement(calls: Seq<Call>) -> bool {
    exists|i: int|
        0 <= i < calls.len() && (#[trigger] calls[i] matches Call::Event(ev, _) && ev.type_ == 2
            && (ev.code == 0 || ev.code == 1))
}

proof fn lemma_fewer_calls(calls: Seq<Call>)
    requires
        calls.len() > 0,
    ensures
        leave_the_button_alone(calls) ==> leave_the_button_alone(calls.drop_last()),
        leave_the_button_alone(calls) ==> (calls.last() matches Call::Event(ev, _) ==> !(ev.type_
            == 1 && ev.code == 0x110)),
        bring_movement(calls) <==> bring_movement(calls.drop_last()) || (
        calls.last() matches Call::Event(ev, _) && ev.type_ == 2 && (ev.code == 0 || ev.code == 1)),
{
    let earlier = calls.drop_last();
    assert(calls[calls.len() - 1] == calls.last());
    assert forall|i: int| 0 <= i < earlier.len() implies #[trigger] earlier[i] == calls[i] by {}
    if bring_movement(calls) {
        let i = choose|i: int|
            0 <= i < calls.len() && (#[trigger] calls[i] matches Call::Event(ev, _) && ev.type_ == 2
                && (ev.code == 0 || ev.code == 1));
        if i < earlier.len() {
            assert(earlier[i] == calls[i]);
        }
    }
    if bring_movement(earlier) {
        let i = choose|i: int|
            0 <= i < earlier.len() && (#[trigger] earlier[i] matches Call::Event(ev, _) && ev.type_
                == 2 && (ev.code == 0 || ev.code == 1));
        assert(calls[i] == earlier[i]);
    }
}

/// While the button is down and left alone, the filter remembers nothing but
/// whether anything moved: at any time, any number of times, in any direction.
pub proof fn law_down_button_remembers_movement(filter: Filter, calls: Seq<Call>)
    requires
        filter.left_down,
        filter.held_release is None,
        leave_the_button_alone(calls),
    ensures
        calls_after(filter, calls) == (Filter {
            moved_while_down: filter.moved_while_down || bring_movement(calls),
            ..filter
        }),
    decreases calls.len(),
{
    if calls.len() > 0 {
        lemma_fewer_calls(calls);
        law_down_button_remembers_movement(filter, calls.drop_last());
        if let Call::Event(ev, now) = calls.last() {
            law_other_events_pass_and_movement_is_remembered(
                calls_after(filter, calls.drop_last()),
                ev,
                now,
            );
        }
    }
}

/// The release that follows an accepted press, whatever else came in between, is
/// held back exactly if there is a release window and the press was a drag or
/// lasted at least the hold threshold; then it is due one release window later,
/// and the button stays down. Otherwise it passes and the button is up.
pub proof fn law_release_ends_a_click_a_drag_or_a_long_press(
    filter: Filter,
    press: InputEvent,
    then: Instant,
    between: Seq<Call>,
    release: InputEvent,
    now: Instant,
)
    requires
        filter.wf(),
        press.type_ == 1 && press.code == 0x110 && press.value == 1,
        filter.verdict(press, then).0 == Cmd::Pass,
        leave_the_button_alone(between),
        release.type_ == 1 && release.code == 0x110 && release.value == 0,
    ensures
        ({
            let down = calls_after(filter.after(press, then), between);
            let after = down.after(release, now);
            let waits = filter.cfg.release_window.nanos > 0 && (bring_movement(between)
                || filter.cfg.hold_threshold.nanos == 0 || now.nanos >= then.nanos
                + filter.cfg.hold_threshold.nanos);
            if waits {
                &&& down.verdict(release, now) == (Cmd::Swallow, Some(Note::HeldRelease))
                &&& after.held_release matches Some((held, deadline)) && held == release
                    && deadline.nanos == now.nanos + filter.cfg.release_window.nanos
                &&& after == (Filter { held_release: after.held_release, ..down })
                &&& after.left_down
            } else {
                &&& down.verdict(release, now) == (Cmd::Pass, None::<Note>)
                &&& after == (Filter { left_down: false, ..down })
                &&& after.held_release is None
            }
        }),
{
    let pressed = filter.after(press, then);
    law_down_button_remembers_movement(pressed, between);
    law_any_other_release_passes_or_waits(calls_after(pressed, between), release, now);
}

/// The release of a press taken for a phantom is swallowed, whatever else came
/// in between.
pub proof fn law_phantoms_release_is_swallowed_too(
    filter: Filter,
    press: InputEvent,
    then: Instant,
    between: Seq<Call>,
    release: InputEvent,
    now: Instant,
)
    requires
        press.type_ == 1 && press.code == 0x110 && press.value == 1,
        filter.verdict(press, then) == (Cmd::Swallow, Some(Note::PhantomPress)),
        leave_the_button_alone(between),
        release.type_ == 1 && release.code == 0x110 && release.value == 0,
    ensures
        ({
            let awaiting = calls_after(filter.after(press, then), between);
            &&& awaiting.last_press == filter.last_press
            &&& awaiting.verdict(release, now) == (Cmd::Swallow, Some(Note::PhantomRelease))
            &&& !awaiting.after(release, now).drop_next_release
        }),
{
    lemma_awaiting_stays(filter.after(press, then), between);
}

proof fn lemma_awaiting_stays(filter: Filter, calls: Seq<Call>)
    requires
        filter.drop_next_release,
        leave_the_button_alone(calls),
    ensures
        calls_after(filter, calls).drop_next_release,
        calls_after(filter, calls).last_press == filter.last_press,
    decreases calls.len(),
{
    if calls.len() > 0 {
        lemma_fewer_calls(calls);
        lemma_awaiting_stays(filter, calls.drop_last());
    }
}

/// Whether each of `calls` leaves a release alone that is due at `deadline`:
/// none presses the left button, and none looks at the release from then on.
pub open spec fn leave_it_held(calls: Seq<Call>, deadline: Deadline) -> bool {
    forall|i: int|
        0 <= i < calls.len() ==> match #[trigger] calls[i] {
            Call::Event(ev, _) => !(ev.type_ == 1 && ev.code == 0x110 && ev.value == 1),
            Call::Confirm(t) => t.nanos < deadline.nanos,
        }
}

/// A held release stays held until it is due or the button is pressed again;
/// then the very event that came, timestamp and all, is let go, once, and with
/// it the button.
pub proof fn law_held_release_is_let_go_once(
    filter: Filter,
    held: InputEvent,
    deadline: Deadline,
    between: Seq<Call>,
    now: Instant,
)
    requires
        filter.held_release == Some((held, deadline)),
        filter.left_down,
        leave_it_held(between, deadline),
    ensures
        ({
            let waiting = calls_after(filter, between);
            &&& waiting.held_release == filter.held_release
            &&& waiting.left_down
            &&& waiting.released(now) == if now.nanos >= deadline.nanos {
                Some(held)
            } else {
                None
            }
            &&& waiting.release_is_due(now) <==> now.nanos >= deadline.nanos
            &&& now.nanos >= deadline.nanos ==> waiting.after_confirm(now) == (Filter {
                held_release: None,
                left_down: false,
                ..waiting
            })
            &&& now.nanos < deadline.nanos ==> waiting.after_confirm(now) == waiting
            &&& waiting.time_left(now) matches Some(left) && left.nanos == if now.nanos
                >= deadline.nanos {
                0
            } else {
                deadline.nanos - now.nanos
            }
        }),
    decreases between.len(),
{
    if between.len() > 0 {
        let earlier = between.drop_last();
        assert(between[between.len() - 1] == between.last());
        assert forall|i: int| 0 <= i < earlier.len() implies #[trigger] earlier[i] == between[i] by {
        }
        law_held_release_is_let_go_once(filter, held, deadline, earlier, now);
        let before = calls_after(filter, earlier);
        match between.last() {
            Call::Event(ev, _) => {
                assert(!(ev.type_ == 1 && ev.code == 0x110 && ev.value == 1));
            },
            Call::Confirm(t) => {
                assert(t.nanos < deadline.nanos);
            },
        }
        assert(calls_after(filter, between) == call_after(before, between.last()));
    }
}

/// With nothing held back there is nothing to let go and no time to wait for.
pub proof fn law_nothing_held_is_nothing_let_go(filter: Filter, now: Instant)
    requires
        filter.held_release is None,
    ensures
        filter.released(now) is None,
        !filter.release_is_due(now),
        filter.after_confirm(now) == filter,
        filter.time_left(now) is None,
{
}

proof fn lemma_last_press(cfg: Config, press_at: Instant, calls: Seq<Call>)
    ensures
        ({
            let filter = Filter::fresh(cfg, press_at);
            let times = press_times(filter, calls);
            &&& calls_after(filter, calls).cfg == cfg
            &&& calls_after(filter, calls).last_press == if times.len() > 0 {
                Some(times.last())
            } else {
                None
            }
        }),
    decreases calls.len(),
{
    if calls.len() > 0 {
        lemma_last_press(cfg, press_at, calls.drop_last());
    }
}

/// A press is judged by the last press that passed, whatever came in between:
/// unless a held release takes it for bounce, it passes exactly if it is the
/// first or comes at least the press window after that one.
pub proof fn law_press_is_judged_by_the_last_that_passed(
    cfg: Config,
    press_at: Instant,
    calls: Seq<Call>,
    press: InputEvent,
    now: Instant,
)
    requires
        press.type_ == 1 && press.code == 0x110 && press.value == 1,
    ensures
        ({
            let filter = Filter::fresh(cfg, press_at);
            let found = calls_after(filter, calls);
            let times = press_times(filter, calls);
            let bounces = found.held_release matches Some((_, deadline)) && now.nanos
                < deadline.nanos;
            found.verdict(press, now).0 == Cmd::Pass <==> !bounces && (times.len() == 0
                || cfg.press_window.nanos == 0 || now.nanos >= times.last().nanos
                + cfg.press_window.nanos)
        }),
{
    lemma_last_press(cfg, press_at, calls);
}

} // verus!
