//! What the filter promises, whatever the mouse sends and whenever it does.

use vstd::prelude::*;

use crate::codes::EV_SYN;
use crate::event::{
    event_of, law_event_survives_its_record, law_record_survives_its_event, lemma_event_bytes_len,
    InputEvent, EVENT_SIZE,
};
use crate::filter::{Cmd, Config, Filter, Note};
use crate::time::{nanos_between, Duration, Instant};
use crate::wire::{
    batch_after, batch_out, confirmation, confirmation_note, decode, encode, filter_after,
    lemma_encode_add, let_through, noted, passed, ready_for, Diagnostic,
};

verus! {

// One event.

/// Nothing but an edge or autorepeat of the left button is ever swallowed:
/// motion, wheel, the other buttons and frame ends pass the instant they
/// arrive, whatever is being held back.
pub proof fn law_only_the_left_button_is_held_up(filter: Filter, ev: InputEvent, now: Instant)
    ensures
        !ev.is_left() ==> filter.verdict(ev, now) == (Cmd::Pass, None::<Note>),
        !ev.is_left() ==> filter.after(ev, now).held_release == filter.held_release,
        filter.verdict(ev, now).0 == Cmd::Swallow ==> ev.is_left() && 0 <= ev.value <= 2,
{
}

/// An event is swallowed exactly when a reason is given.
pub proof fn law_swallowed_means_noted(filter: Filter, ev: InputEvent, now: Instant)
    ensures
        filter.verdict(ev, now).0 == Cmd::Swallow <==> filter.verdict(ev, now).1 is Some,
{
}

/// No event changes the tuning.
pub proof fn law_tuning_is_fixed(filter: Filter, ev: InputEvent, now: Instant)
    ensures
        filter.after(ev, now).cfg == filter.cfg,
        filter.after_confirm(now).cfg == filter.cfg,
{
}

/// A press passes exactly when it does not fall inside the window of a held
/// release and comes no sooner than the press window after the last accepted
/// press.
pub proof fn law_which_presses_pass(filter: Filter, press: InputEvent, now: Instant)
    requires
        press.is_left_press(),
    ensures
        filter.note(press, now) is None <==> !filter.press_is_bounce(now) && (filter.last_press matches Some(t) ==> nanos_between(t, now)
            >= filter.cfg.press_window.nanos),
        filter.note(press, now) is None ==> filter.after(press, now).last_press == Some(now),
        filter.note(press, now) is Some ==> filter.after(press, now).last_press
            == filter.last_press,
{
}

/// With a press window of zero no press is taken for a phantom.
pub proof fn law_no_press_window_no_phantoms(filter: Filter, ev: InputEvent, now: Instant)
    requires
        filter.cfg.press_window.nanos == 0,
    ensures
        filter.note(ev, now) != Some(Note::PhantomPress),
{
}

/// With a release window of zero no release is ever held back.
pub proof fn law_no_release_window_no_hold(filter: Filter, ev: InputEvent, now: Instant)
    requires
        filter.wf(),
        filter.cfg.release_window.nanos == 0,
    ensures
        filter.held_release is None,
        filter.after(ev, now).held_release is None,
        filter.note(ev, now) != Some(Note::HeldRelease),
        filter.note(ev, now) != Some(Note::BounceRepress),
{
}

/// With a hold threshold of zero every genuine release is held back, that of a
/// click too, unless there is no release window.
pub proof fn law_no_threshold_always_holds(filter: Filter, ev: InputEvent, now: Instant)
    requires
        filter.cfg.hold_threshold.nanos == 0,
        filter.cfg.release_window.nanos > 0,
        filter.left_down,
        filter.held_release is None,
        !filter.drop_next_release,
        ev.is_left_release(),
    ensures
        filter.note(ev, now) == Some(Note::HeldRelease),
{
}

/// A release held back at `then` is let go from the end of its window on, and
/// not before.
pub proof fn law_release_waits_out_its_window(
    filter: Filter,
    ev: InputEvent,
    then: Instant,
    now: Instant,
)
    requires
        filter.wf(),
        filter.note(ev, then) == Some(Note::HeldRelease),
    ensures
        filter.after(ev, then).released(now) == if now.nanos >= then.nanos
            + filter.cfg.release_window.nanos {
            Some(ev)
        } else {
            None
        },
{
}

/// The time left is zero exactly when the release is due, and there is none
/// exactly when nothing is held back; once let go, a release is gone.
pub proof fn law_time_runs_out_when_due(filter: Filter, now: Instant, later: Instant)
    ensures
        filter.time_left(now) == Some(Duration { nanos: 0 }) <==> filter.release_is_due(now),
        filter.time_left(now) is None <==> filter.held_release is None,
        filter.release_is_due(now) ==> filter.after_confirm(now).time_left(later) is None,
        filter.release_is_due(now) && now.nanos <= later.nanos ==> filter.release_is_due(later),
{
}

// Two edges.

/// Break bounce leaves no trace: if a release is held back and the button
/// closes again inside the release window, both edges are swallowed and the
/// filter is as it was, with the button down throughout.
pub proof fn law_bounce_leaves_no_trace(
    filter: Filter,
    release: InputEvent,
    then: Instant,
    press: InputEvent,
    now: Instant,
)
    requires
        filter.wf(),
        filter.note(release, then) == Some(Note::HeldRelease),
        press.is_left_press(),
        now.nanos < then.nanos + filter.cfg.release_window.nanos,
    ensures
        filter.left_down,
        filter.after(release, then).left_down,
        filter.after(release, then).note(press, now) == Some(Note::BounceRepress),
        filter.after(release, then).after(press, now) == filter,
{
}

/// A press from the end of the release window on is no bounce: the release was
/// genuine, and is there to be let go before the press.
pub proof fn law_late_press_is_no_bounce(
    filter: Filter,
    release: InputEvent,
    then: Instant,
    press: InputEvent,
    now: Instant,
)
    requires
        filter.wf(),
        filter.note(release, then) == Some(Note::HeldRelease),
        press.is_left_press(),
        now.nanos >= then.nanos + filter.cfg.release_window.nanos,
    ensures
        filter.after(release, then).note(press, now) != Some(Note::BounceRepress),
        filter.after(release, then).released(now) == Some(release),
        filter.after(release, then).after_confirm(now).note(press, now) == filter.after(
            release,
            then,
        ).note(press, now),
{
}

/// A phantom press leaves no trace: it is swallowed, its release is swallowed,
/// and the filter is as it was, so the press window still runs from the
/// accepted press.
pub proof fn law_phantom_leaves_no_trace(
    filter: Filter,
    press: InputEvent,
    then: Instant,
    release: InputEvent,
    now: Instant,
)
    requires
        filter.note(press, then) == Some(Note::PhantomPress),
        !filter.drop_next_release,
        release.is_left_release(),
    ensures
        filter.after(press, then).note(release, now) == Some(Note::PhantomRelease),
        filter.after(press, then).after(release, now) == filter,
{
}

/// A press within the press window of an accepted one, that one having been
/// released, is a phantom.
pub proof fn law_quick_second_press_is_phantom(
    filter: Filter,
    first: InputEvent,
    then: Instant,
    release: InputEvent,
    between: Instant,
    second: InputEvent,
    now: Instant,
)
    requires
        filter.wf(),
        first.is_left_press(),
        filter.note(first, then) is None,
        release.is_left_release(),
        filter.after(first, then).note(release, between) is None,
        second.is_left_press(),
        nanos_between(then, now) < filter.cfg.press_window.nanos,
    ensures
        filter.after(first, then).after(release, between).note(second, now) == Some(
            Note::PhantomPress,
        ),
{
}

/// Whether none of `events` is about the left button or moves the pointer.
pub open spec fn is_quiet(events: Seq<InputEvent>) -> bool {
    forall|i: int|
        0 <= i < events.len() ==> !(#[trigger] events[i]).is_left() && !events[i].is_motion()
}

proof fn lemma_quiet_events_change_nothing(filter: Filter, events: Seq<InputEvent>, now: Instant)
    requires
        is_quiet(events),
    ensures
        filter_after(filter, events, now) == filter,
        let_through(filter, events, now) == events,
    decreases events.len(),
{
    if events.len() > 0 {
        assert forall|i: int| 0 <= i < events.drop_last().len() implies !(
        #[trigger] events.drop_last()[i]).is_left() && !events.drop_last()[i].is_motion() by {
            assert(events.drop_last()[i] == events[i]);
        }
        lemma_quiet_events_change_nothing(filter, events.drop_last(), now);
        assert(!events[events.len() - 1].is_left());
        assert(events.drop_last() + Seq::<InputEvent>::empty() =~= events.drop_last());
        assert(events.drop_last().push(events.last()) =~= events);
    } else {
        assert(events =~= Seq::empty());
    }
}

/// A plain click passes at once, both edges: an accepted press, then no
/// movement, then a release before the hold threshold.
pub proof fn law_plain_click_passes_at_once(
    filter: Filter,
    press: InputEvent,
    then: Instant,
    between: Seq<InputEvent>,
    release: InputEvent,
    now: Instant,
)
    requires
        filter.wf(),
        press.is_left_press(),
        filter.note(press, then) is None,
        is_quiet(between),
        release.is_left_release(),
        nanos_between(then, now) < filter.cfg.hold_threshold.nanos,
    ensures
        filter_after(filter.after(press, then), between, now).note(release, now) is None,
        filter_after(filter.after(press, then), between, now).after(release, now).held_release
            is None,
{
    lemma_quiet_events_change_nothing(filter.after(press, then), between, now);
}

/// The release that ends a drag is held back: an accepted press, then a
/// movement, then the release.
pub proof fn law_drag_release_waits(
    filter: Filter,
    press: InputEvent,
    then: Instant,
    motion: InputEvent,
    between: Instant,
    release: InputEvent,
    now: Instant,
)
    requires
        filter.wf(),
        filter.cfg.release_window.nanos > 0,
        press.is_left_press(),
        filter.note(press, then) is None,
        motion.is_motion(),
        release.is_left_release(),
    ensures
        filter.after(press, then).after(motion, between).note(release, now) == Some(
            Note::HeldRelease,
        ),
{
}

/// The release that ends a long press is held back, movement or not.
pub proof fn law_long_press_release_waits(
    filter: Filter,
    press: InputEvent,
    then: Instant,
    release: InputEvent,
    now: Instant,
)
    requires
        filter.wf(),
        filter.cfg.release_window.nanos > 0,
        press.is_left_press(),
        filter.note(press, then) is None,
        release.is_left_release(),
        nanos_between(then, now) >= filter.cfg.hold_threshold.nanos,
    ensures
        filter.after(press, then).note(release, now) == Some(Note::HeldRelease),
{
}

// Any number of calls.

/// A call of the filter: an event that arrives, or a look at the held release.
pub enum Call {
    Event(InputEvent, Instant),
    Confirm(Instant),
}

/// The filter after `call`.
pub open spec fn call_after(filter: Filter, call: Call) -> Filter {
    match call {
        Call::Event(ev, now) => filter.after(ev, now),
        Call::Confirm(now) => filter.after_confirm(now),
    }
}

/// What `call` sends on: the event if it passes, or the release if it is due.
pub open spec fn call_out(filter: Filter, call: Call) -> Seq<InputEvent> {
    match call {
        Call::Event(ev, now) => if filter.note(ev, now) is None {
            seq![ev]
        } else {
            Seq::empty()
        },
        Call::Confirm(now) => match filter.released(now) {
            Some(release) => seq![release],
            None => Seq::empty(),
        },
    }
}

/// The filter after `calls`, one after the other.
pub open spec fn calls_after(filter: Filter, calls: Seq<Call>) -> Filter
    decreases calls.len(),
{
    if calls.len() == 0 {
        filter
    } else {
        call_after(calls_after(filter, calls.drop_last()), calls.last())
    }
}

/// What `calls` send on, one after the other.
pub open spec fn calls_out(filter: Filter, calls: Seq<Call>) -> Seq<InputEvent>
    decreases calls.len(),
{
    if calls.len() == 0 {
        Seq::empty()
    } else {
        calls_out(filter, calls.drop_last()) + call_out(
            calls_after(filter, calls.drop_last()),
            calls.last(),
        )
    }
}

/// When the presses came that passed among `calls`.
pub open spec fn press_times(filter: Filter, calls: Seq<Call>) -> Seq<Instant>
    decreases calls.len(),
{
    if calls.len() == 0 {
        Seq::empty()
    } else {
        let earlier = press_times(filter, calls.drop_last());
        let before = calls_after(filter, calls.drop_last());
        match calls.last() {
            Call::Event(ev, now) if ev.is_left_press() && before.note(ev, now) is None =>
                earlier.push(now),
            _ => earlier,
        }
    }
}

proof fn lemma_calls_wf(filter: Filter, calls: Seq<Call>)
    requires
        filter.wf(),
    ensures
        calls_after(filter, calls).wf(),
        calls_after(filter, calls).cfg == filter.cfg,
    decreases calls.len(),
{
    if calls.len() > 0 {
        lemma_calls_wf(filter, calls.drop_last());
    }
}

/// Whether `call` is a left press that finds a held release due, which nobody
/// let go before.
pub open spec fn finds_due(filter: Filter, call: Call) -> bool {
    call matches Call::Event(ev, now) && ev.is_left_press() && filter.release_is_due(now)
}

/// Whether `call` is a left press that passes in front of a held release that
/// is due.
pub open spec fn overtakes(filter: Filter, call: Call) -> bool {
    finds_due(filter, call) && call_out(filter, call).len() > 0
}

/// Whether none of `calls` is a left press that finds a held release due.
pub open spec fn confirms_first(filter: Filter, calls: Seq<Call>) -> bool {
    forall|i: int|
        0 <= i < calls.len() ==> !finds_due(
            calls_after(filter, calls.take(i)),
            #[trigger] calls[i],
        )
}

/// Whether no press among `calls` overtakes a release that is due.
pub open spec fn no_press_overtakes(filter: Filter, calls: Seq<Call>) -> bool {
    forall|i: int|
        0 <= i < calls.len() ==> !overtakes(
            calls_after(filter, calls.take(i)),
            #[trigger] calls[i],
        )
}

/// Whether every press among `calls` that finds a held release due passes: none
/// of them is taken for a phantom.
pub open spec fn no_phantom_finds_due(filter: Filter, calls: Seq<Call>) -> bool {
    forall|i: int|
        0 <= i < calls.len() ==> {
            let before = calls_after(filter, calls.take(i));
            finds_due(before, #[trigger] calls[i]) ==> overtakes(before, calls[i])
        }
}

/// What holds before each of `calls` holds before each but the last, and before
/// the last.
proof fn lemma_last_call(filter: Filter, calls: Seq<Call>)
    requires
        calls.len() > 0,
    ensures
        no_press_overtakes(filter, calls) ==> no_press_overtakes(filter, calls.drop_last())
            && !overtakes(calls_after(filter, calls.drop_last()), calls.last()),
        no_phantom_finds_due(filter, calls) ==> no_phantom_finds_due(filter, calls.drop_last())
            && (finds_due(calls_after(filter, calls.drop_last()), calls.last()) ==> overtakes(
            calls_after(filter, calls.drop_last()),
            calls.last(),
        )),
{
    let earlier = calls.drop_last();
    assert(calls.take(calls.len() - 1) =~= earlier);
    assert(calls[calls.len() - 1] == calls.last());
    assert forall|i: int| 0 <= i < earlier.len() implies #[trigger] earlier[i] == calls[i]
        && earlier.take(i) == calls.take(i) by {
        assert(earlier.take(i) =~= calls.take(i));
    }
}

/// Over any calls of a new filter: the tuning stays as given; and what is held
/// back, if anything, is a left release that one of the calls brought, with a
/// deadline one release window after that call.
pub proof fn law_held_release_is_one_that_came(cfg: Config, press_at: Instant, calls: Seq<Call>)
    requires
        cfg.wf(),
    ensures
        ({
            let after = calls_after(Filter::fresh(cfg, press_at), calls);
            &&& after.cfg == cfg
            &&& after.held_release matches Some((held, deadline)) ==> {
                &&& cfg.release_window.nanos > 0
                &&& held.is_left_release()
                &&& exists|i: int|
                    0 <= i < calls.len() && (#[trigger] calls[i] matches Call::Event(ev, then)
                        && ev == held && deadline.nanos == then.nanos + cfg.release_window.nanos)
            }
        }),
    decreases calls.len(),
{
    let filter = Filter::fresh(cfg, press_at);
    if calls.len() > 0 {
        let earlier = calls.drop_last();
        law_held_release_is_one_that_came(cfg, press_at, earlier);
        lemma_calls_wf(filter, earlier);
        lemma_calls_wf(filter, calls);
        let before = calls_after(filter, earlier);
        let after = calls_after(filter, calls);
        if let Some((held, deadline)) = after.held_release {
            if after.held_release == before.held_release {
                let i = choose|i: int|
                    0 <= i < earlier.len() && (#[trigger] earlier[i] matches Call::Event(ev, then)
                        && ev == held && deadline.nanos == then.nanos + cfg.release_window.nanos);
                assert(calls[i] == earlier[i]);
            } else {
                assert(calls[calls.len() - 1] == calls.last());
            }
        }
    }
}

/// While a release is held back, no phantom press awaits its release. The calls
/// may be any of a new filter in which no phantom press finds a release due that
/// was not let go first.
pub proof fn law_held_release_awaits_no_phantom(cfg: Config, press_at: Instant, calls: Seq<Call>)
    requires
        cfg.wf(),
        no_phantom_finds_due(Filter::fresh(cfg, press_at), calls),
    ensures
        calls_after(Filter::fresh(cfg, press_at), calls).held_release is Some ==> !calls_after(
            Filter::fresh(cfg, press_at),
            calls,
        ).drop_next_release,
    decreases calls.len(),
{
    let filter = Filter::fresh(cfg, press_at);
    if calls.len() > 0 {
        lemma_last_call(filter, calls);
        law_held_release_awaits_no_phantom(cfg, press_at, calls.drop_last());
        lemma_calls_wf(filter, calls.drop_last());
    }
}

/// The presses and releases of the left button among `events`.
pub open spec fn left_edges(events: Seq<InputEvent>) -> Seq<InputEvent> {
    events.filter(|ev: InputEvent| ev.is_left_press() || ev.is_left_release())
}

proof fn lemma_edges_add(a: Seq<InputEvent>, b: Seq<InputEvent>)
    ensures
        left_edges(a + b) == left_edges(a) + left_edges(b),
{
    Seq::filter_distributes_over_add(
        a,
        b,
        |ev: InputEvent| ev.is_left_press() || ev.is_left_release(),
    );
}

proof fn lemma_edges_of_call(filter: Filter, call: Call)
    requires
        filter.wf(),
    ensures
        left_edges(call_out(filter, call)) == match call {
            Call::Event(ev, now) => if filter.note(ev, now) is None && (ev.is_left_press()
                || ev.is_left_release()) {
                seq![ev]
            } else {
                Seq::empty()
            },
            Call::Confirm(now) => call_out(filter, call),
        },
{
    reveal_with_fuel(Seq::filter, 2);
    let out = call_out(filter, call);
    if out.len() > 0 {
        assert(out.drop_last() =~= Seq::empty());
        assert(Seq::<InputEvent>::empty().push(out.last()) =~= seq![out.last()]);
        assert(out =~= seq![out.last()]);
    }
}

proof fn lemma_last_edge_of_call(filter: Filter, call: Call)
    requires
        filter.wf(),
    ensures
        ({
            let edges = left_edges(call_out(filter, call));
            call_after(filter, call).left_down == if edges.len() > 0 {
                edges.last().is_left_press()
            } else {
                filter.left_down
            }
        }),
{
    lemma_edges_of_call(filter, call);
}

/// The button is down as far as the filter knows exactly when the last edge
/// that was sent on is a press: whatever calls are made of a new filter, it
/// knows what the compositor knows.
pub proof fn law_left_down_is_what_the_compositor_knows(
    cfg: Config,
    press_at: Instant,
    calls: Seq<Call>,
)
    requires
        cfg.wf(),
    ensures
        ({
            let filter = Filter::fresh(cfg, press_at);
            let edges = left_edges(calls_out(filter, calls));
            calls_after(filter, calls).left_down <==> edges.len() > 0
                && edges.last().is_left_press()
        }),
    decreases calls.len(),
{
    let filter = Filter::fresh(cfg, press_at);
    if calls.len() == 0 {
        reveal(Seq::filter);
    } else {
        let earlier = calls.drop_last();
        let before = calls_after(filter, earlier);
        law_left_down_is_what_the_compositor_knows(cfg, press_at, earlier);
        lemma_calls_wf(filter, earlier);
        lemma_last_edge_of_call(before, calls.last());
        lemma_edges_add(calls_out(filter, earlier), call_out(before, calls.last()));
        let edges = left_edges(calls_out(filter, earlier));
        let new = left_edges(call_out(before, calls.last()));
        if new.len() == 0 {
            assert(edges + new =~= edges);
        } else {
            assert((edges + new).last() == new.last());
        }
    }
}

proof fn lemma_press_times(filter: Filter, calls: Seq<Call>)
    requires
        filter.last_press is None,
        filter.cfg.press_window.nanos > 0,
    ensures
        calls_after(filter, calls).cfg == filter.cfg,
        calls_after(filter, calls).last_press == if press_times(filter, calls).len() > 0 {
            Some(press_times(filter, calls).last())
        } else {
            None
        },
        forall|i: int, j: int|
            0 <= i < j < press_times(filter, calls).len() ==> #[trigger] press_times(
                filter,
                calls,
            )[i].nanos + filter.cfg.press_window.nanos <= #[trigger] press_times(
                filter,
                calls,
            )[j].nanos,
    decreases calls.len(),
{
    if calls.len() > 0 {
        lemma_press_times(filter, calls.drop_last());
        let earlier = press_times(filter, calls.drop_last());
        let times = press_times(filter, calls);
        let gap = filter.cfg.press_window.nanos;
        assert forall|i: int, j: int| 0 <= i < j < times.len() implies #[trigger] times[i].nanos
            + gap <= #[trigger] times[j].nanos by {
            if j < earlier.len() {
                assert(times[i] == earlier[i] && times[j] == earlier[j]);
            } else {
                assert(times[i] == earlier[i]);
                assert(earlier.last().nanos + gap <= times[j].nanos);
                if i < earlier.len() - 1 {
                    assert(earlier[i].nanos + gap <= earlier[earlier.len() - 1].nanos);
                }
            }
        }
    }
}

/// No two presses that pass are closer together than the press window, whatever
/// calls are made of a new filter in between.
pub proof fn law_accepted_presses_are_spaced(
    cfg: Config,
    press_at: Instant,
    calls: Seq<Call>,
    i: int,
    j: int,
)
    requires
        cfg.press_window.nanos > 0,
        0 <= i < j < press_times(Filter::fresh(cfg, press_at), calls).len(),
    ensures
        ({
            let times = press_times(Filter::fresh(cfg, press_at), calls);
            times[i].nanos + cfg.press_window.nanos <= times[j].nanos
        }),
{
    lemma_press_times(Filter::fresh(cfg, press_at), calls);
}

// One batch.

proof fn lemma_encode_len(events: Seq<InputEvent>)
    ensures
        encode(events).len() == EVENT_SIZE * events.len(),
    decreases events.len(),
{
    if events.len() > 0 {
        lemma_encode_len(events.drop_last());
        lemma_event_bytes_len(events.last());
    }
}

/// Every event goes out as one record, so that the number of records written
/// is the number of events forwarded.
pub proof fn law_one_record_per_event(events: Seq<InputEvent>)
    ensures
        encode(events).len() == EVENT_SIZE * events.len(),
        encode(events).len() / EVENT_SIZE as nat == events.len(),
{
    lemma_encode_len(events);
}

proof fn lemma_encode_record(events: Seq<InputEvent>, i: int)
    requires
        0 <= i < events.len(),
    ensures
        encode(events).subrange(EVENT_SIZE * i, EVENT_SIZE * i + EVENT_SIZE) == events[i].bytes(),
    decreases events.len(),
{
    let earlier = events.drop_last();
    lemma_encode_len(events);
    lemma_encode_len(earlier);
    lemma_event_bytes_len(events.last());
    if i < earlier.len() {
        lemma_encode_record(earlier, i);
        assert(encode(events).subrange(EVENT_SIZE * i, EVENT_SIZE * i + EVENT_SIZE)
            =~= encode(earlier).subrange(EVENT_SIZE * i, EVENT_SIZE * i + EVENT_SIZE));
    } else {
        assert(encode(events).subrange(EVENT_SIZE * i, EVENT_SIZE * i + EVENT_SIZE)
            =~= events.last().bytes());
    }
}

/// Reading back what was written gives the events that were written.
pub proof fn law_events_survive_the_wire(events: Seq<InputEvent>)
    ensures
        decode(encode(events)) == events,
{
    lemma_encode_len(events);
    assert forall|i: int| 0 <= i < events.len() implies decode(encode(events))[i] == events[i] by {
        lemma_encode_record(events, i);
        law_event_survives_its_record(events[i]);
    }
    assert(decode(encode(events)) =~= events);
}

proof fn lemma_encode_decode(data: Seq<u8>, n: nat)
    requires
        n <= data.len() / EVENT_SIZE as nat,
    ensures
        encode(decode(data).take(n as int)) == data.take(EVENT_SIZE * n),
    decreases n,
{
    let events = decode(data);
    if n == 0 {
        assert(events.take(0) =~= Seq::empty());
        assert(data.take(0) =~= Seq::empty());
    } else {
        let m = (n - 1) as nat;
        lemma_encode_decode(data, m);
        assert(events.take(n as int).drop_last() =~= events.take(m as int));
        let chunk = data.subrange(EVENT_SIZE * m, EVENT_SIZE * m + EVENT_SIZE);
        assert(events[m as int] == event_of(chunk));
        law_record_survives_its_event(chunk);
        assert(data.take(EVENT_SIZE * n) =~= data.take(EVENT_SIZE * m) + chunk);
    }
}

/// Writing out the events that were read gives the whole records that were
/// read, byte for byte.
pub proof fn law_records_survive_the_filter(data: Seq<u8>)
    ensures
        encode(decode(data)) == data.take(EVENT_SIZE * (data.len() / EVENT_SIZE as nat)),
{
    let n = data.len() / EVENT_SIZE as nat;
    lemma_encode_decode(data, n);
    assert(decode(data).take(n as int) =~= decode(data));
}

/// A partial record at the end of a read is ignored.
pub proof fn law_partial_record_is_ignored(data: Seq<u8>)
    ensures
        decode(data) == decode(data.take(EVENT_SIZE * (data.len() / EVENT_SIZE as nat))),
{
    let n = data.len() / EVENT_SIZE as nat;
    let whole = data.take(EVENT_SIZE * n);
    assert(whole.len() / EVENT_SIZE as nat == n);
    assert forall|i: int| 0 <= i < n implies decode(data)[i] == decode(whole)[i] by {
        assert(data.subrange(EVENT_SIZE * i, EVENT_SIZE * i + EVENT_SIZE) =~= whole.subrange(
            EVENT_SIZE * i,
            EVENT_SIZE * i + EVENT_SIZE,
        ));
    }
    assert(decode(data) =~= decode(whole));
}

/// Letting go of a release that is due, with nothing from the mouse, is the
/// same as filtering an empty batch.
pub proof fn law_flush_is_an_empty_batch(filter: Filter, now: Instant)
    ensures
        batch_out(filter, Seq::empty(), now) == confirmation(filter, now),
        batch_after(filter, Seq::empty(), now) == filter.after_confirm(now),
{
    assert(batch_out(filter, Seq::empty(), now) =~= confirmation(filter, now));
}

/// A release that is let go at the end of a batch comes with the frame end that
/// makes it visible, after everything else of its batch.
pub proof fn law_flushed_release_closes_its_frame(
    filter: Filter,
    events: Seq<InputEvent>,
    now: Instant,
)
    ensures
        ({
            let out = batch_out(filter, events, now);
            filter_after(filter, events, now).released(now) matches Some(release) ==> {
                &&& out == let_through(filter, events, now) + seq![release, InputEvent::frame_end()]
                &&& out.last() == InputEvent::frame_end()
            }
        }),
{
}

/// Whether none of `events` presses the left button.
pub open spec fn has_no_press(events: Seq<InputEvent>) -> bool {
    forall|i: int| 0 <= i < events.len() ==> !(#[trigger] events[i]).is_left_press()
}

proof fn lemma_without_press(filter: Filter, events: Seq<InputEvent>, now: Instant)
    requires
        filter.wf(),
        has_no_press(events),
    ensures
        filter_after(filter, events, now).wf(),
        filter.held_release is Some ==> filter_after(filter, events, now).held_release
            == filter.held_release,
        let_through(filter, events, now) == passed(filter, events, now),
    decreases events.len(),
{
    if events.len() > 0 {
        let earlier = events.drop_last();
        assert forall|i: int| 0 <= i < earlier.len() implies !(
        #[trigger] earlier[i]).is_left_press() by {
            assert(earlier[i] == events[i]);
        }
        lemma_without_press(filter, earlier, now);
        assert(!events[events.len() - 1].is_left_press());
        assert(let_through(filter, earlier, now) + Seq::<InputEvent>::empty() =~= let_through(
            filter,
            earlier,
            now,
        ));
    }
}

/// A held release goes out with the first batch at or after its deadline: if
/// the batch does not press the button again, behind what passes of it. Before
/// the deadline it stays held.
pub proof fn law_held_release_goes_out_when_due(
    filter: Filter,
    events: Seq<InputEvent>,
    now: Instant,
)
    requires
        filter.wf(),
        filter.held_release is Some,
        has_no_press(events),
    ensures
        match filter.released(now) {
            Some(release) => {
                &&& batch_out(filter, events, now) == passed(filter, events, now) + seq![
                    release,
                    InputEvent::frame_end(),
                ]
                &&& batch_after(filter, events, now).held_release is None
                &&& !batch_after(filter, events, now).left_down
            },
            None => {
                &&& batch_out(filter, events, now) == passed(filter, events, now)
                &&& batch_after(filter, events, now).held_release == filter.held_release
                &&& batch_after(filter, events, now).left_down
            },
        },
{
    lemma_without_press(filter, events, now);
    lemma_filter_after_wf(filter, events, now);
    assert(passed(filter, events, now) + Seq::<InputEvent>::empty() =~= passed(
        filter,
        events,
        now,
    ));
}

/// If a batch at or after the deadline does press the button again, the held
/// release goes out, its frame closed, right before the first press, which is
/// then no bounce.
pub proof fn law_due_release_goes_out_before_a_press(
    filter: Filter,
    before: Seq<InputEvent>,
    press: InputEvent,
    now: Instant,
)
    requires
        filter.wf(),
        has_no_press(before),
        press.is_left_press(),
    ensures
        filter.released(now) matches Some(release) ==> {
            let found = filter_after(filter, before, now).after_confirm(now);
            &&& found.note(press, now) != Some(Note::BounceRepress)
            &&& let_through(filter, before.push(press), now) == passed(filter, before, now) + seq![
                release,
                InputEvent::frame_end(),
            ] + if found.note(press, now) is None {
                seq![press]
            } else {
                Seq::empty()
            }
        },
{
    lemma_without_press(filter, before, now);
    assert(before.push(press).drop_last() =~= before);
    if let Some(release) = filter.released(now) {
        let sent = passed(filter, before, now) + seq![release, InputEvent::frame_end()];
        assert(sent + seq![press] =~= sent.push(press));
        assert(sent + Seq::<InputEvent>::empty() =~= sent);
    }
}

proof fn lemma_batch_add(filter: Filter, a: Seq<InputEvent>, b: Seq<InputEvent>, now: Instant)
    ensures
        filter_after(filter, a + b, now) == filter_after(filter_after(filter, a, now), b, now),
        let_through(filter, a + b, now) == let_through(filter, a, now) + let_through(
            filter_after(filter, a, now),
            b,
            now,
        ),
    decreases b.len(),
{
    if b.len() == 0 {
        assert(a + b =~= a);
        assert(let_through(filter, a, now) + Seq::<InputEvent>::empty() =~= let_through(
            filter,
            a,
            now,
        ));
    } else {
        lemma_batch_add(filter, a, b.drop_last(), now);
        assert((a + b).drop_last() =~= a + b.drop_last());
        let ev = b.last();
        let between = filter_after(filter, a, now);
        let before = filter_after(between, b.drop_last(), now);
        let lead = if ev.is_left_press() {
            confirmation(before, now)
        } else {
            Seq::empty()
        };
        let x = let_through(filter, a, now);
        let y = let_through(between, b.drop_last(), now);
        assert((a + b).last() == ev);
        assert(let_through(filter, a + b.drop_last(), now) == x + y);
        assert((x + y) + lead =~= x + (y + lead));
        assert(((x + y) + lead).push(ev) =~= x + (y + lead).push(ev));
    }
}

/// It makes no difference how events that arrive at one time are split into
/// batches, as long as no release falls due between them.
pub proof fn law_batches_may_be_split(
    filter: Filter,
    a: Seq<InputEvent>,
    b: Seq<InputEvent>,
    now: Instant,
)
    requires
        !filter_after(filter, a, now).release_is_due(now),
    ensures
        batch_out(filter, a + b, now) == batch_out(filter, a, now) + batch_out(
            batch_after(filter, a, now),
            b,
            now,
        ),
        batch_after(filter, a + b, now) == batch_after(batch_after(filter, a, now), b, now),
{
    lemma_batch_add(filter, a, b, now);
    assert(batch_out(filter, a + b, now) =~= batch_out(filter, a, now) + batch_out(
        batch_after(filter, a, now),
        b,
        now,
    ));
}

/// Whatever is not about the left button passes within its own batch, all of it
/// and in order.
pub proof fn law_other_events_pass_within_their_batch(
    filter: Filter,
    events: Seq<InputEvent>,
    now: Instant,
)
    ensures
        passed(filter, events, now).filter(|ev: InputEvent| !ev.is_left()) == events.filter(
            |ev: InputEvent| !ev.is_left(),
        ),
    decreases events.len(),
{
    reveal(Seq::filter);
    if events.len() > 0 {
        law_other_events_pass_within_their_batch(filter, events.drop_last(), now);
        let earlier = passed(filter, events.drop_last(), now);
        assert(earlier.push(events.last()).drop_last() =~= earlier);
    }
}

/// The diagnostics among `notes` that are about a swallowed event.
pub open spec fn swallowed_of(notes: Seq<Diagnostic>) -> Seq<Diagnostic> {
    notes.filter(|note: Diagnostic| note is Swallowed)
}

/// Every event either passes or is noted as swallowed, never both.
pub proof fn law_every_event_passes_or_is_noted(
    filter: Filter,
    events: Seq<InputEvent>,
    now: Instant,
)
    ensures
        passed(filter, events, now).len() + swallowed_of(noted(filter, events, now)).len()
            == events.len(),
    decreases events.len(),
{
    reveal_with_fuel(Seq::filter, 2);
    if events.len() > 0 {
        let ev = events.last();
        let pred = |note: Diagnostic| note is Swallowed;
        let earlier = noted(filter, events.drop_last(), now);
        let before = filter_after(filter, events.drop_last(), now);
        law_every_event_passes_or_is_noted(filter, events.drop_last(), now);
        let lead = if ev.is_left_press() {
            confirmation_note(before, now)
        } else {
            Seq::empty()
        };
        Seq::filter_distributes_over_add(earlier, lead, pred);
        if lead.len() > 0 {
            assert(lead.drop_last() =~= Seq::empty());
        }
        assert(lead.filter(pred) =~= Seq::empty());
        if let Some(note) = ready_for(before, ev, now).note(ev, now) {
            let last = Diagnostic::Swallowed(ev, note);
            assert((earlier + lead).push(last).drop_last() =~= earlier + lead);
        }
    }
}

// Any number of batches.

/// The bytes of one read, and when they were read. No bytes at all stand for
/// time passing with nothing arriving.
pub struct Batch {
    pub data: Seq<u8>,
    pub now: Instant,
}

/// The filter after `batches`, one after the other.
pub open spec fn session_after(filter: Filter, batches: Seq<Batch>) -> Filter
    decreases batches.len(),
{
    if batches.len() == 0 {
        filter
    } else {
        let last = batches.last();
        batch_after(session_after(filter, batches.drop_last()), decode(last.data), last.now)
    }
}

/// The bytes that go out for `batches`, one after the other.
pub open spec fn session_wire(filter: Filter, batches: Seq<Batch>) -> Seq<u8>
    decreases batches.len(),
{
    if batches.len() == 0 {
        Seq::empty()
    } else {
        let last = batches.last();
        session_wire(filter, batches.drop_last()) + encode(
            batch_out(session_after(filter, batches.drop_last()), decode(last.data), last.now),
        )
    }
}

/// The events that come in with `batches`, one after the other.
pub open spec fn session_in(batches: Seq<Batch>) -> Seq<InputEvent>
    decreases batches.len(),
{
    if batches.len() == 0 {
        Seq::empty()
    } else {
        session_in(batches.drop_last()) + decode(batches.last().data)
    }
}

/// The events that go out for `batches`.
pub open spec fn session_out(filter: Filter, batches: Seq<Batch>) -> Seq<InputEvent> {
    decode(session_wire(filter, batches))
}

proof fn lemma_session_out(filter: Filter, batches: Seq<Batch>)
    ensures
        session_wire(filter, batches) == encode(session_out(filter, batches)),
        batches.len() > 0 ==> session_out(filter, batches) == session_out(
            filter,
            batches.drop_last(),
        ) + batch_out(
            session_after(filter, batches.drop_last()),
            decode(batches.last().data),
            batches.last().now,
        ),
        batches.len() == 0 ==> session_out(filter, batches) == Seq::<InputEvent>::empty(),
    decreases batches.len(),
{
    if batches.len() == 0 {
        law_events_survive_the_wire(Seq::empty());
    } else {
        let last = batches.last();
        let earlier = session_out(filter, batches.drop_last());
        let new = batch_out(
            session_after(filter, batches.drop_last()),
            decode(last.data),
            last.now,
        );
        lemma_session_out(filter, batches.drop_last());
        lemma_encode_add(earlier, new);
        law_events_survive_the_wire(earlier + new);
    }
}

/// The calls of the filter that the arrival of `events` at `now` comes to.
pub open spec fn arrival_calls(events: Seq<InputEvent>, now: Instant) -> Seq<Call>
    decreases events.len(),
{
    if events.len() == 0 {
        Seq::empty()
    } else {
        let earlier = arrival_calls(events.drop_last(), now);
        let ready = if events.last().is_left_press() {
            earlier.push(Call::Confirm(now))
        } else {
            earlier
        };
        ready.push(Call::Event(events.last(), now))
    }
}

/// The calls of the filter that `batches` come to: one for every event, one
/// before every press, and one at the end of every batch.
pub open spec fn calls_of(batches: Seq<Batch>) -> Seq<Call>
    decreases batches.len(),
{
    if batches.len() == 0 {
        Seq::empty()
    } else {
        let last = batches.last();
        calls_of(batches.drop_last()) + arrival_calls(decode(last.data), last.now).push(
            Call::Confirm(last.now),
        )
    }
}

proof fn lemma_calls_add(filter: Filter, a: Seq<Call>, b: Seq<Call>)
    ensures
        calls_after(filter, a + b) == calls_after(calls_after(filter, a), b),
        calls_out(filter, a + b) == calls_out(filter, a) + calls_out(calls_after(filter, a), b),
    decreases b.len(),
{
    if b.len() == 0 {
        assert(a + b =~= a);
        assert(calls_out(filter, a) + Seq::<InputEvent>::empty() =~= calls_out(filter, a));
    } else {
        lemma_calls_add(filter, a, b.drop_last());
        assert((a + b).drop_last() =~= a + b.drop_last());
        assert(calls_out(filter, a + b) =~= calls_out(filter, a) + calls_out(
            calls_after(filter, a),
            b,
        ));
    }
}

proof fn lemma_edges_of_confirmation(filter: Filter, now: Instant)
    requires
        filter.wf(),
    ensures
        left_edges(confirmation(filter, now)) == left_edges(call_out(filter, Call::Confirm(now))),
{
    reveal_with_fuel(Seq::filter, 3);
    lemma_edges_of_call(filter, Call::Confirm(now));
    if let Some(release) = filter.released(now) {
        let pair = seq![release, InputEvent::frame_end()];
        assert(pair.drop_last() =~= seq![release]);
        assert(seq![release].drop_last() =~= Seq::empty());
        assert(Seq::<InputEvent>::empty().push(release) =~= seq![release]);
    }
}

proof fn lemma_arrival_is_calls(filter: Filter, events: Seq<InputEvent>, now: Instant)
    requires
        filter.wf(),
    ensures
        filter_after(filter, events, now) == calls_after(filter, arrival_calls(events, now)),
        left_edges(let_through(filter, events, now)) == left_edges(
            calls_out(filter, arrival_calls(events, now)),
        ),
    decreases events.len(),
{
    if events.len() > 0 {
        let ev = events.last();
        let before = filter_after(filter, events.drop_last(), now);
        let sent = let_through(filter, events.drop_last(), now);
        let earlier = arrival_calls(events.drop_last(), now);
        lemma_arrival_is_calls(filter, events.drop_last(), now);
        lemma_filter_after_wf(filter, events.drop_last(), now);
        let call = Call::Event(ev, now);
        let found = ready_for(before, ev, now);
        let lead = if ev.is_left_press() {
            confirmation(before, now)
        } else {
            Seq::empty()
        };
        let ready = if ev.is_left_press() {
            earlier.push(Call::Confirm(now))
        } else {
            earlier
        };
        // The calls up to the event itself.
        if ev.is_left_press() {
            assert(ready.drop_last() =~= earlier);
            lemma_edges_of_confirmation(before, now);
            lemma_edges_add(calls_out(filter, earlier), call_out(before, Call::Confirm(now)));
        }
        lemma_edges_add(sent, lead);
        assert(!ev.is_left_press() ==> sent + lead =~= sent);
        assert(left_edges(sent + lead) == left_edges(calls_out(filter, ready)));
        assert(calls_after(filter, ready) == found);
        // The event itself.
        assert(ready.push(call).drop_last() =~= ready);
        lemma_edges_add(sent + lead, call_out(found, call));
        lemma_edges_add(calls_out(filter, ready), call_out(found, call));
        assert(let_through(filter, events, now) =~= (sent + lead) + call_out(found, call));
    }
}

/// Batches are nothing but calls of the filter: they leave it the same, and send
/// on the same edges of the left button. So what holds of any number of calls
/// holds of any number of batches.
pub proof fn law_batches_are_calls(filter: Filter, batches: Seq<Batch>)
    requires
        filter.wf(),
    ensures
        session_after(filter, batches) == calls_after(filter, calls_of(batches)),
        left_edges(session_out(filter, batches)) == left_edges(
            calls_out(filter, calls_of(batches)),
        ),
    decreases batches.len(),
{
    lemma_session_out(filter, batches);
    if batches.len() > 0 {
        let earlier = batches.drop_last();
        let last = batches.last();
        let f = session_after(filter, earlier);
        let events = decode(last.data);
        let g = filter_after(f, events, last.now);
        let arrival = arrival_calls(events, last.now);
        let calls = arrival.push(Call::Confirm(last.now));
        law_batches_are_calls(filter, earlier);
        lemma_session_wf(filter, earlier);
        lemma_filter_after_wf(f, events, last.now);
        lemma_arrival_is_calls(f, events, last.now);
        lemma_edges_of_confirmation(g, last.now);
        assert(calls.drop_last() =~= arrival);
        lemma_edges_add(let_through(f, events, last.now), confirmation(g, last.now));
        lemma_edges_add(calls_out(f, arrival), call_out(g, Call::Confirm(last.now)));
        lemma_calls_add(filter, calls_of(earlier), calls);
        lemma_edges_add(session_out(filter, earlier), batch_out(f, events, last.now));
        lemma_edges_add(calls_out(filter, calls_of(earlier)), calls_out(f, calls));
    }
}

/// Whether the event is neither a frame end nor about the left button.
pub open spec fn is_data(ev: InputEvent) -> bool {
    ev.type_ != EV_SYN && !ev.is_left()
}

/// The data among `events`.
pub open spec fn data_of(events: Seq<InputEvent>) -> Seq<InputEvent> {
    events.filter(|ev: InputEvent| is_data(ev))
}

proof fn lemma_data_passes(filter: Filter, events: Seq<InputEvent>, now: Instant)
    requires
        filter.wf(),
    ensures
        data_of(let_through(filter, events, now)) == data_of(events),
    decreases events.len(),
{
    reveal(Seq::filter);
    if events.len() > 0 {
        let pred = |ev: InputEvent| is_data(ev);
        let ev = events.last();
        let earlier = let_through(filter, events.drop_last(), now);
        let before = filter_after(filter, events.drop_last(), now);
        lemma_data_passes(filter, events.drop_last(), now);
        lemma_filter_after_wf(filter, events.drop_last(), now);
        lemma_confirmation_is_no_data(before, now);
        let lead = if ev.is_left_press() {
            confirmation(before, now)
        } else {
            Seq::empty()
        };
        Seq::filter_distributes_over_add(earlier, lead, pred);
        assert(data_of(earlier + lead) =~= data_of(earlier));
        assert((earlier + lead).push(ev).drop_last() =~= earlier + lead);
    }
}

/// No event that is not about the left button is ever lost, delayed past its
/// batch or reordered: what goes out is what came in, one for one and in the
/// same order, timestamps and all, left button and frame ends aside.
pub proof fn law_no_other_event_is_ever_lost(filter: Filter, batches: Seq<Batch>)
    requires
        filter.wf(),
    ensures
        data_of(session_out(filter, batches)) == data_of(session_in(batches)),
    decreases batches.len(),
{
    let pred = |ev: InputEvent| is_data(ev);
    lemma_session_out(filter, batches);
    if batches.len() > 0 {
        let earlier = batches.drop_last();
        let last = batches.last();
        let f = session_after(filter, earlier);
        let events = decode(last.data);
        law_no_other_event_is_ever_lost(filter, earlier);
        lemma_session_wf(filter, earlier);
        lemma_filter_after_wf(f, events, last.now);
        lemma_data_passes(f, events, last.now);
        let tail = confirmation(filter_after(f, events, last.now), last.now);
        lemma_confirmation_is_no_data(filter_after(f, events, last.now), last.now);
        Seq::filter_distributes_over_add(let_through(f, events, last.now), tail, pred);
        Seq::filter_distributes_over_add(
            session_out(filter, earlier),
            batch_out(f, events, last.now),
            pred,
        );
        Seq::filter_distributes_over_add(session_in(earlier), events, pred);
        assert(data_of(batch_out(f, events, last.now)) =~= data_of(events));
    }
}

proof fn lemma_confirmation_is_no_data(filter: Filter, now: Instant)
    requires
        filter.wf(),
    ensures
        data_of(confirmation(filter, now)) == Seq::<InputEvent>::empty(),
{
    reveal_with_fuel(Seq::filter, 3);
    if let Some(release) = filter.released(now) {
        let pair = seq![release, InputEvent::frame_end()];
        assert(pair.drop_last() =~= seq![release]);
        assert(seq![release].drop_last() =~= Seq::empty());
    }
}

proof fn lemma_filter_after_wf(filter: Filter, events: Seq<InputEvent>, now: Instant)
    requires
        filter.wf(),
    ensures
        filter_after(filter, events, now).wf(),
        filter_after(filter, events, now).cfg == filter.cfg,
    decreases events.len(),
{
    if events.len() > 0 {
        lemma_filter_after_wf(filter, events.drop_last(), now);
    }
}

proof fn lemma_session_wf(filter: Filter, batches: Seq<Batch>)
    requires
        filter.wf(),
    ensures
        session_after(filter, batches).wf(),
        session_after(filter, batches).cfg == filter.cfg,
    decreases batches.len(),
{
    if batches.len() > 0 {
        lemma_session_wf(filter, batches.drop_last());
        lemma_filter_after_wf(
            session_after(filter, batches.drop_last()),
            decode(batches.last().data),
            batches.last().now,
        );
    }
}

/// Whether `ev` is a frame end of the filter's own or one of `events`.
pub open spec fn is_accounted_for(ev: InputEvent, events: Seq<InputEvent>) -> bool {
    ev == InputEvent::frame_end() || events.contains(ev)
}

proof fn lemma_batch_invents_nothing(
    filter: Filter,
    events: Seq<InputEvent>,
    now: Instant,
    seen: Seq<InputEvent>,
)
    requires
        filter.held_release matches Some((ev, _)) ==> seen.contains(ev),
        forall|i: int| 0 <= i < events.len() ==> seen.contains(#[trigger] events[i]),
    ensures
        filter_after(filter, events, now).held_release matches Some((ev, _)) ==> seen.contains(ev),
        forall|i: int|
            0 <= i < let_through(filter, events, now).len() ==> is_accounted_for(
                #[trigger] let_through(filter, events, now)[i],
                seen,
            ),
    decreases events.len(),
{
    if events.len() > 0 {
        let earlier = events.drop_last();
        assert forall|i: int| 0 <= i < earlier.len() implies seen.contains(
            #[trigger] earlier[i],
        ) by {
            assert(earlier[i] == events[i]);
        }
        lemma_batch_invents_nothing(filter, earlier, now, seen);
        assert(seen.contains(events[events.len() - 1]));
        let before = let_through(filter, earlier, now);
        let through = let_through(filter, events, now);
        assert forall|i: int| 0 <= i < through.len() implies is_accounted_for(
            #[trigger] through[i],
            seen,
        ) by {
            if i < before.len() {
                assert(through[i] == before[i]);
            }
        }
    }
}

proof fn lemma_session_holds_what_came(filter: Filter, batches: Seq<Batch>)
    requires
        filter.held_release is None,
    ensures
        session_after(filter, batches).held_release matches Some((ev, _)) ==> session_in(
            batches,
        ).contains(ev),
        forall|i: int|
            0 <= i < session_out(filter, batches).len() ==> is_accounted_for(
                #[trigger] session_out(filter, batches)[i],
                session_in(batches),
            ),
    decreases batches.len(),
{
    lemma_session_out(filter, batches);
    if batches.len() > 0 {
        let earlier = batches.drop_last();
        let last = batches.last();
        let f = session_after(filter, earlier);
        let events = decode(last.data);
        let before = session_in(earlier);
        let seen = session_in(batches);
        lemma_session_holds_what_came(filter, earlier);
        assert forall|ev: InputEvent| before.contains(ev) implies seen.contains(ev) by {
            let i = choose|i: int| 0 <= i < before.len() && before[i] == ev;
            assert(seen[i] == ev);
        }
        assert forall|i: int| 0 <= i < events.len() implies seen.contains(#[trigger] events[i]) by {
            assert(seen[before.len() + i] == events[i]);
        }
        lemma_batch_invents_nothing(f, events, last.now, seen);
        let old_out = session_out(filter, earlier);
        let new_out = batch_out(f, events, last.now);
        let through = let_through(f, events, last.now);
        assert forall|i: int| 0 <= i < session_out(filter, batches).len() implies is_accounted_for(
            #[trigger] session_out(filter, batches)[i],
            seen,
        ) by {
            if i < old_out.len() {
                assert(is_accounted_for(old_out[i], before));
            } else if i < old_out.len() + through.len() {
                assert(is_accounted_for(through[i - old_out.len()], seen));
            }
        }
    }
}

/// Nothing is made up: every event that goes out came in at some time, but for
/// the frame ends that close a flushed release.
pub proof fn law_nothing_is_invented(cfg: Config, press_at: Instant, batches: Seq<Batch>, i: int)
    requires
        0 <= i < session_out(Filter::fresh(cfg, press_at), batches).len(),
    ensures
        is_accounted_for(
            session_out(Filter::fresh(cfg, press_at), batches)[i],
            session_in(batches),
        ),
{
    lemma_session_holds_what_came(Filter::fresh(cfg, press_at), batches);
}

/// Whether the left button is down after `events`, if it was `down` before
/// them; `None` if one of them releases a button that is up.
pub open spec fn down_after(events: Seq<InputEvent>, down: bool) -> Option<bool>
    decreases events.len(),
{
    if events.len() == 0 {
        Some(down)
    } else {
        match down_after(events.drop_last(), down) {
            Some(was_down) => if events.last().is_left_press() {
                Some(true)
            } else if events.last().is_left_release() {
                if was_down {
                    Some(false)
                } else {
                    None
                }
            } else {
                Some(was_down)
            },
            None => None,
        }
    }
}

/// As [`down_after`], but `None` also if one of `events` presses a button that
/// is down already: presses and releases take turns.
pub open spec fn taking_turns(events: Seq<InputEvent>, down: bool) -> Option<bool>
    decreases events.len(),
{
    if events.len() == 0 {
        Some(down)
    } else {
        match taking_turns(events.drop_last(), down) {
            Some(was_down) => if events.last().is_left_press() {
                if was_down {
                    None
                } else {
                    Some(true)
                }
            } else if events.last().is_left_release() {
                if was_down {
                    Some(false)
                } else {
                    None
                }
            } else {
                Some(was_down)
            },
            None => None,
        }
    }
}

proof fn lemma_down_after_add(a: Seq<InputEvent>, b: Seq<InputEvent>, down: bool)
    ensures
        down_after(a + b, down) == match down_after(a, down) {
            Some(between) => down_after(b, between),
            None => None,
        },
    decreases b.len(),
{
    if b.len() == 0 {
        assert(a + b =~= a);
    } else {
        assert((a + b).drop_last() =~= a + b.drop_last());
        lemma_down_after_add(a, b.drop_last(), down);
    }
}

proof fn lemma_taking_turns_add(a: Seq<InputEvent>, b: Seq<InputEvent>, down: bool)
    ensures
        taking_turns(a + b, down) == match taking_turns(a, down) {
            Some(between) => taking_turns(b, between),
            None => None,
        },
    decreases b.len(),
{
    if b.len() == 0 {
        assert(a + b =~= a);
    } else {
        assert((a + b).drop_last() =~= a + b.drop_last());
        lemma_taking_turns_add(a, b.drop_last(), down);
    }
}

proof fn lemma_batch_down(filter: Filter, events: Seq<InputEvent>, now: Instant)
    requires
        filter.wf(),
    ensures
        down_after(let_through(filter, events, now), filter.left_down) == Some(
            filter_after(filter, events, now).left_down,
        ),
    decreases events.len(),
{
    if events.len() > 0 {
        let ev = events.last();
        let before = filter_after(filter, events.drop_last(), now);
        let earlier = let_through(filter, events.drop_last(), now);
        lemma_batch_down(filter, events.drop_last(), now);
        lemma_filter_after_wf(filter, events.drop_last(), now);
        lemma_confirmation_down(before, now);
        let lead = if ev.is_left_press() {
            confirmation(before, now)
        } else {
            Seq::empty()
        };
        lemma_down_after_add(earlier, lead, filter.left_down);
        assert((earlier + lead).push(ev).drop_last() =~= earlier + lead);
    }
}

proof fn lemma_confirmation_down(filter: Filter, now: Instant)
    requires
        filter.wf(),
    ensures
        down_after(confirmation(filter, now), filter.left_down) == Some(
            filter.after_confirm(now).left_down,
        ),
        taking_turns(confirmation(filter, now), filter.left_down) == Some(
            filter.after_confirm(now).left_down,
        ),
{
    reveal_with_fuel(down_after, 3);
    reveal_with_fuel(taking_turns, 3);
    if let Some(release) = filter.released(now) {
        let pair = seq![release, InputEvent::frame_end()];
        assert(pair.drop_last() =~= seq![release]);
        assert(seq![release].drop_last() =~= Seq::empty());
    }
}

/// The compositor never sees the left button released without a press before,
/// whatever the mouse sends; and the filter always knows whether the compositor
/// sees it down.
pub proof fn law_compositor_sees_no_stray_release(filter: Filter, batches: Seq<Batch>)
    requires
        filter.wf(),
    ensures
        down_after(session_out(filter, batches), filter.left_down) == Some(
            session_after(filter, batches).left_down,
        ),
    decreases batches.len(),
{
    lemma_session_out(filter, batches);
    if batches.len() > 0 {
        let earlier = batches.drop_last();
        let last = batches.last();
        let f = session_after(filter, earlier);
        let events = decode(last.data);
        law_compositor_sees_no_stray_release(filter, earlier);
        lemma_session_wf(filter, earlier);
        lemma_batch_down(f, events, last.now);
        lemma_filter_after_wf(f, events, last.now);
        let g = filter_after(f, events, last.now);
        lemma_confirmation_down(g, last.now);
        lemma_down_after_add(
            let_through(f, events, last.now),
            confirmation(g, last.now),
            f.left_down,
        );
        lemma_down_after_add(
            session_out(filter, earlier),
            batch_out(f, events, last.now),
            filter.left_down,
        );
    }
}

/// How the filter stands to the physical button: while that is up, the filter
/// has it down only for the sake of a release it holds back, and expects no
/// phantom's release; while it is down, either the filter has it down and holds
/// nothing back, or it took the press for a phantom.
pub open spec fn tracks(filter: Filter, physically_down: bool) -> bool {
    if physically_down {
        if filter.drop_next_release {
            filter.left_down == (filter.held_release is Some)
        } else {
            filter.left_down && filter.held_release is None
        }
    } else {
        filter.left_down == (filter.held_release is Some) && !filter.drop_next_release
    }
}

proof fn lemma_batch_turns(
    filter: Filter,
    events: Seq<InputEvent>,
    now: Instant,
    physically_down: bool,
)
    requires
        filter.wf(),
        tracks(filter, physically_down),
        taking_turns(events, physically_down) is Some,
    ensures
        taking_turns(let_through(filter, events, now), filter.left_down) == Some(
            filter_after(filter, events, now).left_down,
        ),
        tracks(filter_after(filter, events, now), taking_turns(events, physically_down)->0),
    decreases events.len(),
{
    if events.len() > 0 {
        let ev = events.last();
        let before = filter_after(filter, events.drop_last(), now);
        let earlier = let_through(filter, events.drop_last(), now);
        lemma_batch_turns(filter, events.drop_last(), now, physically_down);
        lemma_filter_after_wf(filter, events.drop_last(), now);
        lemma_confirmation_down(before, now);
        let lead = if ev.is_left_press() {
            confirmation(before, now)
        } else {
            Seq::empty()
        };
        lemma_taking_turns_add(earlier, lead, filter.left_down);
        assert((earlier + lead).push(ev).drop_last() =~= earlier + lead);
    }
}

/// If the mouse presses and releases its left button in turns, so does what the
/// compositor sees: every press it sees is released before the next one, and no
/// release comes twice.
pub proof fn law_clicks_stay_whole(filter: Filter, batches: Seq<Batch>, physically_down: bool)
    requires
        filter.wf(),
        tracks(filter, physically_down),
        taking_turns(session_in(batches), physically_down) is Some,
    ensures
        taking_turns(session_out(filter, batches), filter.left_down) == Some(
            session_after(filter, batches).left_down,
        ),
        tracks(
            session_after(filter, batches),
            taking_turns(session_in(batches), physically_down)->0,
        ),
    decreases batches.len(),
{
    lemma_session_out(filter, batches);
    if batches.len() > 0 {
        let earlier = batches.drop_last();
        let last = batches.last();
        let f = session_after(filter, earlier);
        let events = decode(last.data);
        lemma_taking_turns_add(session_in(earlier), events, physically_down);
        law_clicks_stay_whole(filter, earlier, physically_down);
        lemma_session_wf(filter, earlier);
        let between = taking_turns(session_in(earlier), physically_down)->0;
        lemma_batch_turns(f, events, last.now, between);
        lemma_filter_after_wf(f, events, last.now);
        let g = filter_after(f, events, last.now);
        lemma_confirmation_down(g, last.now);
        lemma_taking_turns_add(
            let_through(f, events, last.now),
            confirmation(g, last.now),
            f.left_down,
        );
        lemma_taking_turns_add(
            session_out(filter, earlier),
            batch_out(f, events, last.now),
            filter.left_down,
        );
    }
}

proof fn lemma_call_down(filter: Filter, call: Call)
    requires
        filter.wf(),
    ensures
        down_after(call_out(filter, call), filter.left_down) == Some(
            call_after(filter, call).left_down,
        ),
{
    reveal_with_fuel(down_after, 2);
    let out = call_out(filter, call);
    if out.len() > 0 {
        assert(out.drop_last() =~= Seq::empty());
    }
}

/// Whatever calls are made of the filter, no release is sent on while the
/// compositor sees the button up: each has a press before it, and none comes
/// twice; and the filter always knows whether the compositor sees it down.
pub proof fn law_calls_send_no_stray_release(filter: Filter, calls: Seq<Call>)
    requires
        filter.wf(),
    ensures
        down_after(calls_out(filter, calls), filter.left_down) == Some(
            calls_after(filter, calls).left_down,
        ),
    decreases calls.len(),
{
    if calls.len() > 0 {
        let earlier = calls.drop_last();
        let before = calls_after(filter, earlier);
        law_calls_send_no_stray_release(filter, earlier);
        lemma_calls_wf(filter, earlier);
        lemma_call_down(before, calls.last());
        lemma_down_after_add(
            calls_out(filter, earlier),
            call_out(before, calls.last()),
            filter.left_down,
        );
    }
}

/// The events that `calls` bring.
pub open spec fn events_given(calls: Seq<Call>) -> Seq<InputEvent>
    decreases calls.len(),
{
    if calls.len() == 0 {
        Seq::empty()
    } else {
        match calls.last() {
            Call::Event(ev, _) => events_given(calls.drop_last()).push(ev),
            Call::Confirm(_) => events_given(calls.drop_last()),
        }
    }
}

/// If the events given to the filter press and release the left button in turns,
/// so do those it sends on. The calls may be any in which no press passes in
/// front of a release that is due: such a press finds the button down.
pub proof fn law_calls_keep_clicks_whole(filter: Filter, calls: Seq<Call>, physically_down: bool)
    requires
        filter.wf(),
        tracks(filter, physically_down),
        taking_turns(events_given(calls), physically_down) is Some,
        no_press_overtakes(filter, calls),
    ensures
        taking_turns(calls_out(filter, calls), filter.left_down) == Some(
            calls_after(filter, calls).left_down,
        ),
        tracks(
            calls_after(filter, calls),
            taking_turns(events_given(calls), physically_down)->0,
        ),
    decreases calls.len(),
{
    if calls.len() > 0 {
        let earlier = calls.drop_last();
        let before = calls_after(filter, earlier);
        let call = calls.last();
        let given = events_given(earlier);
        if let Call::Event(ev, _) = call {
            assert(given.push(ev).drop_last() =~= given);
        }
        lemma_last_call(filter, calls);
        law_calls_keep_clicks_whole(filter, earlier, physically_down);
        lemma_calls_wf(filter, earlier);
        let out = call_out(before, call);
        assert(taking_turns(out, before.left_down) == Some(call_after(before, call).left_down)) by {
            reveal_with_fuel(taking_turns, 2);
            if out.len() > 0 {
                assert(out.drop_last() =~= Seq::empty());
            }
        }
        lemma_taking_turns_add(calls_out(filter, earlier), out, filter.left_down);
    }
}

proof fn lemma_confirms_first_add(filter: Filter, a: Seq<Call>, b: Seq<Call>)
    requires
        confirms_first(filter, a),
        confirms_first(calls_after(filter, a), b),
    ensures
        confirms_first(filter, a + b),
{
    let calls = a + b;
    assert forall|i: int| 0 <= i < calls.len() implies !finds_due(
        calls_after(filter, calls.take(i)),
        #[trigger] calls[i],
    ) by {
        if i < a.len() {
            assert(calls.take(i) =~= a.take(i));
            assert(calls[i] == a[i]);
        } else {
            let k = i - a.len();
            assert(calls.take(i) =~= a + b.take(k));
            assert(calls[i] == b[k]);
            lemma_calls_add(filter, a, b.take(k));
        }
    }
}

proof fn lemma_one_call_confirms_first(filter: Filter, calls: Seq<Call>, call: Call)
    requires
        confirms_first(filter, calls),
        !finds_due(calls_after(filter, calls), call),
    ensures
        confirms_first(filter, calls.push(call)),
{
    let one = seq![call];
    let after = calls_after(filter, calls);
    assert forall|i: int| 0 <= i < one.len() implies !finds_due(
        calls_after(after, one.take(i)),
        #[trigger] one[i],
    ) by {
        assert(one.take(0) =~= Seq::empty());
    }
    lemma_confirms_first_add(filter, calls, one);
    assert(calls + one =~= calls.push(call));
}

proof fn lemma_arrival_confirms_first(filter: Filter, events: Seq<InputEvent>, now: Instant)
    ensures
        confirms_first(filter, arrival_calls(events, now)),
    decreases events.len(),
{
    if events.len() > 0 {
        let ev = events.last();
        let earlier = arrival_calls(events.drop_last(), now);
        lemma_arrival_confirms_first(filter, events.drop_last(), now);
        if ev.is_left_press() {
            let ready = earlier.push(Call::Confirm(now));
            lemma_one_call_confirms_first(filter, earlier, Call::Confirm(now));
            assert(ready.drop_last() =~= earlier);
            lemma_one_call_confirms_first(filter, ready, Call::Event(ev, now));
        } else {
            lemma_one_call_confirms_first(filter, earlier, Call::Event(ev, now));
        }
    }
}

/// Batches let go of a release that is due before every press, so that what
/// holds of calls that do holds of any number of batches.
pub proof fn law_batches_confirm_first(filter: Filter, batches: Seq<Batch>)
    ensures
        confirms_first(filter, calls_of(batches)),
        no_press_overtakes(filter, calls_of(batches)),
        no_phantom_finds_due(filter, calls_of(batches)),
    decreases batches.len(),
{
    if batches.len() > 0 {
        let earlier = calls_of(batches.drop_last());
        let last = batches.last();
        let arrival = arrival_calls(decode(last.data), last.now);
        let between = calls_after(filter, earlier);
        law_batches_confirm_first(filter, batches.drop_last());
        lemma_arrival_confirms_first(between, decode(last.data), last.now);
        lemma_one_call_confirms_first(between, arrival, Call::Confirm(last.now));
        lemma_confirms_first_add(filter, earlier, arrival.push(Call::Confirm(last.now)));
    }
}

/// A new filter stands to a button that is up as it should.
pub proof fn law_new_filter_is_ready(cfg: Config, press_at: Instant)
    requires
        cfg.wf(),
    ensures
        Filter::fresh(cfg, press_at).wf(),
        !Filter::fresh(cfg, press_at).left_down,
        tracks(Filter::fresh(cfg, press_at), false),
{
}

/// With a release window of zero nothing is ever delayed: what goes out for a
/// batch is what passes of it.
pub proof fn law_without_hold_nothing_is_delayed(
    filter: Filter,
    events: Seq<InputEvent>,
    now: Instant,
)
    requires
        filter.wf(),
        filter.cfg.release_window.nanos == 0,
    ensures
        batch_out(filter, events, now) == passed(filter, events, now),
        batch_after(filter, events, now).held_release is None,
{
    lemma_without_hold(filter, events, now);
    assert(passed(filter, events, now) + Seq::<InputEvent>::empty() =~= passed(
        filter,
        events,
        now,
    ));
}

proof fn lemma_without_hold(filter: Filter, events: Seq<InputEvent>, now: Instant)
    requires
        filter.wf(),
        filter.cfg.release_window.nanos == 0,
    ensures
        filter_after(filter, events, now).held_release is None,
        let_through(filter, events, now) == passed(filter, events, now),
    decreases events.len(),
{
    lemma_filter_after_wf(filter, events, now);
    if events.len() > 0 {
        let earlier = events.drop_last();
        lemma_without_hold(filter, earlier, now);
        assert(passed(filter, earlier, now) + Seq::<InputEvent>::empty() =~= passed(
            filter,
            earlier,
            now,
        ));
    }
}

/// Whether `a` and `b` differ at most in the time of a press that never was.
pub open spec fn alike(a: Filter, b: Filter) -> bool {
    a == b || (a.last_press is None && b == Filter { press_at: b.press_at, ..a })
}

proof fn lemma_alike_batch(a: Filter, b: Filter, events: Seq<InputEvent>, now: Instant)
    requires
        a.wf(),
        alike(a, b),
    ensures
        alike(filter_after(a, events, now), filter_after(b, events, now)),
        let_through(a, events, now) == let_through(b, events, now),
    decreases events.len(),
{
    if events.len() > 0 {
        lemma_alike_batch(a, b, events.drop_last(), now);
        lemma_filter_after_wf(a, events.drop_last(), now);
    }
}

/// What a new filter takes for the time of the last press makes no difference
/// to what goes out, ever.
pub proof fn law_initial_press_time_is_never_read(
    cfg: Config,
    t: Instant,
    u: Instant,
    batches: Seq<Batch>,
)
    requires
        cfg.wf(),
    ensures
        session_wire(Filter::fresh(cfg, t), batches) == session_wire(
            Filter::fresh(cfg, u),
            batches,
        ),
        alike(
            session_after(Filter::fresh(cfg, t), batches),
            session_after(Filter::fresh(cfg, u), batches),
        ),
{
    lemma_alike_session(Filter::fresh(cfg, t), Filter::fresh(cfg, u), batches);
}

proof fn lemma_alike_session(a: Filter, b: Filter, batches: Seq<Batch>)
    requires
        a.wf(),
        alike(a, b),
    ensures
        session_wire(a, batches) == session_wire(b, batches),
        alike(session_after(a, batches), session_after(b, batches)),
    decreases batches.len(),
{
    if batches.len() > 0 {
        let earlier = batches.drop_last();
        let last = batches.last();
        lemma_alike_session(a, b, earlier);
        lemma_session_wf(a, earlier);
        lemma_alike_batch(
            session_after(a, earlier),
            session_after(b, earlier),
            decode(last.data),
            last.now,
        );
    }
}

} // verus!
