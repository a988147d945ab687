//! From raw records in to raw records out: one batch at a time.
//!
//! The physical mouse hands over a batch of records per read; what the filter
//! lets through goes to the virtual device in one write.

use vstd::prelude::*;
use vstd::string::*;

use crate::codes::{BTN_LEFT, EV_KEY};
use crate::event::{event_of, InputEvent, EVENT_SIZE};
use crate::filter::{Cmd, Filter, Note};
use crate::time::Instant;

verus! {

/// Something worth telling the user about when they asked for it.
#[derive(Copy, Clone, Debug)]
pub enum Diagnostic {
    /// An event was swallowed, and why.
    Swallowed(InputEvent, Note),
    /// A held release was let go.
    ReleaseConfirmed,
}

impl Diagnostic {
    /// The line of the log.
    pub open spec fn text(self) -> Seq<char> {
        match self {
            Diagnostic::Swallowed(ev, note) => "swallowed "@ + ev.text() + ": "@ + note.text(),
            Diagnostic::ReleaseConfirmed => "left release confirmed (button up)"@,
        }
    }

    /// The line of the log.
    pub fn describe(&self) -> (line: String)
        ensures
            line@ == self.text(),
    {
        let mut line = String::new();
        match self {
            Diagnostic::Swallowed(ev, note) => {
                line.append("swallowed ");
                line.append(ev.describe().as_str());
                line.append(": ");
                line.append(note.name());
            },
            Diagnostic::ReleaseConfirmed => {
                line.append("left release confirmed (button up)");
            },
        }
        assert(line@ =~= self.text());
        line
    }
}

/// The events in the whole records of `data`; a partial record at the end is
/// not an event.
pub open spec fn decode(data: Seq<u8>) -> Seq<InputEvent> {
    Seq::new(
        data.len() / EVENT_SIZE as nat,
        |i: int| event_of(data.subrange(EVENT_SIZE * i, EVENT_SIZE * i + EVENT_SIZE)),
    )
}

/// The records of `events`, one after the other.
pub open spec fn encode(events: Seq<InputEvent>) -> Seq<u8>
    decreases events.len(),
{
    if events.len() == 0 {
        Seq::empty()
    } else {
        encode(events.drop_last()) + events.last().bytes()
    }
}

/// What a release that has come due adds to the output: the release and the
/// frame end that makes it visible to readers.
pub open spec fn confirmation(filter: Filter, now: Instant) -> Seq<InputEvent> {
    match filter.released(now) {
        Some(release) => seq![release, InputEvent::frame_end()],
        None => Seq::empty(),
    }
}

/// The diagnostic on a release that has come due.
pub open spec fn confirmation_note(filter: Filter, now: Instant) -> Seq<Diagnostic> {
    if filter.release_is_due(now) {
        seq![Diagnostic::ReleaseConfirmed]
    } else {
        Seq::empty()
    }
}

/// The filter as `ev` finds it at `now`: a release that is due is let go before
/// a press, which it belongs in front of.
pub open spec fn ready_for(filter: Filter, ev: InputEvent, now: Instant) -> Filter {
    if ev.is_left_press() {
        filter.after_confirm(now)
    } else {
        filter
    }
}

/// The filter after `events` have arrived at `now`, one after the other.
pub open spec fn filter_after(filter: Filter, events: Seq<InputEvent>, now: Instant) -> Filter
    decreases events.len(),
{
    if events.len() == 0 {
        filter
    } else {
        let before = filter_after(filter, events.drop_last(), now);
        ready_for(before, events.last(), now).after(events.last(), now)
    }
}

/// Those of `events`, arriving at `now`, that pass, in the order they came.
pub open spec fn passed(filter: Filter, events: Seq<InputEvent>, now: Instant) -> Seq<InputEvent>
    decreases events.len(),
{
    if events.len() == 0 {
        Seq::empty()
    } else {
        let before = filter_after(filter, events.drop_last(), now);
        let earlier = passed(filter, events.drop_last(), now);
        if ready_for(before, events.last(), now).note(events.last(), now) is None {
            earlier.push(events.last())
        } else {
            earlier
        }
    }
}

/// What goes out while `events` arrive at `now`: those that pass and, in front
/// of a press, a release that was due when it came.
pub open spec fn let_through(filter: Filter, events: Seq<InputEvent>, now: Instant) -> Seq<
    InputEvent,
>
    decreases events.len(),
{
    if events.len() == 0 {
        Seq::empty()
    } else {
        let ev = events.last();
        let before = filter_after(filter, events.drop_last(), now);
        let earlier = let_through(filter, events.drop_last(), now) + if ev.is_left_press() {
            confirmation(before, now)
        } else {
            Seq::empty()
        };
        if ready_for(before, ev, now).note(ev, now) is None {
            earlier.push(ev)
        } else {
            earlier
        }
    }
}

/// What there is to say while `events` arrive at `now`: of each that is
/// swallowed, why, and of a release let go in front of a press, that it was.
pub open spec fn noted(filter: Filter, events: Seq<InputEvent>, now: Instant) -> Seq<Diagnostic>
    decreases events.len(),
{
    if events.len() == 0 {
        Seq::empty()
    } else {
        let ev = events.last();
        let before = filter_after(filter, events.drop_last(), now);
        let earlier = noted(filter, events.drop_last(), now) + if ev.is_left_press() {
            confirmation_note(before, now)
        } else {
            Seq::empty()
        };
        match ready_for(before, ev, now).note(ev, now) {
            Some(note) => earlier.push(Diagnostic::Swallowed(ev, note)),
            None => earlier,
        }
    }
}

/// What goes out for a batch of `events` that arrives at `now`: what they let
/// through and, after that, a release that has come due.
pub open spec fn batch_out(filter: Filter, events: Seq<InputEvent>, now: Instant) -> Seq<
    InputEvent,
> {
    let_through(filter, events, now) + confirmation(filter_after(filter, events, now), now)
}

/// The filter after a batch of `events` that arrives at `now`.
pub open spec fn batch_after(filter: Filter, events: Seq<InputEvent>, now: Instant) -> Filter {
    filter_after(filter, events, now).after_confirm(now)
}

/// The diagnostics on a batch of `events` that arrives at `now`.
pub open spec fn batch_notes(filter: Filter, events: Seq<InputEvent>, now: Instant) -> Seq<
    Diagnostic,
> {
    noted(filter, events, now) + confirmation_note(filter_after(filter, events, now), now)
}

/// Whether `result` is what comes of handing `bytes` to `write_all` in one
/// call, and of not calling it at all when there is nothing to write: the
/// number of records written, or the error of the call.
pub open spec fn written_at_once<E, F: FnOnce(&[u8]) -> Result<(), E>>(
    write_all: F,
    bytes: Seq<u8>,
    result: Result<usize, E>,
) -> bool {
    if bytes.len() == 0 {
        result == Ok::<usize, E>(0)
    } else {
        exists|buffer: &[u8], outcome: Result<(), E>|
            {
                &&& buffer@ == bytes
                &&& #[trigger] call_ensures(write_all, (buffer,), outcome)
                &&& match outcome {
                    Ok(_) => result matches Ok(n) && n as nat == bytes.len() / EVENT_SIZE as nat,
                    Err(error) => result == Err::<usize, E>(error),
                }
            }
    }
}

/// Writes a whole batch to the virtual device in one call of `write_all`:
/// `/dev/uinput` accepts a buffer of many records, so that writing them one by
/// one would cost a system call per event for nothing. An empty batch is not
/// written. Returns the number of records written.
pub fn write_events<E, F: FnOnce(&[u8]) -> Result<(), E>>(write_all: F, bytes: &[u8]) -> (result:
    Result<usize, E>)
    requires
        bytes@.len() > 0 ==> call_requires(write_all, (bytes,)),
    ensures
        written_at_once(write_all, bytes@, result),
{
    if bytes.len() == 0 {
        return Ok(0);
    }
    match write_all(bytes) {
        Ok(()) => Ok(bytes.len() / EVENT_SIZE),
        Err(error) => Err(error),
    }
}

/// If a held left release has aged out of its window, appends it and the frame
/// end to `out`. A key event written without a frame end after it is not
/// handed to readers at all, so an unterminated release would leave the button
/// looking stuck until some later frame happened to close it.
pub fn append_confirmation(
    filter: &mut Filter,
    now: Instant,
    out: &mut Vec<u8>,
    verbose: bool,
    log: &mut Vec<Diagnostic>,
) -> (confirmed: bool)
    requires
        old(filter).wf(),
    ensures
        confirmed == old(filter).release_is_due(now),
        final(out)@ == old(out)@ + encode(confirmation(*old(filter), now)),
        final(log)@ == old(log)@ + if verbose {
            confirmation_note(*old(filter), now)
        } else {
            Seq::empty()
        },
        *final(filter) == old(filter).after_confirm(now),
        final(filter).wf(),
{
    proof {
        reveal_with_fuel(encode, 3);
    }
    match filter.confirm(now) {
        Some(release) => {
            let mut record = release.as_bytes();
            out.append(&mut record);
            let mut end = InputEvent::syn().as_bytes();
            out.append(&mut end);
            if verbose {
                log.push(Diagnostic::ReleaseConfirmed);
            }
            proof {
                let pair = seq![release, InputEvent::frame_end()];
                assert(pair.drop_last() =~= seq![release]);
                assert(seq![release].drop_last() =~= Seq::<InputEvent>::empty());
                assert(out@ =~= old(out)@ + encode(pair));
            }
            true
        },
        None => {
            assert(out@ =~= old(out)@ + encode(Seq::empty()));
            assert(log@ =~= old(log)@ + Seq::<Diagnostic>::empty());
            false
        },
    }
}

/// Takes the bytes of one read of the physical mouse, filters the records in
/// them, and writes the result to the virtual device in one call of
/// `write_all`. `out` is the buffer for the result; with `verbose`, what was
/// noted goes to `log`. Returns the number of records written.
pub fn process_bytes<E, F: FnOnce(&[u8]) -> Result<(), E>>(
    write_all: F,
    filter: &mut Filter,
    out: &mut Vec<u8>,
    data: &[u8],
    now: Instant,
    verbose: bool,
    log: &mut Vec<Diagnostic>,
) -> (result: Result<usize, E>)
    requires
        old(filter).wf(),
        forall|buffer: &[u8]|
            buffer@ == encode(batch_out(*old(filter), decode(data@), now)) && buffer@.len() > 0
                ==> #[trigger] call_requires(write_all, (buffer,)),
    ensures
        *final(filter) == batch_after(*old(filter), decode(data@), now),
        final(filter).wf(),
        final(out)@ == encode(batch_out(*old(filter), decode(data@), now)),
        final(log)@ == old(log)@ + if verbose {
            batch_notes(*old(filter), decode(data@), now)
        } else {
            Seq::empty()
        },
        written_at_once(write_all, final(out)@, result),
{
    let ghost events = decode(data@);
    let ghost start = *filter;
    out.clear();
    if data.len() <= usize::MAX - 2 * EVENT_SIZE {
        out.reserve(data.len() + 2 * EVENT_SIZE);
    }
    let mut pos: usize = 0;
    let ghost mut count: int = 0;
    assert(events.take(0) =~= Seq::empty());
    assert(log@ =~= old(log)@ + Seq::<Diagnostic>::empty());
    while data.len() - pos >= EVENT_SIZE
        invariant
            filter.wf(),
            events == decode(data@),
            pos == EVENT_SIZE * count,
            pos <= data@.len(),
            0 <= count <= events.len(),
            *filter == filter_after(start, events.take(count), now),
            out@ == encode(let_through(start, events.take(count), now)),
            log@ == old(log)@ + if verbose {
                noted(start, events.take(count), now)
            } else {
                Seq::empty()
            },
        decreases data.len() - pos,
    {
        let chunk = &data[pos..pos + EVENT_SIZE];
        let ev = InputEvent::from_bytes(chunk);
        let ghost before = *filter;
        let ghost mut sent = let_through(start, events.take(count), now);
        if ev.type_ == EV_KEY && ev.code == BTN_LEFT && ev.value == 1 {
            // A release whose window is over was genuine: it goes out before
            // the press that follows it.
            append_confirmation(filter, now, out, verbose, log);
            proof {
                lemma_encode_add(sent, confirmation(before, now));
                sent = sent + confirmation(before, now);
            }
        } else {
            assert(sent + Seq::<InputEvent>::empty() =~= sent);
        }
        assert(*filter == ready_for(before, ev, now));
        assert(out@ == encode(sent));
        let (cmd, note) = filter.on_event(&ev, now);
        proof {
            assert(count < events.len());
            assert(events[count] == ev);
            assert(events.take(count + 1).drop_last() =~= events.take(count));
            assert(events.take(count + 1).last() == ev);
        }
        if verbose {
            if let Some(reason) = note {
                log.push(Diagnostic::Swallowed(ev, reason));
            }
        }
        if cmd == Cmd::Pass {
            let mut record = ev.as_bytes();
            out.append(&mut record);
            assert(sent.push(ev).drop_last() =~= sent);
        }
        proof {
            let longer = events.take(count + 1);
            assert(let_through(start, longer, now) =~= if cmd == Cmd::Pass {
                sent.push(ev)
            } else {
                sent
            });
            if verbose {
                assert(log@ =~= old(log)@ + noted(start, longer, now));
            }
        }
        pos = pos + EVENT_SIZE;
        proof {
            count = count + 1;
        }
    }
    assert(count == events.len());
    assert(events.take(count) =~= events);
    // A deadline can expire in the middle of a batch. Emitting the held release
    // at the end of it keeps motion in its real order.
    append_confirmation(filter, now, out, verbose, log);
    proof {
        lemma_encode_add(
            let_through(start, events, now),
            confirmation(filter_after(start, events, now), now),
        );
    }
    assert(out@ == encode(batch_out(start, events, now)));
    write_events(write_all, out.as_slice())
}

/// Nothing arrived from the mouse: all there is to do is to close out a
/// release whose window has expired.
pub fn flush_held<E, F: FnOnce(&[u8]) -> Result<(), E>>(
    write_all: F,
    filter: &mut Filter,
    out: &mut Vec<u8>,
    now: Instant,
    verbose: bool,
    log: &mut Vec<Diagnostic>,
) -> (result: Result<usize, E>)
    requires
        old(filter).wf(),
        forall|buffer: &[u8]|
            buffer@ == encode(confirmation(*old(filter), now)) && buffer@.len() > 0
                ==> #[trigger] call_requires(write_all, (buffer,)),
    ensures
        *final(filter) == old(filter).after_confirm(now),
        final(filter).wf(),
        final(out)@ == encode(confirmation(*old(filter), now)),
        final(log)@ == old(log)@ + if verbose {
            confirmation_note(*old(filter), now)
        } else {
            Seq::empty()
        },
        written_at_once(write_all, final(out)@, result),
{
    out.clear();
    append_confirmation(filter, now, out, verbose, log);
    assert(out@ =~= encode(confirmation(*old(filter), now)));
    write_events(write_all, out.as_slice())
}

/// The records of two runs of events, one after the other, are those of the
/// runs taken together.
pub proof fn lemma_encode_add(a: Seq<InputEvent>, b: Seq<InputEvent>)
    ensures
        encode(a + b) == encode(a) + encode(b),
    decreases b.len(),
{
    if b.len() == 0 {
        assert(a + b =~= a);
        assert(encode(a) + encode(b) =~= encode(a));
    } else {
        assert((a + b).drop_last() =~= a + b.drop_last());
        lemma_encode_add(a, b.drop_last());
        assert(encode(a + b) =~= encode(a) + encode(b));
    }
}

} // verus!
