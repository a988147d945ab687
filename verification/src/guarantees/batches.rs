//! What a batch of records comes to.

use vstd::prelude::*;

use crate::event::{event_of, lemma_event_bytes_len, InputEvent, TimeVal};
use crate::filter::{Cmd, Filter, Note};
use crate::guarantees::records::law_where_the_fields_of_a_record_are;
use crate::laws::{call_after, calls_after, Call};
use crate::time::Instant;
use crate::wire::{
    batch_after, batch_notes, batch_out, confirmation, confirmation_note, decode, encode,
    filter_after, let_through, noted, ready_for, written_at_once, Diagnostic,
};

verus! {

/// Of any bytes, every 24 are an event, in order; the rest at the end are none.
/// Type, code and value of each stand in its last eight bytes.
pub proof fn law_every_24_bytes_are_an_event(data: Seq<u8>, i: int)
    requires
        0 <= i < decode(data).len(),
    ensures
        24 * decode(data).len() <= data.len() < 24 * decode(data).len() + 24,
        ({
            let at = 24 * i;
            let ev = decode(data)[i];
            &&& ev == event_of(data.subrange(at, at + 24))
            &&& ev.type_ == data[at + 16] + 256 * data[at + 17]
            &&& ev.code == data[at + 18] + 256 * data[at + 19]
            &&& ev.value == data[at + 20] + 0x100 * data[at + 21] + 0x1_0000 * data[at + 22]
                + 0x100_0000 * data[at + 23] - (if data[at + 23] >= 128 {
                0x1_0000_0000int
            } else {
                0
            })
        }),
{
    law_where_the_fields_of_a_record_are(data.subrange(24 * i, 24 * i + 24));
}

/// Bytes that make no whole record make no event, and all others make one.
pub proof fn law_how_many_events(data: Seq<u8>)
    ensures
        24 * decode(data).len() <= data.len() < 24 * decode(data).len() + 24,
{
}

/// The record of the `i`-th event stands at 24 times `i`, and nothing else is
/// written.
pub proof fn law_every_event_is_24_bytes(events: Seq<InputEvent>, i: int)
    requires
        0 <= i < events.len(),
    ensures
        encode(events).len() == 24 * events.len(),
        encode(events).subrange(24 * i, 24 * i + 24) == events[i].bytes(),
    decreases events.len(),
{
    let earlier = events.drop_last();
    let last = events.last();
    lemma_encode_len(events);
    lemma_encode_len(earlier);
    lemma_event_bytes_len(last);
    if i < earlier.len() {
        law_every_event_is_24_bytes(earlier, i);
        assert(encode(events).subrange(24 * i, 24 * i + 24) =~= encode(earlier).subrange(
            24 * i,
            24 * i + 24,
        ));
    } else {
        assert(encode(events).subrange(24 * i, 24 * i + 24) =~= last.bytes());
    }
}

proof fn lemma_encode_len(events: Seq<InputEvent>)
    ensures
        encode(events).len() == 24 * events.len(),
    decreases events.len(),
{
    if events.len() > 0 {
        lemma_encode_len(events.drop_last());
        lemma_event_bytes_len(events.last());
    }
}

/// What a single call of the filter puts on the wire: an event that passes, or a
/// release let go and the all-zero event after it that closes its frame.
pub open spec fn sent_by_one(filter: Filter, call: Call) -> Seq<InputEvent> {
    match call {
        Call::Event(ev, now) => if filter.verdict(ev, now).0 == Cmd::Pass {
            seq![ev]
        } else {
            Seq::empty()
        },
        Call::Confirm(now) => match filter.released(now) {
            Some(release) => seq![
                release,
                InputEvent {
                    time: TimeVal { tv_sec: 0, tv_usec: 0 },
                    type_: 0,
                    code: 0,
                    value: 0,
                },
            ],
            None => Seq::empty(),
        },
    }
}

/// What any number of calls put on the wire.
pub open spec fn sent_by(filter: Filter, calls: Seq<Call>) -> Seq<InputEvent>
    decreases calls.len(),
{
    if calls.len() == 0 {
        Seq::empty()
    } else {
        sent_by(filter, calls.drop_last()) + sent_by_one(
            calls_after(filter, calls.drop_last()),
            calls.last(),
        )
    }
}

/// What a single call of the filter has to say: of an event that is swallowed,
/// why; of a release let go, that it was.
pub open spec fn said_by_one(filter: Filter, call: Call) -> Seq<Diagnostic> {
    match call {
        Call::Event(ev, now) => match filter.verdict(ev, now).1 {
            Some(note) => seq![Diagnostic::Swallowed(ev, note)],
            None => Seq::empty(),
        },
        Call::Confirm(now) => if filter.released(now) is Some {
            seq![Diagnostic::ReleaseConfirmed]
        } else {
            Seq::empty()
        },
    }
}

/// What any number of calls have to say.
pub open spec fn said_by(filter: Filter, calls: Seq<Call>) -> Seq<Diagnostic>
    decreases calls.len(),
{
    if calls.len() == 0 {
        Seq::empty()
    } else {
        said_by(filter, calls.drop_last()) + said_by_one(
            calls_after(filter, calls.drop_last()),
            calls.last(),
        )
    }
}

/// The calls that events make which arrive together: one for each, in order,
/// and before each press of the left button a look at what is held.
pub open spec fn one_by_one(events: Seq<InputEvent>, now: Instant) -> Seq<Call>
    decreases events.len(),
{
    if events.len() == 0 {
        Seq::empty()
    } else {
        let ev = events.last();
        let earlier = one_by_one(events.drop_last(), now);
        if ev.type_ == 1 && ev.code == 0x110 && ev.value == 1 {
            earlier.push(Call::Confirm(now)).push(Call::Event(ev, now))
        } else {
            earlier.push(Call::Event(ev, now))
        }
    }
}

proof fn lemma_one_more_call(filter: Filter, calls: Seq<Call>, call: Call)
    ensures
        calls_after(filter, calls.push(call)) == call_after(calls_after(filter, calls), call),
        sent_by(filter, calls.push(call)) == sent_by(filter, calls) + sent_by_one(
            calls_after(filter, calls),
            call,
        ),
        said_by(filter, calls.push(call)) == said_by(filter, calls) + said_by_one(
            calls_after(filter, calls),
            call,
        ),
{
    assert(calls.push(call).drop_last() =~= calls);
}

proof fn lemma_look(filter: Filter, now: Instant)
    ensures
        confirmation(filter, now) == sent_by_one(filter, Call::Confirm(now)),
        confirmation_note(filter, now) == said_by_one(filter, Call::Confirm(now)),
        filter.after_confirm(now) == call_after(filter, Call::Confirm(now)),
{
}

proof fn lemma_one_by_one(filter: Filter, events: Seq<InputEvent>, now: Instant)
    ensures
        filter_after(filter, events, now) == calls_after(filter, one_by_one(events, now)),
        let_through(filter, events, now) == sent_by(filter, one_by_one(events, now)),
        noted(filter, events, now) == said_by(filter, one_by_one(events, now)),
    decreases events.len(),
{
    if events.len() > 0 {
        let ev = events.last();
        let before = filter_after(filter, events.drop_last(), now);
        let earlier = one_by_one(events.drop_last(), now);
        lemma_one_by_one(filter, events.drop_last(), now);
        let sent = let_through(filter, events.drop_last(), now);
        let said = noted(filter, events.drop_last(), now);
        let found = ready_for(before, ev, now);
        if ev.type_ == 1 && ev.code == 0x110 && ev.value == 1 {
            let ready = earlier.push(Call::Confirm(now));
            lemma_look(before, now);
            lemma_one_more_call(filter, earlier, Call::Confirm(now));
            lemma_one_more_call(filter, ready, Call::Event(ev, now));
            assert(let_through(filter, events, now) =~= (sent + confirmation(before, now))
                + sent_by_one(found, Call::Event(ev, now)));
            assert(noted(filter, events, now) =~= (said + confirmation_note(before, now))
                + said_by_one(found, Call::Event(ev, now)));
        } else {
            lemma_one_more_call(filter, earlier, Call::Event(ev, now));
            assert(let_through(filter, events, now) =~= sent + sent_by_one(
                found,
                Call::Event(ev, now),
            ));
            assert(noted(filter, events, now) =~= said + said_by_one(
                found,
                Call::Event(ev, now),
            ));
        }
    }
}

/// A batch does what its events would do one by one, followed by one more look
/// at what is held: it sends the same events in the same order, has the same to
/// say, and leaves the filter the same.
pub proof fn law_batch_does_what_its_events_do(
    filter: Filter,
    events: Seq<InputEvent>,
    now: Instant,
)
    ensures
        ({
            let calls = one_by_one(events, now).push(Call::Confirm(now));
            &&& batch_out(filter, events, now) == sent_by(filter, calls)
            &&& batch_notes(filter, events, now) == said_by(filter, calls)
            &&& batch_after(filter, events, now) == calls_after(filter, calls)
        }),
{
    lemma_one_by_one(filter, events, now);
    lemma_look(filter_after(filter, events, now), now);
    lemma_one_more_call(filter, one_by_one(events, now), Call::Confirm(now));
}

/// A flush does what one look at what is held does.
pub proof fn law_flush_does_what_one_look_does(filter: Filter, now: Instant)
    ensures
        confirmation(filter, now) == sent_by_one(filter, Call::Confirm(now)),
        confirmation_note(filter, now) == said_by_one(filter, Call::Confirm(now)),
{
}

/// What is not empty is written: in one call, to the last byte, and the result
/// tells how many records of 24 bytes it was, or how the call failed.
pub proof fn law_what_there_is_is_written<E, F: FnOnce(&[u8]) -> Result<(), E>>(
    write_all: F,
    bytes: Seq<u8>,
    result: Result<usize, E>,
)
    requires
        bytes.len() > 0,
        written_at_once(write_all, bytes, result),
    ensures
        exists|buffer: &[u8], outcome: Result<(), E>|
            {
                &&& #[trigger] call_ensures(write_all, (buffer,), outcome)
                &&& buffer@ == bytes
                &&& outcome is Ok <==> result is Ok
                &&& outcome matches Err(error) ==> result == Err::<usize, E>(error)
            },
        result matches Ok(n) ==> 24 * n <= bytes.len() < 24 * n + 24,
{
}

/// When there is nothing to write, nothing can go wrong, and nothing is written.
pub proof fn law_nothing_is_written_of_nothing<E, F: FnOnce(&[u8]) -> Result<(), E>>(
    write_all: F,
    result: Result<usize, E>,
)
    ensures
        written_at_once(write_all, Seq::empty(), result) <==> (result matches Ok(n) && n == 0),
{
}

/// The line on a swallowed event names the event and the reason, each by its own
/// name, and no two reasons read the same.
pub proof fn law_reasons_are_told_apart(ev: InputEvent, a: Note, b: Note)
    ensures
        Diagnostic::Swallowed(ev, a).text() == "swallowed "@ + ev.text() + ": "@ + a.text(),
        Diagnostic::ReleaseConfirmed.text() == "left release confirmed (button up)"@,
        a.text() == match a {
            Note::PhantomPress => "PhantomPress"@,
            Note::PhantomRelease => "PhantomRelease"@,
            Note::BounceRepress => "BounceRepress"@,
            Note::StrayRelease => "StrayRelease"@,
            Note::HeldRelease => "HeldRelease"@,
        },
        a.text() == b.text() ==> a == b,
{
    reveal_strlit("PhantomPress");
    reveal_strlit("PhantomRelease");
    reveal_strlit("BounceRepress");
    reveal_strlit("StrayRelease");
    reveal_strlit("HeldRelease");
    assert("PhantomPress"@[0] == 'P');
    assert("StrayRelease"@[0] == 'S');
}

} // verus!
