//! What the program does next, and how the virtual mouse comes about.

use vstd::prelude::*;

use crate::codes::{
    EVIOCGRAB, UI_DEV_CREATE, UI_DEV_DESTROY, UI_SET_EVBIT, UI_SET_KEYBIT, UI_SET_PROPBIT,
    UI_SET_RELBIT,
};
use crate::device::{
    goes_on, le_words, padded, setup_plan, SetupStep, UInputUserDev, DEVICE_SIZE,
};
use crate::event::{complement32, le_bytes, lemma_le_bytes_len, InputEvent};
use crate::filter::Filter;
use crate::guarantees::records::{lemma_four_bytes, lemma_two_bytes};
use crate::session::{outcome_of, step_after, timeout_ms, Event, ReadOutcome, Step, WaitOutcome};
use crate::time::{Deadline, Instant};
use crate::wire::decode;

verus! {

/// However many bytes a read brings, all of them are processed, and it is told
/// whether they are whole records; a read of nothing is the end.
pub proof fn law_all_that_was_read_is_processed(filter: Filter, n: usize, now: Instant)
    ensures
        ({
            let step = step_after(filter, Event::Got(ReadOutcome::Bytes(n)), now);
            &&& n > 0 ==> (step matches Step::Process { len, partial } && len == n && (partial
                <==> n % 24 != 0))
            &&& n == 0 ==> step is Finish
        }),
{
}

/// Of the bytes that are processed, none but those of a cut-off record at the
/// end go without an event, and there are such bytes exactly if it was told.
pub proof fn law_partial_means_bytes_left_over(filter: Filter, data: Seq<u8>, now: Instant)
    requires
        0 < data.len() <= usize::MAX,
    ensures
        step_after(
            filter,
            Event::Got(ReadOutcome::Bytes(data.len() as usize)),
            now,
        ) matches Step::Process { len, partial } && len == data.len() && (partial <==> data.len()
            != 24 * decode(data).len()),
{
}

/// A wait that ends because the mouse has something to say leads to a read, one
/// that runs out to a flush; a signal only means to start over, and a failure is
/// the end.
pub proof fn law_what_follows_a_wait_or_a_failed_read(filter: Filter, now: Instant)
    ensures
        step_after(filter, Event::Waited(WaitOutcome::Readable), now) is Read,
        step_after(filter, Event::Waited(WaitOutcome::TimedOut), now) is Flush,
        step_after(filter, Event::Waited(WaitOutcome::Interrupted), now) is Again,
        step_after(filter, Event::Waited(WaitOutcome::Failed), now) is Abort,
        step_after(filter, Event::Got(ReadOutcome::Interrupted), now) is Again,
        step_after(filter, Event::Got(ReadOutcome::Failed), now) is Abort,
{
}

/// From what `poll` returns follows what to do: a count of descriptors means to
/// read, none to flush; a negative number means to start over after a signal and
/// to give up after anything else.
pub proof fn law_what_follows_a_poll(filter: Filter, ret: int, interrupted: bool, now: Instant)
    ensures
        ({
            let step = step_after(filter, Event::Waited(outcome_of(ret, interrupted)), now);
            &&& ret > 0 <==> step is Read
            &&& ret == 0 <==> step is Flush
            &&& ret < 0 && interrupted <==> step is Again
            &&& ret < 0 && !interrupted <==> step is Abort
        }),
{
}

/// While a release is held, the program never just reads: once it is due, it is
/// flushed; before that, the program waits, and not past the time it is due, and
/// to the last whole millisecond that a wait can take.
pub proof fn law_held_release_bounds_the_wait(
    filter: Filter,
    held: InputEvent,
    deadline: Deadline,
    now: Instant,
)
    requires
        filter.held_release == Some((held, deadline)),
    ensures
        now.nanos >= deadline.nanos ==> step_after(filter, Event::Idle, now) is Flush,
        now.nanos < deadline.nanos ==> (step_after(filter, Event::Idle, now) matches Step::Wait(ms)
            && ms >= 0 && now.nanos + ms * 1_000_000 <= deadline.nanos && (deadline.nanos
            < now.nanos + (ms + 1) * 1_000_000 || ms == 0x7fff_ffff)),
{
}

/// With nothing held, the program reads, however long that takes.
pub proof fn law_nothing_held_means_read(filter: Filter, now: Instant)
    requires
        filter.held_release is None,
    ensures
        step_after(filter, Event::Idle, now) is Read,
{
}

/// A wait is rounded down to whole milliseconds, and cut off only where it does
/// not fit.
pub proof fn law_timeout_is_rounded_down(nanos: nat)
    ensures
        0 <= timeout_ms(nanos) <= 0x7fff_ffff,
        timeout_ms(nanos) * 1_000_000 <= nanos,
        nanos < (timeout_ms(nanos) + 1) * 1_000_000 || timeout_ms(nanos) == 0x7fff_ffff,
{
}

/// The requests are the kernel's: those that carry an `int` say so with the bits
/// of a write of four bytes; then come the letter of the driver and the number of
/// the request.
pub proof fn law_requests_are_made_of_their_parts()
    ensures
        UI_SET_EVBIT == 0x4000_0000 + 4 * 0x1_0000 + 0x55 * 0x100 + 100,
        UI_SET_KEYBIT == 0x4000_0000 + 4 * 0x1_0000 + 0x55 * 0x100 + 101,
        UI_SET_RELBIT == 0x4000_0000 + 4 * 0x1_0000 + 0x55 * 0x100 + 102,
        UI_SET_PROPBIT == 0x4000_0000 + 4 * 0x1_0000 + 0x55 * 0x100 + 112,
        EVIOCGRAB == 0x4000_0000 + 4 * 0x1_0000 + 0x45 * 0x100 + 0x90,
        UI_DEV_CREATE == 0x55 * 0x100 + 1,
        UI_DEV_DESTROY == 0x55 * 0x100 + 2,
{
}

/// Whether a step before the creation of the device announces `value` under
/// `request`, and insists on it.
pub open spec fn announced(steps: Seq<SetupStep>, request: u64, value: i32) -> bool {
    exists|i: int, j: int|
        0 <= i < j < steps.len() && #[trigger] steps[i] == (SetupStep::Announce {
            request,
            value,
            required: true,
        }) && #[trigger] steps[j] == SetupStep::Create
}

proof fn lemma_plan(i: int)
    requires
        0 <= i < 21,
    ensures
        setup_plan().len() == 21,
        setup_plan()[i] == if i < 3 {
            SetupStep::Announce {
                request: 0x4004_5564,
                value: if i == 0 {
                    1
                } else if i == 1 {
                    2
                } else {
                    0
                },
                required: true,
            }
        } else if i < 11 {
            SetupStep::Announce {
                request: 0x4004_5565,
                value: (0x110 + (i - 3)) as i32,
                required: true,
            }
        } else if i < 17 {
            SetupStep::Announce {
                request: 0x4004_5566,
                value: if i == 11 {
                    0
                } else if i == 12 {
                    1
                } else if i == 13 {
                    8
                } else if i == 14 {
                    6
                } else if i == 15 {
                    0x0b
                } else {
                    0x0c
                },
                required: true,
            }
        } else if i == 17 {
            SetupStep::Announce { request: 0x4004_5570, value: 0, required: false }
        } else if i == 18 {
            SetupStep::Describe
        } else if i == 19 {
            SetupStep::Create
        } else {
            SetupStep::Settle { millis: 100 }
        },
{
}

proof fn lemma_announced(i: int, request: u64, value: i32)
    requires
        0 <= i < 17,
        setup_plan()[i] == (SetupStep::Announce { request, value, required: true }),
    ensures
        announced(setup_plan(), request, value),
{
    lemma_plan(19);
    assert(setup_plan()[19] == SetupStep::Create);
}

/// Before the device is created, keys, relative axes and frame ends are
/// announced as the kinds of events it sends.
pub proof fn law_every_kind_of_event_is_announced(kind: i32)
    requires
        kind == 0 || kind == 1 || kind == 2,
    ensures
        announced(setup_plan(), 0x4004_5564, kind),
{
    let i: int = if kind == 0 {
        2
    } else {
        kind - 1
    };
    lemma_plan(i);
    lemma_announced(i, 0x4004_5564, kind);
}

/// Before the device is created, each of the eight buttons is announced.
pub proof fn law_every_button_is_announced(code: i32)
    requires
        0x110 <= code <= 0x117,
    ensures
        announced(setup_plan(), 0x4004_5565, code),
{
    lemma_plan(code - 0x110 + 3);
    lemma_announced(code - 0x110 + 3, 0x4004_5565, code);
}

/// Before the device is created, both axes of movement and both wheels, plain
/// and in high resolution, are announced.
pub proof fn law_every_axis_is_announced(code: i32)
    requires
        code == 0 || code == 1 || code == 6 || code == 8 || code == 0x0b || code == 0x0c,
    ensures
        announced(setup_plan(), 0x4004_5566, code),
{
    let i: int = if code == 0 {
        11
    } else if code == 1 {
        12
    } else if code == 8 {
        13
    } else if code == 6 {
        14
    } else if code == 0x0b {
        15
    } else {
        16
    };
    lemma_plan(i);
    lemma_announced(i, 0x4004_5566, code);
}

/// Nothing else is announced, and nothing twice; that the device is a pointer is
/// the one announcement that need not be accepted.
pub proof fn law_nothing_else_is_announced(i: int, request: u64, value: i32, required: bool)
    requires
        0 <= i < setup_plan().len(),
        setup_plan()[i] == (SetupStep::Announce { request, value, required }),
    ensures
        !required ==> request == 0x4004_5570 && value == 0,
        required ==> {
            ||| request == 0x4004_5564 && (value == 0 || value == 1 || value == 2)
            ||| request == 0x4004_5565 && 0x110 <= value <= 0x117
            ||| request == 0x4004_5566 && (value == 0 || value == 1 || value == 6 || value == 8
                || value == 0x0b || value == 0x0c)
        },
        forall|j: int| 0 <= j < setup_plan().len() && j != i ==> #[trigger] setup_plan()[j]
            != setup_plan()[i],
        exists|j: int| i < j < setup_plan().len() && #[trigger] setup_plan()[j]
            == SetupStep::Create,
{
    lemma_plan(0);
    lemma_plan(i);
    lemma_plan(19);
    assert(setup_plan()[19] == SetupStep::Create);
    assert forall|j: int| 0 <= j < setup_plan().len() && j != i implies #[trigger] setup_plan()[j]
        != setup_plan()[i] by {
        lemma_plan(j);
    }
}

/// That the device is a pointer is announced too; the device is described before
/// it is created, each exactly once, and the plan ends with a tenth of a second
/// for the desktop.
pub proof fn law_device_is_described_then_created_then_left_to_settle()
    ensures
        ({
            let steps = setup_plan();
            let n = steps.len() as int;
            &&& n >= 4
            &&& steps[n - 4] == (SetupStep::Announce {
                request: 0x4004_5570,
                value: 0,
                required: false,
            })
            &&& steps[n - 3] == SetupStep::Describe
            &&& steps[n - 2] == SetupStep::Create
            &&& steps[n - 1] == (SetupStep::Settle { millis: 100 })
            &&& forall|i: int| 0 <= i < n - 3 ==> #[trigger] steps[i] is Announce
        }),
{
    lemma_plan(17);
    lemma_plan(18);
    lemma_plan(19);
    lemma_plan(20);
    assert forall|i: int| 0 <= i < 18 implies #[trigger] setup_plan()[i] is Announce by {
        lemma_plan(i);
    }
}

/// The set-up goes on after every step that is accepted, and after a refusal only
/// if it was of an announcement that is not insisted on.
pub proof fn law_refusal_ends_the_set_up(step: SetupStep)
    ensures
        goes_on(step, true),
        goes_on(step, false) <==> exists|request: u64, value: i32|
            step == (#[trigger] hint(request, value)),
{
    if let SetupStep::Announce { request, value, required } = step {
        if !required {
            assert(step == hint(request, value));
        }
    }
}

/// An announcement that is not insisted on.
pub open spec fn hint(request: u64, value: i32) -> SetupStep {
    SetupStep::Announce { request, value, required: false }
}

/// The number in the two bytes at `at`, the low byte first.
pub open spec fn half_at(bytes: Seq<u8>, at: int) -> int {
    bytes[at] + 0x100 * bytes[at + 1]
}

/// The number in the four bytes at `at`, the low byte first.
pub open spec fn word_at(bytes: Seq<u8>, at: int) -> int {
    bytes[at] + 0x100 * bytes[at + 1] + 0x1_0000 * bytes[at + 2] + 0x100_0000 * bytes[at + 3]
}

/// The number in the four bytes at `at`, the low byte first, the top bit counted
/// negative.
pub open spec fn signed_at(bytes: Seq<u8>, at: int) -> int {
    if bytes[at + 3] >= 128 {
        word_at(bytes, at) - 0x1_0000_0000
    } else {
        word_at(bytes, at)
    }
}

proof fn lemma_words_len(values: Seq<i32>)
    ensures
        le_words(values).len() == 4 * values.len(),
    decreases values.len(),
{
    if values.len() > 0 {
        lemma_words_len(values.drop_last());
        lemma_le_bytes_len(complement32(values.last() as int), 4);
    }
}

proof fn lemma_two_bytes_back(x: u16)
    ensures
        le_bytes(x as nat, 2).len() == 2,
        half_at(le_bytes(x as nat, 2), 0) == x,
{
    lemma_two_bytes(x as nat);
}

proof fn lemma_four_bytes_back(x: nat)
    requires
        x < 0x1_0000_0000,
    ensures
        le_bytes(x, 4).len() == 4,
        word_at(le_bytes(x, 4), 0) == x,
        le_bytes(x, 4)[3] >= 128 <==> x >= 0x8000_0000,
{
    lemma_four_bytes(x);
}

/// A run of numbers takes four bytes for each, in order.
pub proof fn law_numbers_take_four_bytes_each(values: Seq<i32>, k: int)
    requires
        0 <= k < values.len(),
    ensures
        le_words(values).len() == 4 * values.len(),
        signed_at(le_words(values), 4 * k) == values[k],
    decreases values.len(),
{
    let earlier = values.drop_last();
    let last = le_bytes(complement32(values.last() as int), 4);
    lemma_words_len(values);
    lemma_words_len(earlier);
    lemma_four_bytes_back(complement32(values.last() as int));
    if k < earlier.len() {
        law_numbers_take_four_bytes_each(earlier, k);
        assert forall|i: int| 0 <= i < 4 * earlier.len() implies #[trigger] le_words(values)[i]
            == le_words(earlier)[i] by {}
    } else {
        assert forall|i: int| 0 <= i < 4 implies #[trigger] last[i] == le_words(values)[4 * k
            + i] by {}
    }
}

/// The record of a device is 1116 bytes: 80 of name, then bus, vendor, product
/// and version in two bytes each, then the number of force feedback effects in
/// four.
pub proof fn law_where_a_device_has_its_name_and_id(dev: UInputUserDev)
    ensures
        DEVICE_SIZE == 1116,
        dev.bytes().len() == 1116,
        dev.bytes().subrange(0, 80) == dev.name@,
        half_at(dev.bytes(), 80) == dev.id.bustype,
        half_at(dev.bytes(), 82) == dev.id.vendor,
        half_at(dev.bytes(), 84) == dev.id.product,
        half_at(dev.bytes(), 86) == dev.id.version,
        word_at(dev.bytes(), 88) == dev.ff_effects_max,
{
    lemma_two_bytes_back(dev.id.bustype);
    lemma_two_bytes_back(dev.id.vendor);
    lemma_two_bytes_back(dev.id.product);
    lemma_two_bytes_back(dev.id.version);
    lemma_four_bytes_back(dev.ff_effects_max as nat);
    lemma_words_len(dev.absmax@);
    lemma_words_len(dev.absmin@);
    lemma_words_len(dev.absfuzz@);
    lemma_words_len(dev.absflat@);
    assert(dev.bytes().subrange(0, 80) =~= dev.name@);
    assert(dev.bytes().subrange(80, 82) =~= le_bytes(dev.id.bustype as nat, 2));
    assert(dev.bytes().subrange(82, 84) =~= le_bytes(dev.id.vendor as nat, 2));
    assert(dev.bytes().subrange(84, 86) =~= le_bytes(dev.id.product as nat, 2));
    assert(dev.bytes().subrange(86, 88) =~= le_bytes(dev.id.version as nat, 2));
    assert(dev.bytes().subrange(88, 92) =~= le_bytes(dev.ff_effects_max as nat, 4));
    lemma_half_in(dev.bytes(), 80, dev.bytes().subrange(80, 82));
    lemma_half_in(dev.bytes(), 82, dev.bytes().subrange(82, 84));
    lemma_half_in(dev.bytes(), 84, dev.bytes().subrange(84, 86));
    lemma_half_in(dev.bytes(), 86, dev.bytes().subrange(86, 88));
    lemma_word_in(dev.bytes(), 88, dev.bytes().subrange(88, 92), 0);
}

proof fn lemma_half_in(bytes: Seq<u8>, at: int, part: Seq<u8>)
    requires
        0 <= at,
        at + 2 <= bytes.len(),
        part == bytes.subrange(at, at + 2),
    ensures
        half_at(bytes, at) == half_at(part, 0),
{
}

proof fn lemma_word_in(bytes: Seq<u8>, at: int, part: Seq<u8>, within: int)
    requires
        0 <= at,
        at + part.len() <= bytes.len(),
        part == bytes.subrange(at, at + part.len() as int),
        0 <= within,
        within + 4 <= part.len(),
    ensures
        word_at(bytes, at + within) == word_at(part, within),
        signed_at(bytes, at + within) == signed_at(part, within),
{
    assert(bytes[at + within] == part[within]);
    assert(bytes[at + within + 1] == part[within + 1]);
    assert(bytes[at + within + 2] == part[within + 2]);
    assert(bytes[at + within + 3] == part[within + 3]);
}

/// After that, the record of a device holds four runs of 64 numbers: the largest
/// value of each absolute axis, the smallest, the fuzz and the flat range.
pub proof fn law_where_a_device_has_its_axes(dev: UInputUserDev, k: int)
    requires
        0 <= k < 64,
    ensures
        signed_at(dev.bytes(), 92 + 4 * k) == dev.absmax@[k],
        signed_at(dev.bytes(), 348 + 4 * k) == dev.absmin@[k],
        signed_at(dev.bytes(), 604 + 4 * k) == dev.absfuzz@[k],
        signed_at(dev.bytes(), 860 + 4 * k) == dev.absflat@[k],
{
    lemma_le_bytes_len(dev.id.bustype as nat, 2);
    lemma_le_bytes_len(dev.id.vendor as nat, 2);
    lemma_le_bytes_len(dev.id.product as nat, 2);
    lemma_le_bytes_len(dev.id.version as nat, 2);
    lemma_le_bytes_len(dev.ff_effects_max as nat, 4);
    law_numbers_take_four_bytes_each(dev.absmax@, k);
    law_numbers_take_four_bytes_each(dev.absmin@, k);
    law_numbers_take_four_bytes_each(dev.absfuzz@, k);
    law_numbers_take_four_bytes_each(dev.absflat@, k);
    assert(dev.bytes().subrange(92, 348) =~= le_words(dev.absmax@));
    assert(dev.bytes().subrange(348, 604) =~= le_words(dev.absmin@));
    assert(dev.bytes().subrange(604, 860) =~= le_words(dev.absfuzz@));
    assert(dev.bytes().subrange(860, 1116) =~= le_words(dev.absflat@));
    lemma_word_in(dev.bytes(), 92, le_words(dev.absmax@), 4 * k);
    lemma_word_in(dev.bytes(), 348, le_words(dev.absmin@), 4 * k);
    lemma_word_in(dev.bytes(), 604, le_words(dev.absfuzz@), 4 * k);
    lemma_word_in(dev.bytes(), 860, le_words(dev.absflat@), 4 * k);
}

proof fn lemma_ascii(c: char)
    ensures
        c as int <= 127 ==> c as u8 as int == c as int,
{
}

/// A text that fits is followed by zeros only.
pub proof fn law_name_is_followed_by_zeros(text: Seq<char>, n: nat, i: int)
    requires
        text.len() <= n,
        0 <= i < n,
    ensures
        padded(text, n).len() == n,
        i < text.len() && text[i] as int <= 127 ==> padded(text, n)[i] as int == text[i] as int,
        i >= text.len() ==> padded(text, n)[i] == 0,
{
    if i < text.len() {
        lemma_ascii(text[i]);
    }
}

} // verus!
