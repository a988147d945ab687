//! Input events and the bytes they travel in.
//!
//! A record is the kernel's `struct input_event` on 64-bit little-endian
//! Linux: seconds and microseconds in eight bytes each, type and code in two
//! bytes each, value in four; signed numbers in two's complement.

use vstd::prelude::*;
use vstd::std_specs::cmp::PartialEqSpec;
use vstd::string::*;

use crate::codes::{BTN_LEFT, EV_KEY, EV_REL, EV_SYN, REL_X, REL_Y, SYN_REPORT};
use crate::text::{decimal, push_decimal, push_signed_decimal, signed_decimal};

verus! {

/// The size of one event record in bytes.
pub const EVENT_SIZE: usize = 24;

/// A timestamp as the kernel stamps events with it.
#[derive(Copy, Clone, Debug, PartialEq, Eq, Structural)]
pub struct TimeVal {
    pub tv_sec: i64,
    pub tv_usec: i64,
}

/// One input event.
#[derive(Copy, Clone, Debug)]
pub struct InputEvent {
    pub time: TimeVal,
    pub type_: u16,
    pub code: u16,
    pub value: i32,
}

/// Equality deliberately ignores the timestamp: it is not part of a decision,
/// and forwarded events carry hardware timestamps while synthesised ones are
/// zeroed.
impl PartialEq for InputEvent {
    fn eq(&self, other: &Self) -> (same: bool) {
        self.type_ == other.type_ && self.code == other.code && self.value == other.value
    }
}

impl vstd::std_specs::cmp::PartialEqSpecImpl for InputEvent {
    open spec fn obeys_eq_spec() -> bool {
        true
    }

    open spec fn eq_spec(&self, other: &Self) -> bool {
        self.type_ == other.type_ && self.code == other.code && self.value == other.value
    }
}

impl Eq for InputEvent {

}

/// The `n` low base-256 digits of `x`, least significant first.
pub open spec fn le_bytes(x: nat, n: nat) -> Seq<u8>
    decreases n,
{
    if n == 0 {
        Seq::empty()
    } else {
        seq![(x % 256) as u8] + le_bytes(x / 256, (n - 1) as nat)
    }
}

/// The number whose base-256 digits are `s`, least significant first.
pub open spec fn le_value(s: Seq<u8>) -> nat
    decreases s.len(),
{
    if s.len() == 0 {
        0
    } else {
        s[0] as nat + 256 * le_value(s.drop_first())
    }
}

/// Two's complement of `v` in 64 bits.
pub open spec fn complement64(v: int) -> nat {
    (if v < 0 {
        v + 0x1_0000_0000_0000_0000
    } else {
        v
    }) as nat
}

/// Two's complement of `v` in 32 bits.
pub open spec fn complement32(v: int) -> nat {
    (if v < 0 {
        v + 0x1_0000_0000
    } else {
        v
    }) as nat
}

/// The number whose two's complement in 64 bits is `x`.
pub open spec fn signed64(x: nat) -> int {
    if x < 0x8000_0000_0000_0000 {
        x as int
    } else {
        x - 0x1_0000_0000_0000_0000
    }
}

/// The number whose two's complement in 32 bits is `x`.
pub open spec fn signed32(x: nat) -> int {
    if x < 0x8000_0000 {
        x as int
    } else {
        x - 0x1_0000_0000
    }
}

/// The event in the record `chunk`.
pub open spec fn event_of(chunk: Seq<u8>) -> InputEvent {
    InputEvent {
        time: TimeVal {
            tv_sec: signed64(le_value(chunk.subrange(0, 8))) as i64,
            tv_usec: signed64(le_value(chunk.subrange(8, 16))) as i64,
        },
        type_: le_value(chunk.subrange(16, 18)) as u16,
        code: le_value(chunk.subrange(18, 20)) as u16,
        value: signed32(le_value(chunk.subrange(20, 24))) as i32,
    }
}

impl InputEvent {
    /// The event's record.
    pub open spec fn bytes(self) -> Seq<u8> {
        le_bytes(complement64(self.time.tv_sec as int), 8)
            + le_bytes(complement64(self.time.tv_usec as int), 8)
            + le_bytes(self.type_ as nat, 2)
            + le_bytes(self.code as nat, 2)
            + le_bytes(complement32(self.value as int), 4)
    }

    /// An event of the given kind with a zero timestamp.
    pub open spec fn unstamped(type_: u16, code: u16, value: i32) -> InputEvent {
        InputEvent { time: TimeVal { tv_sec: 0, tv_usec: 0 }, type_, code, value }
    }

    /// The event that closes a frame.
    pub open spec fn frame_end() -> InputEvent {
        InputEvent::unstamped(EV_SYN, SYN_REPORT, 0)
    }

    /// Whether the event is about the left button.
    pub open spec fn is_left(self) -> bool {
        self.type_ == EV_KEY && self.code == BTN_LEFT
    }

    pub open spec fn is_left_press(self) -> bool {
        self.is_left() && self.value == 1
    }

    pub open spec fn is_left_release(self) -> bool {
        self.is_left() && self.value == 0
    }

    /// Whether the event moves the pointer.
    pub open spec fn is_motion(self) -> bool {
        self.type_ == EV_REL && (self.code == REL_X || self.code == REL_Y)
    }

    /// How the event reads in a log, without its timestamp.
    pub open spec fn text(self) -> Seq<char> {
        "ev(type="@ + decimal(self.type_ as nat) + ", code="@ + decimal(self.code as nat)
            + ", value="@ + signed_decimal(self.value as int) + ")"@
    }

    /// The kernel stamps uinput writes with its own clock, so a zero timestamp
    /// is fine for synthesised events; forwarded events keep the hardware
    /// timestamp.
    pub fn new(type_: u16, code: u16, value: i32) -> (ev: Self)
        ensures
            ev == InputEvent::unstamped(type_, code, value),
    {
        InputEvent { time: TimeVal { tv_sec: 0, tv_usec: 0 }, type_, code, value }
    }

    pub fn syn() -> (ev: Self)
        ensures
            ev == InputEvent::frame_end(),
    {
        Self::new(EV_SYN, SYN_REPORT, 0)
    }

    /// How the event reads in a log, without its timestamp.
    pub fn describe(&self) -> (text: String)
        ensures
            text@ == self.text(),
    {
        let mut text = String::new();
        text.append("ev(type=");
        push_decimal(&mut text, self.type_ as u64);
        text.append(", code=");
        push_decimal(&mut text, self.code as u64);
        text.append(", value=");
        push_signed_decimal(&mut text, self.value);
        text.append(")");
        assert(text@ =~= self.text());
        text
    }

    /// The event's record.
    pub fn as_bytes(&self) -> (bytes: Vec<u8>)
        ensures
            bytes@ == self.bytes(),
            bytes@.len() == EVENT_SIZE,
    {
        let mut bytes: Vec<u8> = Vec::with_capacity(EVENT_SIZE);
        push_le(&mut bytes, complement_of_i64(self.time.tv_sec), 8);
        push_le(&mut bytes, complement_of_i64(self.time.tv_usec), 8);
        push_le(&mut bytes, self.type_ as u64, 2);
        push_le(&mut bytes, self.code as u64, 2);
        push_le(&mut bytes, complement_of_i32(self.value) as u64, 4);
        proof {
            lemma_event_bytes_len(*self);
        }
        bytes
    }

    /// The event in a record.
    pub fn from_bytes(chunk: &[u8]) -> (ev: InputEvent)
        requires
            chunk@.len() == EVENT_SIZE,
        ensures
            ev == event_of(chunk@),
    {
        let sec = read_le(chunk, 0, 8);
        let usec = read_le(chunk, 8, 16);
        let type_ = read_le(chunk, 16, 18);
        let code = read_le(chunk, 18, 20);
        let value = read_le(chunk, 20, 24);
        proof {
            lemma_field_bounds(chunk@);
        }
        InputEvent {
            time: TimeVal { tv_sec: i64_of_complement(sec), tv_usec: i64_of_complement(usec) },
            type_: type_ as u16,
            code: code as u16,
            value: i32_of_complement(value as u32),
        }
    }
}

/// The two's complement of `v`.
fn complement_of_i64(v: i64) -> (x: u64)
    ensures
        x == complement64(v as int),
{
    if v >= 0 {
        v as u64
    } else {
        (v - i64::MIN) as u64 + 0x8000_0000_0000_0000
    }
}

/// The two's complement of `v`.
pub fn complement_of_i32(v: i32) -> (x: u32)
    ensures
        x == complement32(v as int),
{
    if v >= 0 {
        v as u32
    } else {
        (v - i32::MIN) as u32 + 0x8000_0000
    }
}

/// The number whose two's complement is `x`.
fn i64_of_complement(x: u64) -> (v: i64)
    ensures
        v == signed64(x as nat),
{
    if x < 0x8000_0000_0000_0000 {
        x as i64
    } else {
        (x - 0x8000_0000_0000_0000) as i64 + i64::MIN
    }
}

/// The number whose two's complement is `x`.
fn i32_of_complement(x: u32) -> (v: i32)
    ensures
        v == signed32(x as nat),
{
    if x < 0x8000_0000 {
        x as i32
    } else {
        (x - 0x8000_0000) as i32 + i32::MIN
    }
}

/// Appends the `n` low bytes of `x`, least significant first.
pub fn push_le(out: &mut Vec<u8>, x: u64, n: usize)
    ensures
        final(out)@ == old(out)@ + le_bytes(x as nat, n as nat),
{
    let mut rest: u64 = x;
    let mut left: usize = n;
    while left > 0
        invariant
            left <= n,
            old(out)@ + le_bytes(x as nat, n as nat) == out@ + le_bytes(rest as nat, left as nat),
        decreases left,
    {
        let ghost before = out@;
        out.push((rest % 256) as u8);
        assert(before + le_bytes(rest as nat, left as nat) =~= out@ + le_bytes(
            (rest / 256) as nat,
            (left - 1) as nat,
        ));
        rest = rest / 256;
        left = left - 1;
    }
    assert(out@ + le_bytes(rest as nat, 0) =~= out@);
}

/// The number in the bytes `from..to`, least significant first.
pub fn read_le(bytes: &[u8], from: usize, to: usize) -> (x: u64)
    requires
        from <= to <= bytes@.len(),
        to - from <= 8,
    ensures
        x == le_value(bytes@.subrange(from as int, to as int)),
{
    let mut x: u64 = 0;
    let mut i: usize = to;
    assert(bytes@.subrange(i as int, to as int) =~= Seq::<u8>::empty());
    while i > from
        invariant
            from <= i <= to <= bytes@.len(),
            to - from <= 8,
            x == le_value(bytes@.subrange(i as int, to as int)),
        decreases i,
    {
        let ghost tail = bytes@.subrange(i as int, to as int);
        let ghost longer = bytes@.subrange(i - 1, to as int);
        proof {
            assert(longer.drop_first() =~= tail);
            lemma_le_value_bound(tail);
            lemma_pow256_grows(tail.len(), 7);
            assert(pow256(7) == 0x100_0000_0000_0000) by {
                reveal_with_fuel(pow256, 8);
            }
        }
        i = i - 1;
        x = bytes[i] as u64 + 256 * x;
    }
    x
}

/// 256 to the power of `n`.
pub open spec fn pow256(n: nat) -> nat
    decreases n,
{
    if n == 0 {
        1
    } else {
        256 * pow256((n - 1) as nat)
    }
}

proof fn lemma_pow256_grows(m: nat, n: nat)
    requires
        m <= n,
    ensures
        pow256(m) <= pow256(n),
    decreases n,
{
    if m < n {
        lemma_pow256_grows(m, (n - 1) as nat);
    }
}

proof fn lemma_le_value_bound(s: Seq<u8>)
    ensures
        le_value(s) < pow256(s.len()),
    decreases s.len(),
{
    if s.len() > 0 {
        lemma_le_value_bound(s.drop_first());
    }
}

/// `n` digits take `n` bytes.
pub proof fn lemma_le_bytes_len(x: nat, n: nat)
    ensures
        le_bytes(x, n).len() == n,
    decreases n,
{
    if n > 0 {
        lemma_le_bytes_len(x / 256, (n - 1) as nat);
    }
}

proof fn lemma_le_value_of_bytes(x: nat, n: nat)
    requires
        x < pow256(n),
    ensures
        le_value(le_bytes(x, n)) == x,
    decreases n,
{
    if n > 0 {
        lemma_le_value_of_bytes(x / 256, (n - 1) as nat);
        assert(le_bytes(x, n).drop_first() =~= le_bytes(x / 256, (n - 1) as nat));
    }
}

proof fn lemma_le_bytes_of_value(s: Seq<u8>)
    ensures
        le_bytes(le_value(s), s.len()) == s,
    decreases s.len(),
{
    if s.len() > 0 {
        let rest = s.drop_first();
        lemma_le_bytes_of_value(rest);
        assert(le_value(s) % 256 == s[0] as nat);
        assert(le_value(s) / 256 == le_value(rest));
        assert(seq![s[0]] + rest =~= s);
    }
}

proof fn lemma_pow256_values()
    ensures
        pow256(2) == 0x1_0000,
        pow256(4) == 0x1_0000_0000,
        pow256(8) == 0x1_0000_0000_0000_0000,
{
    reveal_with_fuel(pow256, 9);
}

proof fn lemma_field_bounds(chunk: Seq<u8>)
    requires
        chunk.len() == EVENT_SIZE,
    ensures
        le_value(chunk.subrange(0, 8)) < 0x1_0000_0000_0000_0000,
        le_value(chunk.subrange(8, 16)) < 0x1_0000_0000_0000_0000,
        le_value(chunk.subrange(16, 18)) < 0x1_0000,
        le_value(chunk.subrange(18, 20)) < 0x1_0000,
        le_value(chunk.subrange(20, 24)) < 0x1_0000_0000,
{
    lemma_pow256_values();
    lemma_le_value_bound(chunk.subrange(0, 8));
    lemma_le_value_bound(chunk.subrange(8, 16));
    lemma_le_value_bound(chunk.subrange(16, 18));
    lemma_le_value_bound(chunk.subrange(18, 20));
    lemma_le_value_bound(chunk.subrange(20, 24));
}

/// Every record is [`EVENT_SIZE`] bytes long.
pub proof fn lemma_event_bytes_len(ev: InputEvent)
    ensures
        ev.bytes().len() == EVENT_SIZE,
{
    lemma_le_bytes_len(complement64(ev.time.tv_sec as int), 8);
    lemma_le_bytes_len(complement64(ev.time.tv_usec as int), 8);
    lemma_le_bytes_len(ev.type_ as nat, 2);
    lemma_le_bytes_len(ev.code as nat, 2);
    lemma_le_bytes_len(complement32(ev.value as int), 4);
}

/// Reading back the record of an event gives the event, timestamp and all.
pub proof fn law_event_survives_its_record(ev: InputEvent)
    ensures
        event_of(ev.bytes()) == ev,
{
    lemma_event_bytes_len(ev);
    lemma_pow256_values();
    let sec = complement64(ev.time.tv_sec as int);
    let usec = complement64(ev.time.tv_usec as int);
    let value = complement32(ev.value as int);
    lemma_le_bytes_len(sec, 8);
    lemma_le_bytes_len(usec, 8);
    lemma_le_bytes_len(ev.type_ as nat, 2);
    lemma_le_bytes_len(ev.code as nat, 2);
    lemma_le_bytes_len(value, 4);
    lemma_le_value_of_bytes(sec, 8);
    lemma_le_value_of_bytes(usec, 8);
    lemma_le_value_of_bytes(ev.type_ as nat, 2);
    lemma_le_value_of_bytes(ev.code as nat, 2);
    lemma_le_value_of_bytes(value, 4);
    assert(ev.bytes().subrange(0, 8) =~= le_bytes(sec, 8));
    assert(ev.bytes().subrange(8, 16) =~= le_bytes(usec, 8));
    assert(ev.bytes().subrange(16, 18) =~= le_bytes(ev.type_ as nat, 2));
    assert(ev.bytes().subrange(18, 20) =~= le_bytes(ev.code as nat, 2));
    assert(ev.bytes().subrange(20, 24) =~= le_bytes(value, 4));
}

/// Writing out the event of a record gives the record, byte for byte: a
/// forwarded event reaches the virtual device verbatim.
pub proof fn law_record_survives_its_event(chunk: Seq<u8>)
    requires
        chunk.len() == EVENT_SIZE,
    ensures
        event_of(chunk).bytes() == chunk,
{
    lemma_field_bounds(chunk);
    lemma_le_bytes_of_value(chunk.subrange(0, 8));
    lemma_le_bytes_of_value(chunk.subrange(8, 16));
    lemma_le_bytes_of_value(chunk.subrange(16, 18));
    lemma_le_bytes_of_value(chunk.subrange(18, 20));
    lemma_le_bytes_of_value(chunk.subrange(20, 24));
    assert(event_of(chunk).bytes() =~= chunk);
}

/// Equality of events is an equivalence: every event equals itself, either
/// side may be named first, and two events equal to a third are equal.
pub proof fn law_event_equality_is_an_equivalence(a: InputEvent, b: InputEvent, c: InputEvent)
    ensures
        a.eq_spec(&a),
        a.eq_spec(&b) == b.eq_spec(&a),
        a.eq_spec(&b) && b.eq_spec(&c) ==> a.eq_spec(&c),
{
}

/// Equality of events does not look at the timestamp.
pub proof fn law_event_equality_ignores_time(a: InputEvent, b: InputEvent, t: TimeVal)
    ensures
        a.eq_spec(&b) == a.eq_spec(&InputEvent { time: t, ..b }),
{
}

} // verus!
