//! What stands where in the bytes of a record.

use vstd::arithmetic::div_mod::{
    lemma_div_denominator, lemma_div_of0, lemma_fundamental_div_mod_converse,
    lemma_hoist_over_denominator, lemma_mod_multiples_vanish,
};
use vstd::arithmetic::power::{lemma_pow_positive, pow};
use vstd::prelude::*;
use vstd::std_specs::cmp::PartialEqSpec;

use crate::event::{
    complement32, complement64, event_of, le_bytes, le_value, lemma_event_bytes_len,
    lemma_le_bytes_len, InputEvent, EVENT_SIZE,
};

verus! {

/// The `i`-th byte of a number is its `i`-th digit in base 256, from the low end.
pub proof fn law_bytes_are_the_digits(x: nat, n: nat, i: nat)
    requires
        i < n,
    ensures
        le_bytes(x, n).len() == n,
        le_bytes(x, n)[i as int] as int == (x as int / pow(256, i)) % 256,
    decreases n,
{
    lemma_le_bytes_len(x, n);
    reveal(pow);
    if i > 0 {
        let less = (i - 1) as nat;
        lemma_le_bytes_len(x / 256, (n - 1) as nat);
        law_bytes_are_the_digits(x / 256, (n - 1) as nat, less);
        lemma_pow_positive(256, less);
        lemma_div_denominator(x as int, 256, pow(256, less));
        assert(pow(256, i) == 256 * pow(256, less));
    } else {
        assert(pow(256, 0) == 1);
    }
}

/// A number read from bytes has exactly these bytes for digits, and no more.
pub proof fn law_digits_are_the_bytes(s: Seq<u8>, i: nat)
    requires
        i < s.len(),
    ensures
        s[i as int] as int == (le_value(s) as int / pow(256, i)) % 256,
        le_value(s) < pow(256, s.len()),
    decreases s.len(),
{
    let rest = s.drop_first();
    reveal(pow);
    lemma_fundamental_div_mod_converse(
        le_value(s) as int,
        256,
        le_value(rest) as int,
        s[0] as int,
    );
    assert(le_value(s) as int / 256 == le_value(rest));
    assert(le_value(s) as int % 256 == s[0]);
    assert(pow(256, s.len()) == 256 * pow(256, rest.len()));
    if rest.len() > 0 {
        law_digits_are_the_bytes(rest, 0);
    } else {
        assert(pow(256, 0) == 1);
    }
    if i > 0 {
        let less = (i - 1) as nat;
        law_digits_are_the_bytes(rest, less);
        lemma_pow_positive(256, less);
        lemma_div_denominator(le_value(s) as int, 256, pow(256, less));
        assert(pow(256, i) == 256 * pow(256, less));
        assert(rest[less as int] == s[i as int]);
    } else {
        assert(pow(256, 0) == 1);
        assert(le_value(s) as int / 1 == le_value(s));
    }
}

proof fn lemma_value_of_two(s: Seq<u8>, at: int)
    requires
        0 <= at,
        at + 2 <= s.len(),
    ensures
        le_value(s.subrange(at, at + 2)) == s[at] + 256 * s[at + 1],
{
    reveal_with_fuel(le_value, 3);
    let part = s.subrange(at, at + 2);
    assert(part.drop_first()[0] == s[at + 1]);
    assert(part.drop_first().drop_first().len() == 0);
}

proof fn lemma_value_of_four(s: Seq<u8>, at: int)
    requires
        0 <= at,
        at + 4 <= s.len(),
    ensures
        le_value(s.subrange(at, at + 4)) == s[at] + 0x100 * s[at + 1] + 0x1_0000 * s[at + 2]
            + 0x100_0000 * s[at + 3],
{
    let part = s.subrange(at, at + 4);
    lemma_value_of_two(s, at + 2);
    assert(part.drop_first().drop_first() =~= s.subrange(at + 2, at + 4));
    assert(le_value(part) == s[at] + 256 * le_value(part.drop_first()));
    assert(le_value(part.drop_first()) == s[at + 1] + 256 * le_value(
        part.drop_first().drop_first(),
    ));
}

proof fn lemma_value_of_eight(s: Seq<u8>, at: int)
    requires
        0 <= at,
        at + 8 <= s.len(),
    ensures
        le_value(s.subrange(at, at + 8)) == s[at] + 0x100 * s[at + 1] + 0x1_0000 * s[at + 2]
            + 0x100_0000 * s[at + 3] + 0x1_0000_0000 * (s[at + 4] + 0x100 * s[at + 5] + 0x1_0000
            * s[at + 6] + 0x100_0000 * s[at + 7]),
{
    let p0 = s.subrange(at, at + 8);
    let p1 = p0.drop_first();
    let p2 = p1.drop_first();
    let p3 = p2.drop_first();
    let p4 = p3.drop_first();
    lemma_value_of_four(s, at + 4);
    assert(p4 =~= s.subrange(at + 4, at + 8));
    assert(le_value(p0) == s[at] + 256 * le_value(p1));
    assert(le_value(p1) == s[at + 1] + 256 * le_value(p2));
    assert(le_value(p2) == s[at + 2] + 256 * le_value(p3));
    assert(le_value(p3) == s[at + 3] + 256 * le_value(p4));
}

/// A record is 24 bytes: seconds in the first eight, microseconds in the next
/// eight, then two bytes of type, two of code and four of value, each with its
/// low byte first. The top bit of the last byte of a signed number counts
/// negative.
pub proof fn law_where_the_fields_of_a_record_are(chunk: Seq<u8>)
    requires
        chunk.len() == 24,
    ensures
        EVENT_SIZE == 24,
        event_of(chunk).type_ == chunk[16] + 256 * chunk[17],
        event_of(chunk).code == chunk[18] + 256 * chunk[19],
        event_of(chunk).value == chunk[20] + 0x100 * chunk[21] + 0x1_0000 * chunk[22] + 0x100_0000
            * chunk[23] - (if chunk[23] >= 128 {
            0x1_0000_0000int
        } else {
            0
        }),
        event_of(chunk).time.tv_sec == chunk[0] + 0x100 * chunk[1] + 0x1_0000 * chunk[2]
            + 0x100_0000 * chunk[3] + 0x1_0000_0000 * (chunk[4] + 0x100 * chunk[5] + 0x1_0000
            * chunk[6] + 0x100_0000 * chunk[7]) - (if chunk[7] >= 128 {
            0x1_0000_0000_0000_0000int
        } else {
            0
        }),
        event_of(chunk).time.tv_usec == chunk[8] + 0x100 * chunk[9] + 0x1_0000 * chunk[10]
            + 0x100_0000 * chunk[11] + 0x1_0000_0000 * (chunk[12] + 0x100 * chunk[13] + 0x1_0000
            * chunk[14] + 0x100_0000 * chunk[15]) - (if chunk[15] >= 128 {
            0x1_0000_0000_0000_0000int
        } else {
            0
        }),
{
    lemma_value_of_eight(chunk, 0);
    lemma_value_of_eight(chunk, 8);
    lemma_value_of_two(chunk, 16);
    lemma_value_of_two(chunk, 18);
    lemma_value_of_four(chunk, 20);
}

/// A number in two bytes.
pub proof fn lemma_two_bytes(x: nat)
    ensures
        le_bytes(x, 2).len() == 2,
        le_bytes(x, 2)[0] as int == x % 256,
        le_bytes(x, 2)[1] as int == (x / 256) % 256,
{
    reveal_with_fuel(le_bytes, 3);
}

/// A number in four bytes.
pub proof fn lemma_four_bytes(x: nat)
    ensures
        le_bytes(x, 4).len() == 4,
        le_bytes(x, 4)[0] as int == x % 256,
        le_bytes(x, 4)[1] as int == (x / 0x100) % 256,
        le_bytes(x, 4)[2] as int == (x / 0x1_0000) % 256,
        le_bytes(x, 4)[3] as int == (x / 0x100_0000) % 256,
{
    reveal_with_fuel(le_bytes, 5);
}

proof fn lemma_remainder_has_the_byte(v: int, c: int, t: int)
    requires
        0 < c,
        c * (256 * t) == 0x1_0000_0000,
    ensures
        ((v % 0x1_0000_0000) / c) % 256 == (v / c) % 256,
{
    let q = v / 0x1_0000_0000;
    let w = v % 0x1_0000_0000;
    let up = 256 * (t * q);
    assert(v == w + up * c) by {
        assert(0x1_0000_0000 * q == up * c) by (nonlinear_arith)
            requires
                c * (256 * t) == 0x1_0000_0000,
                up == 256 * (t * q),
        ;
    }
    lemma_hoist_over_denominator(w, up, c as nat);
    assert(v / c == w / c + up);
    lemma_mod_multiples_vanish(t * q, w / c, 256);
}

proof fn lemma_record_parts(ev: InputEvent)
    ensures
        ev.bytes().len() == 24,
        ev.bytes().subrange(0, 8) == le_bytes(
            (ev.time.tv_sec as int % 0x1_0000_0000_0000_0000) as nat,
            8,
        ),
        ev.bytes().subrange(8, 16) == le_bytes(
            (ev.time.tv_usec as int % 0x1_0000_0000_0000_0000) as nat,
            8,
        ),
        ev.bytes().subrange(16, 18) == le_bytes(ev.type_ as nat, 2),
        ev.bytes().subrange(18, 20) == le_bytes(ev.code as nat, 2),
        ev.bytes().subrange(20, 24) == le_bytes((ev.value as int % 0x1_0000_0000) as nat, 4),
{
    lemma_event_bytes_len(ev);
    let sec = (ev.time.tv_sec as int % 0x1_0000_0000_0000_0000) as nat;
    let usec = (ev.time.tv_usec as int % 0x1_0000_0000_0000_0000) as nat;
    let value = (ev.value as int % 0x1_0000_0000) as nat;
    assert(sec == complement64(ev.time.tv_sec as int));
    assert(usec == complement64(ev.time.tv_usec as int));
    assert(value == complement32(ev.value as int));
    lemma_le_bytes_len(sec, 8);
    lemma_le_bytes_len(usec, 8);
    lemma_le_bytes_len(ev.type_ as nat, 2);
    lemma_le_bytes_len(ev.code as nat, 2);
    lemma_le_bytes_len(value, 4);
    assert(ev.bytes().subrange(0, 8) =~= le_bytes(sec, 8));
    assert(ev.bytes().subrange(8, 16) =~= le_bytes(usec, 8));
    assert(ev.bytes().subrange(16, 18) =~= le_bytes(ev.type_ as nat, 2));
    assert(ev.bytes().subrange(18, 20) =~= le_bytes(ev.code as nat, 2));
    assert(ev.bytes().subrange(20, 24) =~= le_bytes(value, 4));
}

/// The record of an event holds each byte of type, code and value in its place,
/// the low byte first; a negative value is written as the remainder it leaves.
pub proof fn law_where_a_record_has_the_fields(ev: InputEvent)
    ensures
        ev.bytes().len() == 24,
        ev.bytes()[16] as int == ev.type_ as int % 256,
        ev.bytes()[17] as int == ev.type_ as int / 256,
        ev.bytes()[18] as int == ev.code as int % 256,
        ev.bytes()[19] as int == ev.code as int / 256,
        ev.bytes()[20] as int == ev.value as int % 256,
        ev.bytes()[21] as int == (ev.value as int / 0x100) % 256,
        ev.bytes()[22] as int == (ev.value as int / 0x1_0000) % 256,
        ev.bytes()[23] as int == (ev.value as int / 0x100_0000) % 256,
{
    lemma_record_parts(ev);
    let value = ev.value as int % 0x1_0000_0000;
    lemma_two_bytes(ev.type_ as nat);
    lemma_two_bytes(ev.code as nat);
    lemma_four_bytes(value as nat);
    lemma_remainder_has_the_byte(ev.value as int, 1, 0x100_0000);
    lemma_remainder_has_the_byte(ev.value as int, 0x100, 0x1_0000);
    lemma_remainder_has_the_byte(ev.value as int, 0x1_0000, 0x100);
    lemma_remainder_has_the_byte(ev.value as int, 0x100_0000, 1);
    let bytes = ev.bytes();
    assert(bytes[16] == bytes.subrange(16, 18)[0] && bytes[17] == bytes.subrange(16, 18)[1]);
    assert(bytes[18] == bytes.subrange(18, 20)[0] && bytes[19] == bytes.subrange(18, 20)[1]);
    assert(bytes[20] == bytes.subrange(20, 24)[0] && bytes[21] == bytes.subrange(20, 24)[1]);
    assert(bytes[22] == bytes.subrange(20, 24)[2] && bytes[23] == bytes.subrange(20, 24)[3]);
}

/// The record of an event starts with the digits of the seconds and goes on with
/// those of the microseconds; a negative number is written as the remainder it
/// leaves.
pub proof fn law_where_a_record_has_the_time(ev: InputEvent, i: int)
    requires
        0 <= i < 8,
    ensures
        ev.bytes()[i] as int == ((ev.time.tv_sec as int % 0x1_0000_0000_0000_0000) / pow(
            256,
            i as nat,
        )) % 256,
        ev.bytes()[8 + i] as int == ((ev.time.tv_usec as int % 0x1_0000_0000_0000_0000) / pow(
            256,
            i as nat,
        )) % 256,
{
    lemma_record_parts(ev);
    let sec = ev.time.tv_sec as int % 0x1_0000_0000_0000_0000;
    let usec = ev.time.tv_usec as int % 0x1_0000_0000_0000_0000;
    law_bytes_are_the_digits(sec as nat, 8, i as nat);
    law_bytes_are_the_digits(usec as nat, 8, i as nat);
    assert(ev.bytes()[i] == ev.bytes().subrange(0, 8)[i]);
    assert(ev.bytes()[8 + i] == ev.bytes().subrange(8, 16)[i]);
}

/// An event without a timestamp has the fields it was made of, and the event
/// that closes a frame is all zero.
pub proof fn law_made_events(type_: u16, code: u16, value: i32)
    ensures
        ({
            let ev = InputEvent::unstamped(type_, code, value);
            &&& ev.type_ == type_ && ev.code == code && ev.value == value
            &&& ev.time.tv_sec == 0 && ev.time.tv_usec == 0
        }),
        InputEvent::frame_end() == InputEvent::unstamped(0, 0, 0),
        forall|i: int| 0 <= i < 24 ==> #[trigger] InputEvent::frame_end().bytes()[i] == 0,
{
    let end = InputEvent::frame_end();
    law_where_a_record_has_the_fields(end);
    assert forall|i: int| 0 <= i < 24 implies #[trigger] end.bytes()[i] == 0 by {
        if i < 16 {
            law_where_a_record_has_the_time(end, i % 8);
            lemma_pow_positive(256, (i % 8) as nat);
            lemma_div_of0(pow(256, (i % 8) as nat));
        }
    }
}

/// Events are equal exactly if their records agree from the sixteenth byte on.
pub proof fn law_equal_events_have_records_that_agree_past_the_time(a: InputEvent, b: InputEvent)
    ensures
        a.eq_spec(&b) <==> a.bytes().subrange(16, 24) == b.bytes().subrange(16, 24),
{
    law_where_a_record_has_the_fields(a);
    law_where_a_record_has_the_fields(b);
    let left = a.bytes().subrange(16, 24);
    let right = b.bytes().subrange(16, 24);
    if left == right {
        assert forall|i: int| 16 <= i < 24 implies a.bytes()[i] == b.bytes()[i] by {
            assert(left[i - 16] == right[i - 16]);
        }
        assert(a.value as int % 0x1_0000_0000 == b.value as int % 0x1_0000_0000) by {
            assert(a.bytes()[20] == b.bytes()[20]);
            assert(a.bytes()[21] == b.bytes()[21]);
            assert(a.bytes()[22] == b.bytes()[22]);
            assert(a.bytes()[23] == b.bytes()[23]);
        }
        assert(a.bytes()[16] == b.bytes()[16] && a.bytes()[17] == b.bytes()[17]);
        assert(a.bytes()[18] == b.bytes()[18] && a.bytes()[19] == b.bytes()[19]);
    }
    if a.eq_spec(&b) {
        assert(left =~= right);
    }
}

} // verus!
