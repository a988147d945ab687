//! How texts are taken apart, and how numbers are read and written.

use vstd::prelude::*;

use crate::event::InputEvent;
use crate::text::{
    decimal, digits_value, is_all_digits, is_digit, law_number_survives_decimal, length_before,
    number, signed_decimal, split, without_plus,
};

verus! {

proof fn lemma_before(s: Seq<char>, c: char)
    ensures
        length_before(s, c) <= s.len(),
        forall|i: int| 0 <= i < length_before(s, c) ==> s[i] != c,
        length_before(s, c) < s.len() ==> s[length_before(s, c) as int] == c,
    decreases s.len(),
{
    if s.len() > 0 && s[0] != c {
        let rest = s.drop_first();
        lemma_before(rest, c);
        assert forall|i: int| 0 <= i < length_before(s, c) implies s[i] != c by {
            if i > 0 {
                assert(rest[i - 1] == s[i]);
            }
        }
    }
}

/// The two parts of a text, with the separator between them, make up the text;
/// the first part is without the separator, and there is no second part only if
/// the whole text is.
pub proof fn law_parts_make_up_the_text(s: Seq<char>, c: char)
    ensures
        ({
            let (first, second) = split(s, c);
            &&& !first.contains(c)
            &&& second matches Some(rest) ==> s == first + seq![c] + rest
            &&& second is None ==> s == first
        }),
{
    lemma_before(s, c);
    let (first, second) = split(s, c);
    if let Some(rest) = second {
        assert(s =~= first + seq![c] + rest);
    }
}

/// A single digit reads as the number it stands for.
pub proof fn law_digit_reads_as_itself(c: char)
    requires
        0x30 <= c as int <= 0x39,
    ensures
        number(seq![c]) matches Some(n) && n == c as int - 0x30,
{
    let s = seq![c];
    assert(s.drop_last() =~= Seq::empty());
    assert(digits_value(Seq::empty()) == 0);
    assert(is_digit(s[0]));
    assert(without_plus(s) == s);
    assert(is_all_digits(s));
}

proof fn lemma_one_more_digit(s: Seq<char>, c: char)
    requires
        is_digit(c),
        is_all_digits(without_plus(s)),
    ensures
        without_plus(s.push(c)) == without_plus(s).push(c),
        is_all_digits(without_plus(s.push(c))),
        digits_value(without_plus(s.push(c))) == 10 * digits_value(without_plus(s)) + (c as int
            - 0x30),
{
    let digits = without_plus(s);
    assert(without_plus(s.push(c)) =~= digits.push(c));
    assert(digits.push(c).drop_last() =~= digits);
    assert forall|i: int| 0 <= i < digits.push(c).len() implies is_digit(
        #[trigger] digits.push(c)[i],
    ) by {
        if i < digits.len() {
            assert(is_digit(digits[i]));
        }
    }
}

/// One more digit makes ten times the number and the digit, unless that takes
/// more than 64 bits: then it is no number any more.
pub proof fn law_one_more_digit_makes_ten_times_the_number(s: Seq<char>, n: u64, c: char)
    requires
        number(s) == Some(n),
        0x30 <= c as int <= 0x39,
    ensures
        10 * n + (c as int - 0x30) < 0x1_0000_0000_0000_0000 ==> (number(s.push(c)) matches Some(m)
            && m == 10 * n + (c as int - 0x30)),
        10 * n + (c as int - 0x30) >= 0x1_0000_0000_0000_0000 ==> number(s.push(c)) is None,
{
    lemma_one_more_digit(s, c);
}

/// What is too large stays too large, whatever digit follows.
pub proof fn law_too_large_stays_too_large(s: Seq<char>, c: char)
    requires
        s.len() > 0,
        forall|i: int| 0 <= i < s.len() ==> 0x30 <= #[trigger] s[i] as int <= 0x39,
        number(s) is None,
        0x30 <= c as int <= 0x39,
    ensures
        number(s.push(c)) is None,
{
    assert forall|i: int| 0 <= i < s.len() implies is_digit(#[trigger] s[i]) by {
        assert(0x30 <= s[i] as int <= 0x39);
    }
    assert(0x30 <= s[0] as int <= 0x39);
    assert(without_plus(s) == s);
    lemma_one_more_digit(s, c);
}

/// A plus sign in front of a text makes no difference to the number it is,
/// unless there is one already: a second one makes it no number.
pub proof fn law_one_plus_sign_makes_no_difference(s: Seq<char>)
    ensures
        !(s.len() > 0 && s[0] == '+') ==> number(seq!['+'] + s) == number(s),
        s.len() > 0 && s[0] == '+' ==> number(seq!['+'] + s) is None,
{
    let longer = seq!['+'] + s;
    assert(longer[0] == '+');
    assert(longer.skip(1) =~= s);
    if s.len() > 0 && s[0] == '+' {
        assert(!is_digit(s[0]));
    }
}

/// What has no digit, or anything but digits behind its first character, or
/// anything but a digit or a plus sign in front, is no number.
pub proof fn law_only_digits_make_a_number(s: Seq<char>, i: int)
    requires
        number(s) is Some,
        0 <= i < s.len(),
    ensures
        0x30 <= s[i] as int <= 0x39 || (i == 0 && s[0] == '+' && s.len() > 1),
{
    let digits = without_plus(s);
    if s[0] == '+' {
        if i > 0 {
            assert(digits[i - 1] == s[i]);
            assert(is_digit(digits[i - 1]));
        }
    } else {
        assert(is_digit(digits[i]));
    }
}

/// No text is no number.
pub proof fn law_no_text_is_no_number()
    ensures
        number(Seq::empty()) is None,
        number(seq!['+']) is None,
{
    assert(seq!['+'].skip(1) =~= Seq::empty());
}

/// A number is written with digits only, and without zeros in front.
pub proof fn law_decimal_has_no_zeros_in_front(n: nat)
    ensures
        decimal(n).len() > 0,
        forall|i: int| 0 <= i < decimal(n).len() ==> 0x30 <= #[trigger] decimal(n)[i] as int <= 0x39,
        n > 0 ==> decimal(n)[0] as int != 0x30,
        n == 0 ==> decimal(n) == seq!['0'],
    decreases n,
{
    if n >= 10 {
        law_decimal_has_no_zeros_in_front(n / 10);
        let shorter = decimal(n / 10);
        assert(decimal(n)[0] == shorter[0]);
        assert forall|i: int| 0 <= i < decimal(n).len() implies 0x30 <= #[trigger] decimal(
            n,
        )[i] as int <= 0x39 by {
            if i < shorter.len() {
                assert(decimal(n)[i] == shorter[i]);
            }
        }
    }
}

/// Whether `s` writes `n`: its digits without zeros in front, behind a minus sign
/// if it is negative.
pub open spec fn writes(s: Seq<char>, n: int) -> bool {
    let digits = if n < 0 {
        s.skip(1)
    } else {
        s
    };
    let size = if n < 0 {
        -n
    } else {
        n
    };
    &&& n < 0 ==> s.len() > 0 && s[0] == '-'
    &&& digits.len() > 0 && digits[0] != '+'
    &&& number(digits) matches Some(m) && m == size
    &&& n != 0 ==> digits[0] != '0'
    &&& n == 0 ==> digits.len() == 1
}

/// A number in the log is written out in full.
pub proof fn law_signed_number_is_written(v: int)
    requires
        -0x1_0000_0000_0000_0000 < v < 0x1_0000_0000_0000_0000,
    ensures
        writes(signed_decimal(v), v),
{
    let size: nat = if v < 0 {
        (-v) as nat
    } else {
        v as nat
    };
    law_number_survives_decimal(size as u64);
    law_decimal_has_no_zeros_in_front(size);
    assert(0x30 <= decimal(size)[0] as int <= 0x39);
    if v < 0 {
        assert(signed_decimal(v).skip(1) =~= decimal(size));
    }
}

/// The log writes out the type, the code and the value of an event, in this
/// order.
pub proof fn law_log_shows_type_code_and_value(ev: InputEvent)
    ensures
        exists|t: Seq<char>, c: Seq<char>, v: Seq<char>|
            {
                &&& #[trigger] writes(t, ev.type_ as int)
                &&& #[trigger] writes(c, ev.code as int)
                &&& #[trigger] writes(v, ev.value as int)
                &&& ev.text() == "ev(type="@ + t + ", code="@ + c + ", value="@ + v + ")"@
            },
{
    let t = decimal(ev.type_ as nat);
    let c = decimal(ev.code as nat);
    let v = signed_decimal(ev.value as int);
    law_signed_number_is_written(ev.type_ as int);
    law_signed_number_is_written(ev.code as int);
    law_signed_number_is_written(ev.value as int);
    assert(writes(t, ev.type_ as int));
    assert(writes(c, ev.code as int));
    assert(writes(v, ev.value as int));
    assert(ev.text() == "ev(type="@ + t + ", code="@ + c + ", value="@ + v + ")"@);
}

} // verus!
