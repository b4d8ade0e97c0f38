//! How numerals are read and written.

use vstd::prelude::*;

use crate::number::{self, IntError};

verus! {

/// A numeral that reads consists of digits, and spells a number within the limit.
pub proof fn lemma_digits(s: Seq<char>, radix: nat, max: nat)
    ensures
        number::digits_value(s, radix, max) matches Ok(n) ==> {
            &&& n <= max || s.len() == 0
            &&& forall|i: int| 0 <= i < s.len() ==> number::digit_value(s[i], radix) is Some
        },
    decreases s.len(),
{
    if s.len() > 0 {
        lemma_digits(s.drop_last(), radix, max);
        if number::digits_value(s, radix, max) is Ok {
            assert forall|i: int| 0 <= i < s.len() implies number::digit_value(
                s[i],
                radix,
            ) is Some by {
                if i < s.len() - 1 {
                    assert(s.drop_last()[i] == s[i]);
                }
            }
        }
    }
}

/// The digits of base sixteen are `0` to `9` and, in either case, the letters `a` to `f`; those of
/// base ten are `0` to `9`. No other character is a digit.
pub proof fn law_digits(c: char)
    ensures
        number::digit_value(c, 10) == if '0' <= c <= '9' {
            Some((c as u32 - 48) as nat)
        } else {
            None
        },
        number::digit_value(c, 16) == if '0' <= c <= '9' {
            Some((c as u32 - 48) as nat)
        } else if 'a' <= c <= 'f' {
            Some((c as u32 - 87) as nat)
        } else if 'A' <= c <= 'F' {
            Some((c as u32 - 55) as nat)
        } else {
            None
        },
{
}

/// A numeral is read digit by digit: one more digit multiplies the number by the base and adds the
/// digit. What is no digit, or takes the number over the limit, is an error, and an error stays
/// whatever follows.
pub proof fn law_numeral_grows(s: Seq<char>, c: char, radix: nat, max: nat)
    requires
        s.len() > 0,
        s != seq!['+'],
    ensures
        match number::numeral_value(s, radix, max) {
            Err(e) => number::numeral_value(s.push(c), radix, max) == Err::<nat, IntError>(e),
            Ok(n) => number::numeral_value(s.push(c), radix, max) == match number::digit_value(
                c,
                radix,
            ) {
                None => Err::<nat, IntError>(IntError::InvalidDigit),
                Some(d) => if n * radix + d <= max {
                    Ok(n * radix + d)
                } else {
                    Err(IntError::TooLarge)
                },
            },
        },
{
    let t = s.push(c);
    assert(t[0] == s[0]);
    if s[0] == '+' {
        if s.len() == 1 {
            assert(s =~= seq!['+']);
        }
        let u = s.skip(1);
        assert(t.skip(1) =~= u.push(c));
        assert(u.push(c).drop_last() =~= u);
        assert(u.push(c).last() == c);
    } else {
        assert(t.drop_last() =~= s);
        assert(t.last() == c);
    }
}

/// The first character of a numeral may be a `+`, which changes nothing; alone it is no numeral,
/// and neither is an empty text. One digit spells its value.
pub proof fn law_numeral_starts(s: Seq<char>, c: char, radix: nat, max: nat)
    ensures
        number::numeral_value(Seq::empty(), radix, max) == Err::<nat, IntError>(IntError::Empty),
        number::numeral_value(seq!['+'], radix, max) == Err::<nat, IntError>(
            IntError::InvalidDigit,
        ),
        s.len() > 0 && s[0] != '+' ==> number::numeral_value(seq!['+'] + s, radix, max)
            == number::numeral_value(s, radix, max),
        c != '+' ==> number::numeral_value(seq![c], radix, max) == match number::digit_value(
            c,
            radix,
        ) {
            None => Err::<nat, IntError>(IntError::InvalidDigit),
            Some(d) => if d <= max {
                Ok(d)
            } else {
                Err(IntError::TooLarge)
            },
        },
{
    let p = seq!['+'] + s;
    assert(p.skip(1) =~= s);
    reveal_with_fuel(number::digits_value, 2);
    assert(seq![c].drop_last() =~= Seq::<char>::empty());
    assert(0 * radix == 0) by (nonlinear_arith);
}

/// A written number reads back as itself, is written with the digits of its base, in lower case,
/// and without needless zeros in front.
pub proof fn law_written_numbers(n: nat, max: nat)
    requires
        n <= max,
    ensures
        number::numeral_value(number::dec(n), 10, max) == Ok::<nat, IntError>(n),
        number::numeral_value(number::hex(n), 16, max) == Ok::<nat, IntError>(n),
        number::dec(n)[0] == '0' ==> n == 0,
        number::hex(n)[0] == '0' ==> n == 0,
        n == 0 ==> number::dec(n) == seq!['0'] && number::hex(n) == seq!['0'],
        forall|i: int| 0 <= i < number::dec(n).len() ==> '0' <= #[trigger] number::dec(n)[i] <= '9',
        forall|i: int|
            0 <= i < number::hex(n).len() ==> ('0' <= #[trigger] number::hex(n)[i] <= '9' || 'a'
                <= number::hex(n)[i] <= 'f'),
    decreases n,
{
    number::lemma_dec_reads_back(n, max);
    number::lemma_hex_reads_back(n, max);
    assert forall|i: int| 0 <= i < number::hex(n).len() implies ('0' <= #[trigger] number::hex(n)[i]
        <= '9' || 'a' <= number::hex(n)[i] <= 'f') by {
        assert(number::plain_digit(number::hex(n)[i]));
    }
    if n >= 10 {
        law_written_numbers(n / 10, max);
        number::lemma_dec_reads_back(n / 10, max);
        assert(number::dec(n)[0] == number::dec(n / 10)[0]);
    }
    if n >= 16 {
        law_written_numbers(n / 16, max);
        number::lemma_hex_reads_back(n / 16, max);
        assert(number::hex(n)[0] == number::hex(n / 16)[0]);
    }
}

/// A hexadecimal number that is written to a width has at least that many digits, reads back as
/// itself, and is filled with zeros in front.
pub proof fn law_padded_numbers(n: nat, width: nat, max: nat, i: int)
    requires
        n <= max,
    ensures
        number::numeral_value(number::hex_padded(n, width), 16, max) == Ok::<nat, IntError>(n),
        number::hex_padded(n, width).len() >= width,
        number::hex(n).is_suffix_of(number::hex_padded(n, width)),
        number::hex_padded(n, width).len() > width ==> number::hex_padded(n, width)
            == number::hex(n),
        0 <= i < number::hex_padded(n, width).len() - number::hex(n).len() ==> number::hex_padded(
            n,
            width,
        )[i] == '0',
{
    number::lemma_hex_padded_reads_back(n, width, max);
    crate::laws::texts::law_padding(number::hex(n), '0', width, i);
}

} // verus!
