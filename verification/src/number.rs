//! Numerals: reading unsigned integers from text and writing them.

use vstd::prelude::*;

verus! {

/// Why a text is not a numeral of the wanted type.
#[derive(Clone, Copy, Debug, PartialEq, Eq, Structural)]
pub enum IntError {
    /// There is nothing to read.
    Empty,
    /// A character is not a digit.
    InvalidDigit,
    /// The number does not fit.
    TooLarge,
}

impl IntError {
    /// The explanation that messages carry.
    pub open spec fn text(self) -> Seq<char> {
        match self {
            IntError::Empty => "cannot parse integer from empty string"@,
            IntError::InvalidDigit => "invalid digit found in string"@,
            IntError::TooLarge => "number too large to fit in target type"@,
        }
    }

    /// The explanation that messages carry.
    pub fn message(&self) -> (r: &'static str)
        ensures
            r@ == self.text(),
    {
        match self {
            IntError::Empty => "cannot parse integer from empty string",
            IntError::InvalidDigit => "invalid digit found in string",
            IntError::TooLarge => "number too large to fit in target type",
        }
    }
}

/// Writes the message for a text that is no numeral: `what` was attempted on the text whose debug
/// form is `shown`.
pub fn parse_failure(what: &str, shown: &str, e: IntError) -> (r: String)
    ensures
        r@ == what@ + shown@ + ": "@ + e.text(),
{
    let mut r = crate::text::owned(what);
    r.append(shown);
    r.append(": ");
    r.append(e.message());
    r
}

/// The value of a digit in base `radix`; letters of either case count from ten.
pub open spec fn digit_value(c: char, radix: nat) -> Option<nat> {
    let v = if '0' <= c <= '9' {
        c as int - '0' as int
    } else if 'a' <= c <= 'f' {
        c as int - 'a' as int + 10
    } else if 'A' <= c <= 'F' {
        c as int - 'A' as int + 10
    } else {
        16
    };
    if v < radix {
        Some(v as nat)
    } else {
        None
    }
}

/// The number that the digits `s` spell, read from the left: the first character that is no
/// digit, or that takes the number over `max`, decides the error.
pub open spec fn digits_value(s: Seq<char>, radix: nat, max: nat) -> Result<nat, IntError>
    decreases s.len(),
{
    if s.len() == 0 {
        Ok(0)
    } else {
        match digits_value(s.drop_last(), radix, max) {
            Err(e) => Err(e),
            Ok(v) => match digit_value(s.last(), radix) {
                None => Err(IntError::InvalidDigit),
                Some(d) => if v * radix + d > max {
                    Err(IntError::TooLarge)
                } else {
                    Ok(v * radix + d)
                },
            },
        }
    }
}

/// The number that the numeral `s` spells: digits, after an optional `+`.
pub open spec fn numeral_value(s: Seq<char>, radix: nat, max: nat) -> Result<nat, IntError> {
    if s.len() == 0 {
        Err(IntError::Empty)
    } else if s[0] == '+' {
        if s.len() == 1 {
            Err(IntError::InvalidDigit)
        } else {
            digits_value(s.skip(1), radix, max)
        }
    } else {
        digits_value(s, radix, max)
    }
}

/// The value of a digit in base ten or sixteen.
pub fn digit_of(c: char, radix: u32) -> (r: Option<u32>)
    requires
        radix == 10 || radix == 16,
    ensures
        match r {
            Some(v) => digit_value(c, radix as nat) == Some(v as nat) && v < radix,
            None => digit_value(c, radix as nat) is None,
        },
{
    let mut v: u32 = 16;
    if '0' <= c && c <= '9' {
        v = c as u32 - '0' as u32;
    } else if 'a' <= c && c <= 'f' {
        v = c as u32 - 'a' as u32 + 10;
    } else if 'A' <= c && c <= 'F' {
        v = c as u32 - 'A' as u32 + 10;
    }
    if v < radix {
        Some(v)
    } else {
        None
    }
}

proof fn lemma_digits_error_stays(s: Seq<char>, n: int, radix: nat, max: nat)
    requires
        0 <= n <= s.len(),
        digits_value(s.take(n), radix, max) is Err,
    ensures
        digits_value(s, radix, max) == digits_value(s.take(n), radix, max),
    decreases s.len() - n,
{
    if n == s.len() {
        assert(s.take(n) =~= s);
    } else {
        assert(s.take(n + 1).drop_last() =~= s.take(n));
        lemma_digits_error_stays(s, n + 1, radix, max);
    }
}

/// Reads a numeral in base ten or sixteen that must not exceed `max`.
pub fn parse_numeral(s: &[char], radix: u32, max: u64) -> (r: Result<u64, IntError>)
    requires
        radix == 10 || radix == 16,
    ensures
        match r {
            Ok(v) => numeral_value(s@, radix as nat, max as nat) == Ok::<nat, IntError>(v as nat)
                && v <= max,
            Err(e) => numeral_value(s@, radix as nat, max as nat) == Err::<nat, IntError>(e),
        },
{
    if s.len() == 0 {
        return Err(IntError::Empty);
    }
    let mut start: usize = 0;
    if s[0] == '+' {
        if s.len() == 1 {
            return Err(IntError::InvalidDigit);
        }
        start = 1;
    }
    let ghost digits = s@.skip(start as int);
    assert(s@.skip(0) =~= s@);
    let mut v: u64 = 0;
    let mut i: usize = start;
    assert(digits.take(0) =~= seq![]);
    while i < s.len()
        invariant
            start <= i <= s.len(),
            radix == 10 || radix == 16,
            digits == s@.skip(start as int),
            numeral_value(s@, radix as nat, max as nat) == digits_value(
                digits,
                radix as nat,
                max as nat,
            ),
            digits_value(digits.take(i - start), radix as nat, max as nat) == Ok::<nat, IntError>(
                v as nat,
            ),
            v <= max,
        decreases s.len() - i,
    {
        assert(digits.take(i - start + 1).drop_last() =~= digits.take(i - start));
        assert(digits.take(i - start + 1).last() == s@[i as int]);
        match digit_of(s[i], radix) {
            None => {
                proof {
                    lemma_digits_error_stays(digits, i - start + 1, radix as nat, max as nat);
                }
                return Err(IntError::InvalidDigit);
            },
            Some(d) => {
                assert(v * radix <= u64::MAX * 16) by (nonlinear_arith)
                    requires
                        v <= u64::MAX,
                        radix <= 16,
                ;
                assert(0 <= v * radix) by (nonlinear_arith)
                    requires
                        0 <= v,
                        0 <= radix,
                ;
                let w: u128 = v as u128 * radix as u128 + d as u128;
                if w > max as u128 {
                    proof {
                        lemma_digits_error_stays(digits, i - start + 1, radix as nat, max as nat);
                    }
                    return Err(IntError::TooLarge);
                }
                v = w as u64;
            },
        }
        i += 1;
    }
    assert(digits.take(i - start) =~= digits);
    Ok(v)
}

// ---------------------------------------------------------------- writing

/// The digit of value `d`, for `d` below sixteen.
pub open spec fn digit_char(d: nat) -> char {
    if d < 10 {
        ('0' as nat + d) as char
    } else {
        ('a' as nat + (d - 10)) as char
    }
}

/// The decimal numeral of `n`.
pub open spec fn dec(n: nat) -> Seq<char>
    decreases n,
{
    if n < 10 {
        seq![digit_char(n)]
    } else {
        dec(n / 10).push(digit_char(n % 10))
    }
}

/// The hexadecimal numeral of `n`, in lower case.
pub open spec fn hex(n: nat) -> Seq<char>
    decreases n,
{
    if n < 16 {
        seq![digit_char(n)]
    } else {
        hex(n / 16).push(digit_char(n % 16))
    }
}

/// The hexadecimal numeral of `n`, with leading zeros up to `width` digits.
pub open spec fn hex_padded(n: nat, width: nat) -> Seq<char> {
    crate::text::padded_left(hex(n), '0', width)
}

/// The digit of value `d`.
pub fn digit(d: u64) -> (c: char)
    requires
        d < 16,
    ensures
        c == digit_char(d as nat),
{
    let b = d as u8;
    if b < 10 {
        ('0' as u8 + b) as char
    } else {
        ('a' as u8 + (b - 10)) as char
    }
}

/// The decimal numeral of `n`.
pub fn dec_text(n: u64) -> (r: String)
    ensures
        r@ == dec(n as nat),
    decreases n,
{
    if n < 10 {
        let mut r = String::new();
        r.push(digit(n));
        assert(r@ =~= seq![digit_char(n as nat)]);
        r
    } else {
        let mut r = dec_text(n / 10);
        r.push(digit(n % 10));
        r
    }
}

/// The hexadecimal numeral of `n`, in lower case.
pub fn hex_text(n: u64) -> (r: String)
    ensures
        r@ == hex(n as nat),
    decreases n,
{
    if n < 16 {
        let mut r = String::new();
        r.push(digit(n));
        assert(r@ =~= seq![digit_char(n as nat)]);
        r
    } else {
        let mut r = hex_text(n / 16);
        r.push(digit(n % 16));
        r
    }
}

/// The hexadecimal numeral of `n`, with leading zeros up to `width` digits.
pub fn hex_padded_text(n: u64, width: usize) -> (r: String)
    ensures
        r@ == hex_padded(n as nat, width as nat),
{
    let h = hex_text(n);
    crate::text::pad_left(h.as_str(), '0', width)
}

// ---------------------------------------------------------------- reading what was written

/// A decimal digit or a lower-case hexadecimal one.
pub open spec fn plain_digit(c: char) -> bool {
    '0' <= c <= '9' || 'a' <= c <= 'f'
}

proof fn lemma_digit_char(d: nat)
    requires
        d < 16,
    ensures
        plain_digit(digit_char(d)),
        digit_value(digit_char(d), 16) == Some(d),
        d < 10 ==> digit_value(digit_char(d), 10) == Some(d),
        d < 10 ==> '0' <= digit_char(d) <= '9',
{
}

/// A decimal numeral consists of digits, and reading it gives the number back.
pub proof fn lemma_dec_reads_back(n: nat, max: nat)
    requires
        n <= max,
    ensures
        dec(n).len() > 0,
        forall|i: int| 0 <= i < dec(n).len() ==> '0' <= #[trigger] dec(n)[i] <= '9',
        digits_value(dec(n), 10, max) == Ok::<nat, IntError>(n),
        numeral_value(dec(n), 10, max) == Ok::<nat, IntError>(n),
    decreases n,
{
    if n < 10 {
        lemma_digit_char(n);
        assert(dec(n).drop_last() =~= seq![]);
        reveal_with_fuel(digits_value, 2);
        assert(digits_value(dec(n), 10, max) == Ok::<nat, IntError>(n));
    } else {
        lemma_dec_reads_back(n / 10, max);
        lemma_digit_char(n % 10);
        assert(dec(n).drop_last() =~= dec(n / 10));
    }
    assert(dec(n)[0] != '+');
}

/// A hexadecimal numeral consists of digits, and reading it gives the number back.
pub proof fn lemma_hex_reads_back(n: nat, max: nat)
    requires
        n <= max,
    ensures
        hex(n).len() > 0,
        forall|i: int| 0 <= i < hex(n).len() ==> plain_digit(#[trigger] hex(n)[i]),
        digits_value(hex(n), 16, max) == Ok::<nat, IntError>(n),
        numeral_value(hex(n), 16, max) == Ok::<nat, IntError>(n),
    decreases n,
{
    if n < 16 {
        lemma_digit_char(n);
        assert(hex(n).drop_last() =~= seq![]);
        reveal_with_fuel(digits_value, 2);
        assert(digits_value(hex(n), 16, max) == Ok::<nat, IntError>(n));
    } else {
        lemma_hex_reads_back(n / 16, max);
        lemma_digit_char(n % 16);
        assert(hex(n).drop_last() =~= hex(n / 16));
    }
    assert(hex(n)[0] != '+');
}

proof fn lemma_leading_zeros(zeros: nat, s: Seq<char>, max: nat)
    ensures
        digits_value(crate::text::repeated('0', zeros) + s, 16, max) == digits_value(s, 16, max),
    decreases s.len(), zeros,
{
    let z = crate::text::repeated('0', zeros);
    if s.len() > 0 {
        assert((z + s).drop_last() =~= z + s.drop_last());
        lemma_leading_zeros(zeros, s.drop_last(), max);
    } else if zeros > 0 {
        lemma_leading_zeros((zeros - 1) as nat, s, max);
        assert((z + s).drop_last() =~= crate::text::repeated('0', (zeros - 1) as nat) + s);
        assert((z + s).last() == '0');
    } else {
        assert(z + s =~= s);
    }
}

/// Reading a zero-padded hexadecimal numeral gives the number back.
pub proof fn lemma_hex_padded_reads_back(n: nat, width: nat, max: nat)
    requires
        n <= max,
    ensures
        hex_padded(n, width).len() > 0,
        forall|i: int|
            0 <= i < hex_padded(n, width).len() ==> plain_digit(#[trigger] hex_padded(n, width)[i]),
        numeral_value(hex_padded(n, width), 16, max) == Ok::<nat, IntError>(n),
{
    lemma_hex_reads_back(n, max);
    let h = hex(n);
    if h.len() < width {
        let zeros = (width - h.len()) as nat;
        lemma_leading_zeros(zeros, h, max);
        assert forall|i: int| 0 <= i < hex_padded(n, width).len() implies plain_digit(
            #[trigger] hex_padded(n, width)[i],
        ) by {
            if i >= zeros {
                assert(hex_padded(n, width)[i] == h[i - zeros]);
            }
        }
    }
}

} // verus!
