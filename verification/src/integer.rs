//! Integers and their text: reading decimal and hexadecimal literals, and
//! writing decimal.

use vstd::prelude::*;
use crate::hex::hex_char_value;
use crate::text::{char_is_whitespace, chars_of, drop_ws_end, skip_ws, string_of, trim, trimmed};

verus! {

/// Why a text is not an integer.
#[derive(Debug, Clone, Copy, PartialEq, Eq, Structural)]
pub enum IntError {
    /// The text is empty, is a bare sign, or holds a character that is no
    /// digit of its radix.
    Malformed,
    /// The digits spell a number that `isize` cannot hold.
    OutOfRange,
}

/// A `u8` that is made from an `isize` only when the value fits.
#[derive(Debug, Clone, Copy, PartialEq, Eq, Structural)]
pub struct U8X(pub u8);

impl U8X {
    /// The wrapper for `ival`, if `ival` lies within `0..=255`.
    pub fn from_isize(ival: isize) -> (r: Option<U8X>)
        ensures
            r == if 0 <= ival <= u8::MAX {
                Some(U8X(ival as u8))
            } else {
                None
            },
    {
        if ival < 0 || ival > 255 {
            None
        } else {
            Some(U8X(ival as u8))
        }
    }

    /// The wrapped byte.
    pub fn into_u8(self) -> (r: u8)
        ensures
            r == self.0,
    {
        self.0
    }
}

/// The value of `c` as a digit of the given radix, which is 10 or 16.
pub open spec fn digit_value(c: char, radix: int) -> Option<int> {
    match hex_char_value(c) {
        Some(v) => if v < radix {
            Some(v as int)
        } else {
            None
        },
        None => None,
    }
}

/// Whether every character of `s` is a digit of the radix.
pub open spec fn all_digits(s: Seq<char>, radix: int) -> bool {
    forall|i: int| 0 <= i < s.len() ==> (#[trigger] digit_value(s[i], radix)) is Some
}

/// The number that the digits `s` spell, most significant first.
pub open spec fn digits_value(s: Seq<char>, radix: int) -> int
    decreases s.len(),
{
    if s.len() == 0 {
        0
    } else {
        digits_value(s.drop_last(), radix) * radix + digit_value(s.last(), radix)->0
    }
}

/// The number spelled by an optional sign and at least one digit.
pub open spec fn signed_value(s: Seq<char>, radix: int) -> Option<int> {
    let signed = s.len() > 0 && (s[0] == '-' || s[0] == '+');
    let body = if signed {
        s.drop_first()
    } else {
        s
    };
    if body.len() == 0 || !all_digits(body, radix) {
        None
    } else if signed && s[0] == '-' {
        Some(-digits_value(body, radix))
    } else {
        Some(digits_value(body, radix))
    }
}

/// The number that an integer literal spells: surrounding white space is
/// ignored; after the prefix `0x` the digits are hexadecimal, else decimal.
pub open spec fn literal_value(s: Seq<char>) -> Option<int> {
    let t = trimmed(s);
    if t.len() >= 2 && t[0] == '0' && t[1] == 'x' {
        signed_value(t.skip(2), 16)
    } else {
        signed_value(t, 10)
    }
}

/// What reading `s` as an `isize` gives.
pub open spec fn parsed(s: Seq<char>) -> Result<isize, IntError> {
    match literal_value(s) {
        None => Err(IntError::Malformed),
        Some(v) => if isize::MIN <= v <= isize::MAX {
            Ok(v as isize)
        } else {
            Err(IntError::OutOfRange)
        },
    }
}

fn digit_of(c: char, radix: u8) -> (r: Option<u8>)
    requires
        radix == 10 || radix == 16,
    ensures
        match r {
            Some(d) => digit_value(c, radix as int) == Some(d as int) && d < radix,
            None => digit_value(c, radix as int) is None,
        },
{
    let u: u32 = c as u32;
    let v: u8 = if 0x30 <= u && u <= 0x39 {
        (u - 0x30) as u8
    } else if 0x61 <= u && u <= 0x66 {
        (u - 0x61 + 10) as u8
    } else if 0x41 <= u && u <= 0x46 {
        (u - 0x41 + 10) as u8
    } else {
        return None;
    };
    if v < radix {
        Some(v)
    } else {
        None
    }
}

proof fn lemma_digits_value_nonneg(s: Seq<char>, radix: int)
    requires
        radix == 10 || radix == 16,
        all_digits(s, radix),
    ensures
        digits_value(s, radix) >= 0,
    decreases s.len(),
{
    if s.len() > 0 {
        assert(all_digits(s.drop_last(), radix)) by {
            assert forall|i: int| 0 <= i < s.drop_last().len() implies (#[trigger] digit_value(
                s.drop_last()[i],
                radix,
            )) is Some by {
                assert(digit_value(s[i], radix) is Some);
            }
        }
        lemma_digits_value_nonneg(s.drop_last(), radix);
        assert(digit_value(s.last(), radix) is Some);
    }
}

/// The largest magnitude that the digit scanner tells apart: 2^64.
pub open spec fn scan_limit() -> int {
    0x1_0000_0000_0000_0000
}

/// Reads the digits `v[start..]`. `None` means that there is no digit or
/// that some character is none. A number above 2^64 is reported as 2^64 + 1.
fn scan_digits(v: &Vec<char>, start: usize, radix: u8) -> (r: Option<u128>)
    requires
        start <= v.len(),
        radix == 10 || radix == 16,
    ensures
        r is None <==> (start == v.len() || !all_digits(v@.skip(start as int), radix as int)),
        r is Some ==> r->0 == (if digits_value(v@.skip(start as int), radix as int)
            > scan_limit() {
            scan_limit() + 1
        } else {
            digits_value(v@.skip(start as int), radix as int)
        }),
{
    let n = v.len();
    let ghost body = v@.skip(start as int);
    if start == n {
        return None;
    }
    let limit: u128 = 0x1_0000_0000_0000_0000;
    let mut acc: u128 = 0;
    let mut big = false;
    let mut i: usize = start;
    assert(body.take(0) =~= Seq::<char>::empty());
    while i < n
        invariant
            start <= i <= n == v.len(),
            radix == 10 || radix == 16,
            body == v@.skip(start as int),
            limit == 0x1_0000_0000_0000_0000,
            all_digits(body.take(i - start), radix as int),
            !big ==> acc == digits_value(body.take(i - start), radix as int) && acc <= limit,
            big ==> digits_value(body.take(i - start), radix as int) > limit,
        decreases n - i,
    {
        let ghost prev = body.take(i - start);
        let ghost next = body.take(i - start + 1);
        assert(next.drop_last() =~= prev);
        assert(next.last() == v@[i as int]);
        match digit_of(v[i], radix) {
            None => {
                assert(digit_value(body[i - start], radix as int) is None);
                return None;
            },
            Some(d) => {
                proof {
                    assert forall|j: int| 0 <= j < next.len() implies (#[trigger] digit_value(
                        next[j],
                        radix as int,
                    )) is Some by {
                        if j < prev.len() {
                            assert(digit_value(prev[j], radix as int) is Some);
                        }
                    }
                    let p = digits_value(prev, radix as int);
                    let r = radix as int;
                    lemma_digits_value_nonneg(prev, r);
                    assert(p * r >= p) by (nonlinear_arith)
                        requires
                            p >= 0,
                            r >= 1,
                    ;
                    assert(digits_value(next, r) == p * r + d);
                }
                if !big {
                    assert(acc * radix <= 0x10_0000_0000_0000_0000) by (nonlinear_arith)
                        requires
                            acc <= 0x1_0000_0000_0000_0000,
                            radix <= 16,
                    ;
                    acc = acc * (radix as u128) + (d as u128);
                    if acc > limit {
                        big = true;
                    }
                }
            },
        }
        i += 1;
    }
    assert(body.take(n - start) =~= body);
    if big {
        Some(limit + 1)
    } else {
        Some(acc)
    }
}

/// Reads an optional sign and digits from `v[from..]`.
fn signed_from(v: &Vec<char>, from: usize, radix: u8) -> (r: Result<isize, IntError>)
    requires
        from <= v.len(),
        radix == 10 || radix == 16,
    ensures
        r == match signed_value(v@.skip(from as int), radix as int) {
            None => Err::<isize, IntError>(IntError::Malformed),
            Some(x) => if isize::MIN <= x <= isize::MAX {
                Ok(x as isize)
            } else {
                Err(IntError::OutOfRange)
            },
        },
{
    let n = v.len();
    let ghost s = v@.skip(from as int);
    let mut start = from;
    let mut neg = false;
    if from < n && (v[from] == '-' || v[from] == '+') {
        neg = v[from] == '-';
        start = from + 1;
        assert(s.drop_first() =~= v@.skip(start as int));
    }
    let acc = match scan_digits(v, start, radix) {
        None => {
            return Err(IntError::Malformed);
        },
        Some(m) => m,
    };
    proof {
        vstd::layout::signed_int_min_max_values();
        vstd::layout::unsigned_int_max_values();
        assert(isize::MAX < 0x1_0000_0000_0000_0000);
        assert(-isize::MIN <= 0x1_0000_0000_0000_0000);
    }
    let max: u128 = isize::MAX as u128;
    if neg {
        if acc > max + 1 {
            Err(IntError::OutOfRange)
        } else if acc == max + 1 {
            Ok(isize::MIN)
        } else {
            Ok(-(acc as isize))
        }
    } else {
        if acc > max {
            Err(IntError::OutOfRange)
        } else {
            Ok(acc as isize)
        }
    }
}

/// The count that a text spells: decimal digits, which a plus sign may
/// precede, within the range of `usize`.
pub open spec fn count_value(s: Seq<char>) -> Option<usize> {
    let body = if s.len() > 0 && s[0] == '+' {
        s.drop_first()
    } else {
        s
    };
    if body.len() == 0 || !all_digits(body, 10) || digits_value(body, 10) > usize::MAX {
        None
    } else {
        Some(digits_value(body, 10) as usize)
    }
}

/// Reads a count from `v[from..]`.
pub fn count_from(v: &Vec<char>, from: usize) -> (r: Option<usize>)
    requires
        from <= v.len(),
    ensures
        r == count_value(v@.skip(from as int)),
{
    let n = v.len();
    let ghost s = v@.skip(from as int);
    let mut start = from;
    if from < n && v[from] == '+' {
        start = from + 1;
        assert(s.drop_first() =~= v@.skip(start as int));
    }
    proof {
        vstd::layout::unsigned_int_max_values();
        assert(usize::MAX < 0x1_0000_0000_0000_0000);
        if start < n {
            lemma_digits_value_nonneg_if(v@.skip(start as int));
        }
    }
    match scan_digits(v, start, 10) {
        None => None,
        Some(m) => if m > usize::MAX as u128 {
            None
        } else {
            Some(m as usize)
        },
    }
}

proof fn lemma_digits_value_nonneg_if(s: Seq<char>)
    ensures
        all_digits(s, 10) ==> digits_value(s, 10) >= 0,
{
    if all_digits(s, 10) {
        lemma_digits_value_nonneg(s, 10);
    }
}

/// Reads an integer literal from characters.
pub fn int_from_chars(v: &Vec<char>) -> (r: Result<isize, IntError>)
    ensures
        r == parsed(v@),
{
    let t = trim(v);
    if t.len() >= 2 && t[0] == '0' && t[1] == 'x' {
        signed_from(&t, 2, 16)
    } else {
        assert(t@.skip(0) =~= t@);
        signed_from(&t, 0, 10)
    }
}

/// Converts a string to an `isize`, reading it as hexadecimal if it starts
/// with `0x` and as decimal otherwise. White space around it is ignored and
/// a sign may precede the digits.
pub fn intvalue(sval: &str) -> (r: Result<isize, IntError>)
    ensures
        r == parsed(sval@),
{
    let v = chars_of(sval);
    int_from_chars(&v)
}

/// The decimal digit for a value below 10.
pub open spec fn decimal_char(d: nat) -> char {
    (0x30 + d) as char
}

/// The decimal digits of `n`, most significant first, without leading zeros.
pub open spec fn decimal_digits(n: nat) -> Seq<char>
    decreases n,
{
    if n < 10 {
        seq![decimal_char(n)]
    } else {
        decimal_digits(n / 10).push(decimal_char(n % 10))
    }
}

/// The decimal text of `i`: a minus sign if it is negative, then the digits
/// of its magnitude.
pub open spec fn decimal_text(i: int) -> Seq<char> {
    if i < 0 {
        seq!['-'] + decimal_digits((-i) as nat)
    } else {
        decimal_digits(i as nat)
    }
}

fn push_decimal(n: u128, out: &mut Vec<char>)
    ensures
        final(out)@ == old(out)@ + decimal_digits(n as nat),
    decreases n,
{
    if n >= 10 {
        push_decimal(n / 10, out);
    }
    let d: u8 = (n % 10) as u8;
    out.push((0x30 + d) as char);
    assert(final(out)@ =~= old(out)@ + decimal_digits(n as nat));
}

/// The decimal text of an unsigned number.
pub fn decimal_of_u128(n: u128) -> (s: String)
    ensures
        s@ == decimal_text(n as int),
{
    let mut out: Vec<char> = Vec::new();
    push_decimal(n, &mut out);
    assert(out@ =~= decimal_digits(n as nat));
    string_of(&out)
}

/// The decimal text of a signed number.
pub fn decimal_of(i: isize) -> (s: String)
    ensures
        s@ == decimal_text(i as int),
{
    let mut out: Vec<char> = Vec::new();
    if i < 0 {
        out.push('-');
        let mag: u128 = ((-(i + 1)) as u128) + 1;
        push_decimal(mag, &mut out);
    } else {
        push_decimal(i as u128, &mut out);
    }
    assert(out@ =~= decimal_text(i as int));
    string_of(&out)
}

proof fn lemma_decimal_digits(n: nat)
    ensures
        decimal_digits(n).len() >= 1,
        all_digits(decimal_digits(n), 10),
        digits_value(decimal_digits(n), 10) == n,
        forall|i: int|
            0 <= i < decimal_digits(n).len() ==> 0x30 <= (#[trigger] decimal_digits(n)[i]) as u32
                <= 0x39,
    decreases n,
{
    let s = decimal_digits(n);
    if n < 10 {
        assert(digit_value(s[0], 10) == Some(n as int));
        assert(s.drop_last() =~= Seq::<char>::empty());
        assert(digits_value(s.drop_last(), 10) == 0);
    } else {
        lemma_decimal_digits(n / 10);
        let t = decimal_digits(n / 10);
        assert(s.drop_last() =~= t);
        assert(digit_value(s.last(), 10) == Some((n % 10) as int));
        assert forall|i: int| 0 <= i < s.len() implies (#[trigger] digit_value(s[i], 10)) is Some by {
            if i < t.len() {
                assert(digit_value(t[i], 10) is Some);
            }
        }
        assert forall|i: int| 0 <= i < s.len() implies 0x30 <= (#[trigger] s[i]) as u32
            <= 0x39 by {
            if i < t.len() {
                assert(s[i] == t[i]);
            }
        }
    }
}

proof fn lemma_untrimmed(s: Seq<char>)
    requires
        s.len() > 0,
        !char_is_whitespace(s[0]),
        !char_is_whitespace(s.last()),
    ensures
        trimmed(s) == s,
{
    assert(skip_ws(s) == s);
    assert(drop_ws_end(s) == s);
}

/// The decimal text of a number reads back as that number.
pub proof fn lemma_decimal_round_trip(i: int)
    ensures
        literal_value(decimal_text(i)) == Some(i),
{
    let mag: nat = if i < 0 {
        (-i) as nat
    } else {
        i as nat
    };
    let d = decimal_digits(mag);
    let s = decimal_text(i);
    lemma_decimal_digits(mag);
    assert(0x30 <= d[0] as u32 <= 0x39);
    assert(0x30 <= d.last() as u32 <= 0x39);
    if i < 0 {
        assert(s.last() == d.last());
        assert(s.drop_first() =~= d);
        lemma_untrimmed(s);
    } else {
        lemma_untrimmed(s);
        if s.len() >= 2 {
            assert(0x30 <= d[1] as u32 <= 0x39);
        }
    }
}

/// The decimal text of an `isize` reads back as that `isize`.
pub proof fn lemma_intvalue_of_decimal(i: isize)
    ensures
        parsed(decimal_text(i as int)) == Ok::<isize, IntError>(i),
{
    lemma_decimal_round_trip(i as int);
}

} // verus!
