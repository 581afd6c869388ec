//! Conversion between byte buffers and their hexadecimal text.

use vstd::prelude::*;
use crate::text::chars_of;

verus! {

/// Why a text is not the hexadecimal image of a byte buffer.
#[derive(Debug, Clone, Copy, PartialEq, Eq, Structural)]
pub enum HexError {
    /// The text has an odd number of characters.
    OddLength,
    /// The character at this index is no hexadecimal digit.
    BadDigit(usize),
}

/// The value of a hexadecimal digit, in either case.
pub open spec fn hex_char_value(c: char) -> Option<u8> {
    let u = c as u32;
    if 0x30 <= u <= 0x39 {
        Some((u - 0x30) as u8)
    } else if 0x61 <= u <= 0x66 {
        Some((u - 0x61 + 10) as u8)
    } else if 0x41 <= u <= 0x46 {
        Some((u - 0x41 + 10) as u8)
    } else {
        None
    }
}

/// The lower case hexadecimal digit for a value below 16.
pub open spec fn hex_digit_char(n: u8) -> char {
    if n < 10 {
        (0x30 + n) as char
    } else {
        (0x61 + n - 10) as char
    }
}

/// The index of the first character of `s` that is no hexadecimal digit, or
/// the length of `s` if all are.
pub open spec fn first_non_hex(s: Seq<char>) -> nat
    decreases s.len(),
{
    if s.len() == 0 || hex_char_value(s[0]) is None {
        0
    } else {
        1 + first_non_hex(s.drop_first())
    }
}

/// The bytes spelled by the digit pairs of `s`.
pub open spec fn hex_bytes(s: Seq<char>) -> Seq<u8> {
    Seq::new(
        s.len() / 2,
        |i: int| (16 * hex_char_value(s[2 * i])->0 + hex_char_value(s[2 * i + 1])->0) as u8,
    )
}

/// The lower case hexadecimal text of `b`, two digits per byte.
pub open spec fn hex_text(b: Seq<u8>) -> Seq<char> {
    Seq::new(
        2 * b.len(),
        |i: int|
            if i % 2 == 0 {
                hex_digit_char(b[i / 2] / 16)
            } else {
                hex_digit_char(b[i / 2] % 16)
            },
    )
}

/// What decoding `s` gives: an odd length is reported first, then the first
/// character that is no digit.
pub open spec fn decoded(s: Seq<char>) -> Result<Seq<u8>, HexError> {
    if s.len() % 2 != 0 {
        Err(HexError::OddLength)
    } else if first_non_hex(s) < s.len() {
        Err(HexError::BadDigit(first_non_hex(s) as usize))
    } else {
        Ok(hex_bytes(s))
    }
}

proof fn lemma_first_non_hex(s: Seq<char>, k: int)
    requires
        0 <= k <= s.len(),
        forall|j: int| 0 <= j < k ==> hex_char_value(s[j]) is Some,
        k < s.len() ==> hex_char_value(s[k]) is None,
    ensures
        first_non_hex(s) == k,
    decreases k,
{
    if k > 0 {
        let t = s.drop_first();
        assert forall|j: int| 0 <= j < k - 1 implies hex_char_value(t[j]) is Some by {
            assert(t[j] == s[j + 1]);
        }
        lemma_first_non_hex(t, k - 1);
    }
}

fn hex_value(c: char) -> (r: Option<u8>)
    ensures
        r == hex_char_value(c),
{
    let u: u32 = c as u32;
    if 0x30 <= u && u <= 0x39 {
        Some((u - 0x30) as u8)
    } else if 0x61 <= u && u <= 0x66 {
        Some((u - 0x61 + 10) as u8)
    } else if 0x41 <= u && u <= 0x46 {
        Some((u - 0x41 + 10) as u8)
    } else {
        None
    }
}

fn hex_digit(n: u8) -> (c: char)
    requires
        n < 16,
    ensures
        c == hex_digit_char(n),
{
    if n < 10 {
        (0x30 + n) as char
    } else {
        (0x61 + n - 10) as char
    }
}

/// Decodes hexadecimal characters into bytes.
pub fn bytes_from_hex_chars(v: &Vec<char>) -> (r: Result<Vec<u8>, HexError>)
    ensures
        match r {
            Ok(b) => decoded(v@) == Ok::<Seq<u8>, HexError>(b@),
            Err(e) => decoded(v@) == Err::<Seq<u8>, HexError>(e),
        },
{
    let n = v.len();
    if n % 2 != 0 {
        return Err(HexError::OddLength);
    }
    let mut out: Vec<u8> = Vec::new();
    let mut i: usize = 0;
    while i < n
        invariant
            i <= n == v.len(),
            n % 2 == 0,
            i % 2 == 0,
            forall|j: int| 0 <= j < i ==> hex_char_value(v@[j]) is Some,
            out.len() == i / 2,
            forall|j: int| 0 <= j < out.len() ==> out@[j] == hex_bytes(v@)[j],
        decreases n - i,
    {
        let hi = match hex_value(v[i]) {
            Some(h) => h,
            None => {
                proof {
                    lemma_first_non_hex(v@, i as int);
                }
                return Err(HexError::BadDigit(i));
            },
        };
        let lo = match hex_value(v[i + 1]) {
            Some(l) => l,
            None => {
                proof {
                    lemma_first_non_hex(v@, i + 1);
                }
                return Err(HexError::BadDigit(i + 1));
            },
        };
        out.push(16 * hi + lo);
        i += 2;
    }
    proof {
        lemma_first_non_hex(v@, n as int);
        assert(out@ =~= hex_bytes(v@));
    }
    Ok(out)
}

/// Converts a hexadecimal string to the bytes it spells. Digits may be of
/// either case; the text must hold two of them for each byte.
pub fn vu8_from_hex(ins: &str) -> (r: Result<Vec<u8>, HexError>)
    ensures
        match r {
            Ok(b) => decoded(ins@) == Ok::<Seq<u8>, HexError>(b@),
            Err(e) => decoded(ins@) == Err::<Seq<u8>, HexError>(e),
        },
{
    let v = chars_of(ins);
    bytes_from_hex_chars(&v)
}

/// Converts bytes to their lower case hexadecimal string.
pub fn hex_from_vu8(inv: &Vec<u8>) -> (outs: String)
    ensures
        outs@ == hex_text(inv@),
{
    let mut outs = String::new();
    let mut i: usize = 0;
    assert(outs@ =~= hex_text(inv@.take(0)));
    while i < inv.len()
        invariant
            i <= inv.len(),
            outs@ == hex_text(inv@.take(i as int)),
        decreases inv.len() - i,
    {
        let cu8 = inv[i];
        let ghost before = outs@;
        outs.push(hex_digit(cu8 / 16));
        outs.push(hex_digit(cu8 % 16));
        i += 1;
        assert(outs@ =~= hex_text(inv@.take(i as int))) by {
            let a = inv@.take(i - 1);
            let b = inv@.take(i as int);
            assert(outs@.len() == hex_text(b).len());
            assert forall|j: int| 0 <= j < outs@.len() implies outs@[j] == hex_text(b)[j] by {
                if j < before.len() {
                    assert(before[j] == hex_text(a)[j]);
                    assert(a[j / 2] == b[j / 2]);
                }
            }
        }
    }
    assert(inv@.take(inv.len() as int) =~= inv@);
    outs
}

/// Decoding the hexadecimal text of a buffer gives the buffer back.
pub proof fn lemma_hex_round_trip(b: Seq<u8>)
    ensures
        decoded(hex_text(b)) == Ok::<Seq<u8>, HexError>(b),
{
    let s = hex_text(b);
    assert forall|j: int| 0 <= j < s.len() implies hex_char_value(s[j]) is Some by {
        lemma_digit_value(b[j / 2] / 16);
        lemma_digit_value(b[j / 2] % 16);
    }
    lemma_first_non_hex(s, s.len() as int);
    assert(hex_bytes(s) =~= b) by {
        assert forall|i: int| 0 <= i < b.len() implies hex_bytes(s)[i] == b[i] by {
            lemma_digit_value(b[i] / 16);
            lemma_digit_value(b[i] % 16);
            assert(s[2 * i] == hex_digit_char(b[(2 * i) / 2] / 16));
            assert(s[2 * i + 1] == hex_digit_char(b[(2 * i + 1) / 2] % 16));
        }
    }
}

proof fn lemma_digit_value(n: u8)
    requires
        n < 16,
    ensures
        hex_char_value(hex_digit_char(n)) == Some(n),
{
}

} // verus!
