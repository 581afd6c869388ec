//! The values of the machine and their three faces: integer, text, bytes.

use vstd::prelude::*;
use vstd::arithmetic::power::pow;
use vstd::string::StrSliceExecFns;
use crate::entropy::{now_millis, random_bytes};
use crate::hex::{hex_from_vu8, hex_text};
use crate::image::{
    image, int_image, int_of_image, isize_from_ne_bytes, isize_to_ne_bytes, signed_of,
    u128_to_ne_bytes, word_width, ByteOrder,
};
use crate::integer::{decimal_of, decimal_of_u128, decimal_text, intvalue, parsed};
use crate::text::{string_from_utf8_lossy, utf8_lossy};
use crate::vm::error::{as_size, lift_int, RuntimeError};

verus! {

/// The kind of a value.
#[derive(Debug, Clone, Copy, PartialEq, Eq, Structural)]
pub enum VDataType {
    Unknown,
    Integer,
    String,
    Buffer,
    Special,
}

/// A value: an integer, a text, a buffer, or one of the two specials that
/// are made anew each time they are read.
#[derive(Debug, Clone, PartialEq, Eq)]
pub enum Variant {
    IntValue(isize),
    StrValue(String),
    BufValue(Vec<u8>),
    /// Reads as this many fresh random bytes.
    XRandomBytes(usize),
    /// Reads as the milliseconds elapsed since the Unix epoch.
    XTimeStamp,
}

/// What a `Variant` holds, as mathematics.
pub enum VariantView {
    IntValue(isize),
    StrValue(Seq<char>),
    BufValue(Seq<u8>),
    XRandomBytes(usize),
    XTimeStamp,
}

impl View for Variant {
    type V = VariantView;

    open spec fn view(&self) -> VariantView {
        match self {
            Variant::IntValue(i) => VariantView::IntValue(*i),
            Variant::StrValue(s) => VariantView::StrValue(s@),
            Variant::BufValue(b) => VariantView::BufValue(b@),
            Variant::XRandomBytes(n) => VariantView::XRandomBytes(*n),
            Variant::XTimeStamp => VariantView::XTimeStamp,
        }
    }
}

/// A count of milliseconds cut down to a machine word, as a signed integer.
pub open spec fn millis_int(ms: u128) -> int {
    signed_of((ms as nat % pow(256, word_width()) as nat) as nat, word_width())
}

/// Whether `r` is the integer image of `b` in one of the two byte orders.
pub open spec fn is_int_of(b: Seq<u8>, r: isize) -> bool {
    r == int_of_image(ByteOrder::Little, b) || r == int_of_image(ByteOrder::Big, b)
}

/// Whether `b` is the word image of `i` in one of the two byte orders.
pub open spec fn is_image_of(i: isize, b: Seq<u8>) -> bool {
    b == int_image(ByteOrder::Little, i) || b == int_image(ByteOrder::Big, i)
}

/// Whether `b` is the sixteen byte image of `ms` in one of the two byte
/// orders.
pub open spec fn is_millis_image(ms: u128, b: Seq<u8>) -> bool {
    b == image(ByteOrder::Little, ms as nat, 16) || b == image(ByteOrder::Big, ms as nat, 16)
}

/// What reading a buffer as an integer may give: the buffer must be exactly
/// one machine word long.
pub open spec fn buf_reads_as_int(b: Seq<u8>, r: Result<isize, RuntimeError>) -> bool {
    if b.len() != word_width() {
        r == Err::<isize, RuntimeError>(RuntimeError::BufLen)
    } else {
        r is Ok && is_int_of(b, r->Ok_0)
    }
}

/// The time stamp as an integer, given what the clock shows: the
/// milliseconds since the Unix epoch, or nothing if it shows a time before
/// the epoch.
pub open spec fn stamp_int(now: Option<u128>) -> Result<isize, RuntimeError> {
    match now {
        Some(ms) => Ok(millis_int(ms) as isize),
        None => Err(RuntimeError::Clock),
    }
}

/// The time stamp as text, given what the clock shows.
pub open spec fn stamp_text(now: Option<u128>) -> Result<Seq<char>, RuntimeError> {
    match now {
        Some(ms) => Ok(decimal_text(ms as int)),
        None => Err(RuntimeError::Clock),
    }
}

/// What reading the time stamp as an integer may give.
pub open spec fn stamp_reads_as_int(r: Result<isize, RuntimeError>) -> bool {
    exists|now: Option<u128>| r == #[trigger] stamp_int(now)
}

/// What reading `n` random bytes as an integer may give: a machine word of
/// them is used, so fewer than that cannot be read.
pub open spec fn random_reads_as_int(n: usize, r: Result<isize, RuntimeError>) -> bool {
    if n < word_width() {
        r == Err::<isize, RuntimeError>(RuntimeError::BufLen)
    } else {
        r is Ok
    }
}

/// What reading the time stamp as text may give.
pub open spec fn stamp_reads_as_text(r: Result<Seq<char>, RuntimeError>) -> bool {
    exists|now: Option<u128>| r == #[trigger] stamp_text(now)
}

/// What reading `n` random bytes as text may give.
pub open spec fn random_reads_as_text(n: usize, r: Result<Seq<char>, RuntimeError>) -> bool {
    exists|b: Seq<u8>|
        b.len() == n && r == Ok::<Seq<char>, RuntimeError>(#[trigger] utf8_lossy(b))
}

/// What reading the time stamp as bytes may give.
pub open spec fn stamp_reads_as_bytes(r: Result<Seq<u8>, RuntimeError>) -> bool {
    r == Err::<Seq<u8>, RuntimeError>(RuntimeError::Clock) || (r is Ok && exists|ms: u128| #[trigger]
        is_millis_image(ms, r->Ok_0))
}

/// What reading `n` random bytes may give.
pub open spec fn random_reads_as_bytes(n: usize, r: Result<Seq<u8>, RuntimeError>) -> bool {
    r is Ok && r->Ok_0.len() == n
}

/// Whether `r` may be what reading `v` as an integer gives. For the three
/// stored kinds exactly one `r` qualifies, up to the byte order of the host.
pub open spec fn reads_as_int(v: VariantView, r: Result<isize, RuntimeError>) -> bool {
    match v {
        VariantView::IntValue(i) => r == Ok::<isize, RuntimeError>(i),
        VariantView::StrValue(s) => r == lift_int(parsed(s)),
        VariantView::BufValue(b) => buf_reads_as_int(b, r),
        VariantView::XTimeStamp => stamp_reads_as_int(r),
        VariantView::XRandomBytes(n) => random_reads_as_int(n, r),
    }
}

/// Whether `r` may be what reading `v` as text gives.
pub open spec fn reads_as_text(v: VariantView, r: Result<Seq<char>, RuntimeError>) -> bool {
    match v {
        VariantView::IntValue(i) => r == Ok::<Seq<char>, RuntimeError>(decimal_text(i as int)),
        VariantView::StrValue(s) => r == Ok::<Seq<char>, RuntimeError>(s),
        VariantView::BufValue(b) => r == Ok::<Seq<char>, RuntimeError>(hex_text(b)),
        VariantView::XTimeStamp => stamp_reads_as_text(r),
        VariantView::XRandomBytes(n) => random_reads_as_text(n, r),
    }
}

/// Whether `r` may be what reading `v` as bytes gives.
pub open spec fn reads_as_bytes(v: VariantView, r: Result<Seq<u8>, RuntimeError>) -> bool {
    match v {
        VariantView::IntValue(i) => r is Ok && is_image_of(i, r->Ok_0),
        VariantView::StrValue(s) => r == Ok::<Seq<u8>, RuntimeError>(vstd::utf8::encode_utf8(s)),
        VariantView::BufValue(b) => r == Ok::<Seq<u8>, RuntimeError>(b),
        VariantView::XTimeStamp => stamp_reads_as_bytes(r),
        VariantView::XRandomBytes(n) => random_reads_as_bytes(n, r),
    }
}

/// The view of a text result.
pub open spec fn text_view(r: Result<String, RuntimeError>) -> Result<Seq<char>, RuntimeError> {
    match r {
        Ok(s) => Ok(s@),
        Err(e) => Err(e),
    }
}

/// The view of a bytes result.
pub open spec fn bytes_view(r: Result<Vec<u8>, RuntimeError>) -> Result<Seq<u8>, RuntimeError> {
    match r {
        Ok(b) => Ok(b@),
        Err(e) => Err(e),
    }
}

/// Cuts a count of milliseconds down to a machine word and reads the word
/// as a signed integer.
pub fn millis_as_int(ms: u128) -> (r: isize)
    ensures
        r == millis_int(ms),
{
    proof {
        vstd::layout::unsigned_int_max_values();
        vstd::layout::signed_int_min_max_values();
    }
    let modulus: u128 = usize::MAX as u128 + 1;
    let low: u128 = ms % modulus;
    if low > isize::MAX as u128 {
        (low as i128 - modulus as i128) as isize
    } else {
        low as isize
    }
}

/// Reads text as an integer.
pub fn text_as_int(s: &str) -> (r: Result<isize, RuntimeError>)
    ensures
        r == lift_int(parsed(s@)),
{
    match intvalue(s) {
        Ok(i) => Ok(i),
        Err(e) => Err(RuntimeError::BadInt(e)),
    }
}

/// Reads a buffer as an integer in the byte order of the host.
pub fn buf_as_int(b: &Vec<u8>) -> (r: Result<isize, RuntimeError>)
    ensures
        buf_reads_as_int(b@, r),
{
    if b.len() != core::mem::size_of::<isize>() {
        Err(RuntimeError::BufLen)
    } else {
        Ok(isize_from_ne_bytes(b))
    }
}

/// The time stamp as an integer, given what the clock shows.
pub fn int_of_stamp(now: Option<u128>) -> (r: Result<isize, RuntimeError>)
    ensures
        r == stamp_int(now),
{
    match now {
        Some(ms) => Ok(millis_as_int(ms)),
        None => Err(RuntimeError::Clock),
    }
}

/// The time stamp as decimal text, given what the clock shows.
pub fn text_of_stamp(now: Option<u128>) -> (r: Result<String, RuntimeError>)
    ensures
        text_view(r) == stamp_text(now),
{
    match now {
        Some(ms) => Ok(decimal_of_u128(ms)),
        None => Err(RuntimeError::Clock),
    }
}

/// Reads the clock as an integer.
pub(crate) fn stamp_as_int() -> (r: Result<isize, RuntimeError>)
    ensures
        stamp_reads_as_int(r),
{
    let now = now_millis();
    let r = int_of_stamp(now);
    assert(r == stamp_int(now));
    r
}

/// Draws an integer from `n` random bytes: a machine word of them is
/// drawn and decoded.
pub(crate) fn random_as_int(n: usize) -> (r: Result<isize, RuntimeError>)
    ensures
        random_reads_as_int(n, r),
{
    let word = core::mem::size_of::<isize>();
    if n < word {
        Err(RuntimeError::BufLen)
    } else {
        let b = random_bytes(word);
        buf_as_int(&b)
    }
}

/// Reads the clock as decimal text.
pub(crate) fn stamp_as_text() -> (r: Result<String, RuntimeError>)
    ensures
        stamp_reads_as_text(text_view(r)),
{
    let now = now_millis();
    let r = text_of_stamp(now);
    assert(text_view(r) == stamp_text(now));
    r
}

/// Draws `n` random bytes and reads them as text.
pub(crate) fn random_as_text(n: usize) -> (r: Result<String, RuntimeError>)
    ensures
        random_reads_as_text(n, text_view(r)),
{
    let b = random_bytes(n);
    Ok(string_from_utf8_lossy(&b))
}

/// Reads the clock as the sixteen byte image of the milliseconds.
pub(crate) fn stamp_as_bytes() -> (r: Result<Vec<u8>, RuntimeError>)
    ensures
        stamp_reads_as_bytes(bytes_view(r)),
{
    match now_millis() {
        Some(ms) => {
            let r = Ok(u128_to_ne_bytes(ms));
            assert(is_millis_image(ms, bytes_view(r)->Ok_0));
            r
        },
        None => Err(RuntimeError::Clock),
    }
}

/// The UTF-8 bytes of a text.
pub fn text_as_bytes(s: &str) -> (b: Vec<u8>)
    ensures
        b@ == vstd::utf8::encode_utf8(s@),
{
    s.as_bytes_vec()
}

/// A copy of a buffer.
pub fn copy_bytes(b: &Vec<u8>) -> (r: Vec<u8>)
    ensures
        r@ == b@,
{
    let mut r: Vec<u8> = Vec::new();
    let mut i: usize = 0;
    while i < b.len()
        invariant
            i <= b.len(),
            r@ == b@.take(i as int),
        decreases b.len() - i,
    {
        r.push(b[i]);
        i += 1;
        assert(b@.take(i as int) =~= b@.take(i - 1).push(b@[i - 1]));
    }
    assert(b@.take(b.len() as int) =~= b@);
    r
}

/// The text of an integer value reads back as that integer.
pub proof fn lemma_int_text_round_trip(i: isize, t: Seq<char>)
    requires
        reads_as_text(VariantView::IntValue(i), Ok(t)),
    ensures
        reads_as_int(VariantView::StrValue(t), Ok(i)),
{
    crate::integer::lemma_intvalue_of_decimal(i);
}

/// The bytes of an integer value are one machine word, and decoding them
/// in the byte order in which they were laid out gives the integer back.
pub proof fn lemma_int_bytes_round_trip(i: isize, b: Seq<u8>)
    requires
        reads_as_bytes(VariantView::IntValue(i), Ok(b)),
    ensures
        b.len() == word_width(),
        forall|order: ByteOrder| b == int_image(order, i) ==> int_of_image(order, b) == i,
        exists|r: isize| reads_as_int(VariantView::BufValue(b), Ok(r)),
{
    crate::image::lemma_int_image_round_trip(ByteOrder::Little, i);
    crate::image::lemma_int_image_round_trip(ByteOrder::Big, i);
    let r = int_of_image(ByteOrder::Little, b) as isize;
    crate::image::lemma_int_of_image_fits(ByteOrder::Little, b);
    assert(reads_as_int(VariantView::BufValue(b), Ok(r)));
}

/// An integer read as a size: a negative one is refused.
pub fn size_of_int(i: Result<isize, RuntimeError>) -> (r: Result<usize, RuntimeError>)
    ensures
        r == as_size(i),
{
    match i {
        Ok(ival) => if ival < 0 {
            Err(RuntimeError::Negative)
        } else {
            Ok(ival as usize)
        },
        Err(e) => Err(e),
    }
}

impl Variant {
    /// The kind of the value; the two specials share one.
    pub fn get_type(&self) -> (t: VDataType)
        ensures
            t == match self@ {
                VariantView::IntValue(_) => VDataType::Integer,
                VariantView::StrValue(_) => VDataType::String,
                VariantView::BufValue(_) => VDataType::Buffer,
                VariantView::XRandomBytes(_) => VDataType::Special,
                VariantView::XTimeStamp => VDataType::Special,
            },
    {
        match self {
            Variant::IntValue(_) => VDataType::Integer,
            Variant::StrValue(_) => VDataType::String,
            Variant::BufValue(_) => VDataType::Buffer,
            Variant::XRandomBytes(_) => VDataType::Special,
            Variant::XTimeStamp => VDataType::Special,
        }
    }

    /// The value as an integer: an integer as it is, a text by reading it
    /// as a literal, a buffer of one machine word by decoding it in the
    /// byte order of the host, the time stamp as the clock's milliseconds
    /// cut down to a word, random bytes as a word of them.
    pub fn get_isize(&self) -> (r: Result<isize, RuntimeError>)
        ensures
            reads_as_int(self@, r),
    {
        match self {
            Variant::IntValue(ival) => Ok(*ival),
            Variant::StrValue(sval) => text_as_int(sval.as_str()),
            Variant::BufValue(bval) => buf_as_int(bval),
            Variant::XTimeStamp => stamp_as_int(),
            Variant::XRandomBytes(bytelen) => random_as_int(*bytelen),
        }
    }

    /// The value as a size: its integer face, refused if negative.
    pub fn get_usize(&self) -> (r: Result<usize, RuntimeError>)
        ensures
            exists|i: Result<isize, RuntimeError>| reads_as_int(self@, i) && r == as_size(i),
    {
        let i = self.get_isize();
        let r = size_of_int(i);
        assert(reads_as_int(self@, i) && r == as_size(i));
        r
    }

    /// The value as text: an integer in decimal, a text as it is, a buffer
    /// in lower case hexadecimal, the time stamp as the decimal of the
    /// clock's milliseconds, random bytes decoded leniently as UTF-8.
    pub fn get_string(&self) -> (r: Result<String, RuntimeError>)
        ensures
            reads_as_text(self@, text_view(r)),
    {
        match self {
            Variant::IntValue(ival) => Ok(decimal_of(*ival)),
            Variant::StrValue(sval) => Ok(sval.clone()),
            Variant::BufValue(bval) => Ok(hex_from_vu8(bval)),
            Variant::XTimeStamp => stamp_as_text(),
            Variant::XRandomBytes(bytelen) => random_as_text(*bytelen),
        }
    }

    /// The value as bytes: an integer as its memory image, a text as its
    /// UTF-8 bytes, a buffer as a copy, the time stamp as the memory image
    /// of the clock's milliseconds, random bytes as they are drawn.
    pub fn get_bufvu8(&self) -> (r: Result<Vec<u8>, RuntimeError>)
        ensures
            reads_as_bytes(self@, bytes_view(r)),
    {
        match self {
            Variant::IntValue(ival) => Ok(isize_to_ne_bytes(*ival)),
            Variant::StrValue(sval) => Ok(text_as_bytes(sval.as_str())),
            Variant::BufValue(bval) => Ok(copy_bytes(bval)),
            Variant::XTimeStamp => stamp_as_bytes(),
            Variant::XRandomBytes(bytelen) => Ok(random_bytes(*bytelen)),
        }
    }

    /// The buffer inside a buffer value, for changing it in place.
    pub fn get_bufvu8_mut(&mut self) -> (r: Option<&mut Vec<u8>>)
        ensures
            match r {
                Some(b) => old(self)@ == VariantView::BufValue(b@) && final(self)@
                    == VariantView::BufValue(final(b)@),
                None => !(old(self)@ is BufValue) && final(self)@ == old(self)@,
            },
    {
        match self {
            Variant::BufValue(thebuf) => Some(thebuf),
            _ => None,
        }
    }
}

} // verus!
