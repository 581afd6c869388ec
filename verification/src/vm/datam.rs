//! Operands: what an instruction reads its values from.

use vstd::prelude::*;
use crate::datautils::{after_first_token, next_token_chars};
use crate::hex::{bytes_from_hex_chars, decoded};
use crate::integer::{count_from, count_value, int_from_chars, parsed};
use crate::text::{
    char_is_alphabetic, char_is_numeric, chars_of, is_alphabetic, is_numeric, slice_of, spells,
    starts_with, string_of, trim, trimmed,
};
use crate::vm::context::{Context, ContextView};
use crate::vm::datas::{
    buf_as_int, bytes_view, copy_bytes, random_as_int, random_as_text, reads_as_bytes,
    reads_as_int, reads_as_text, size_of_int, stamp_as_bytes, stamp_as_int, stamp_as_text,
    text_as_bytes, text_as_int, text_view, VariantView,
};
use crate::entropy::random_bytes;
use crate::hex::hex_from_vu8;
use crate::image::isize_to_ne_bytes;
use crate::integer::decimal_of;
use crate::vm::error::{as_size, CompileError, RuntimeError};

verus! {

/// The kind of variable that an operand names where it is a name.
#[derive(Debug, Clone, Copy, PartialEq, Eq, Structural)]
pub enum Expect {
    /// An integer variable.
    Isize,
    /// A text variable.
    Text,
    /// A variable of any kind, looked for among the integers, then the
    /// texts, then the buffers.
    Any,
}

/// A compiled operand: a literal, a variable, or a special.
#[derive(Debug, Clone, PartialEq, Eq)]
pub enum DataM {
    IntLiteral(isize),
    IntVar(String),
    StringLiteral(String),
    StringVar(String),
    BufData(Vec<u8>),
    AnyVar(String),
    XTimeStamp,
    XRandomBytes(usize),
}

/// What a `DataM` holds, as mathematics.
pub enum DataMView {
    IntLiteral(isize),
    IntVar(Seq<char>),
    StringLiteral(Seq<char>),
    StringVar(Seq<char>),
    BufData(Seq<u8>),
    AnyVar(Seq<char>),
    XTimeStamp,
    XRandomBytes(usize),
}

impl DeepView for DataM {
    type V = DataMView;

    open spec fn deep_view(&self) -> DataMView {
        match self {
            DataM::IntLiteral(i) => DataMView::IntLiteral(*i),
            DataM::IntVar(n) => DataMView::IntVar(n@),
            DataM::StringLiteral(s) => DataMView::StringLiteral(s@),
            DataM::StringVar(n) => DataMView::StringVar(n@),
            DataM::BufData(b) => DataMView::BufData(b@),
            DataM::AnyVar(n) => DataMView::AnyVar(n@),
            DataM::XTimeStamp => DataMView::XTimeStamp,
            DataM::XRandomBytes(n) => DataMView::XRandomBytes(*n),
        }
    }
}

impl View for DataM {
    type V = DataMView;

    open spec fn view(&self) -> DataMView {
        self.deep_view()
    }
}

/// The tag of the time stamp special.
pub open spec fn stamp_tag() -> Seq<char> {
    "__TIME__STAMP__"@
}

/// The tag that a count of random bytes follows.
pub open spec fn random_tag() -> Seq<char> {
    "__RANDOM__BYTES__"@
}

/// Whether `s` begins with `p`.
pub open spec fn has_prefix(s: Seq<char>, p: Seq<char>) -> bool {
    p.len() <= s.len() && s.take(p.len() as int) == p
}

/// The text literal that the trimmed operand `t` spells. A quote at one end
/// needs one at the other, and the first quoted token must be all of `t`;
/// the literal is what stands between the two quotes, backslashes included.
pub open spec fn text_literal(t: Seq<char>) -> Result<DataMView, CompileError> {
    if t[0] != t.last() {
        Err(CompileError::QuoteMismatch)
    } else if after_first_token(t).len() > 0 {
        Err(CompileError::TrailingData)
    } else {
        Ok(DataMView::StringLiteral(t.subrange(1, t.len() - 1)))
    }
}

/// The special that the trimmed operand `t`, which starts with `__`,
/// spells.
pub open spec fn special(t: Seq<char>) -> Result<DataMView, CompileError> {
    if t == stamp_tag() {
        Ok(DataMView::XTimeStamp)
    } else if has_prefix(t, random_tag()) {
        match count_value(t.skip(random_tag().len() as int)) {
            Some(n) => Ok(DataMView::XRandomBytes(n)),
            None => Err(CompileError::BadCount),
        }
    } else {
        Err(CompileError::UnknownSpecial)
    }
}

/// The variable operand of the expected kind.
pub open spec fn variable(name: Seq<char>, expect: Expect) -> DataMView {
    match expect {
        Expect::Isize => DataMView::IntVar(name),
        Expect::Text => DataMView::StringVar(name),
        Expect::Any => DataMView::AnyVar(name),
    }
}

/// What a trimmed operand text compiles to, given whether its first
/// character is numeric and whether it is alphabetic. The first character
/// decides: a numeric character or a sign opens an integer literal, a
/// double quote at either end makes a text literal, `$0x` opens a buffer
/// literal, `__` a special; anything else must be a name that starts with
/// a letter.
pub open spec fn classified(
    t: Seq<char>,
    numeric: bool,
    alphabetic: bool,
    expect: Expect,
) -> Result<DataMView, CompileError> {
    if t.len() == 0 {
        Err(CompileError::EmptyOperand)
    } else if numeric || t[0] == '+' || t[0] == '-' {
        match parsed(t) {
            Ok(i) => Ok(DataMView::IntLiteral(i)),
            Err(e) => Err(CompileError::BadInt(e)),
        }
    } else if t.len() >= 2 && (t[0] == '"' || t.last() == '"') {
        text_literal(t)
    } else if t.len() > 2 && has_prefix(t, seq!['$', '0', 'x']) {
        match decoded(t.skip(3)) {
            Ok(b) => Ok(DataMView::BufData(b)),
            Err(e) => Err(CompileError::BadHex(e)),
        }
    } else if t.len() > 2 && has_prefix(t, seq!['_', '_']) {
        special(t)
    } else if !alphabetic {
        Err(CompileError::BadName)
    } else {
        Ok(variable(t, expect))
    }
}

/// What an operand text compiles to: it is trimmed and then classified by
/// its first character.
pub open spec fn operand(s: Seq<char>, expect: Expect) -> Result<DataMView, CompileError> {
    let t = trimmed(s);
    classified(
        t,
        t.len() > 0 && char_is_numeric(t[0]),
        t.len() > 0 && char_is_alphabetic(t[0]),
        expect,
    )
}

/// The view of a compiled operand or of the failure to compile one.
pub open spec fn operand_view(r: Result<DataM, CompileError>) -> Result<DataMView, CompileError> {
    match r {
        Ok(d) => Ok(d@),
        Err(e) => Err(e),
    }
}

/// The value that an operand stands for in a state: a literal for itself,
/// a variable for what it holds, a special for itself. A name is first
/// resolved through the innermost frame.
pub open spec fn denotes(dm: DataMView, cv: ContextView) -> Result<VariantView, RuntimeError> {
    match dm {
        DataMView::IntLiteral(i) => Ok(VariantView::IntValue(i)),
        DataMView::IntVar(n) => {
            let k = cv.resolved(n);
            if cv.ints.contains_key(k) {
                Ok(VariantView::IntValue(cv.ints[k]))
            } else {
                Err(RuntimeError::UnknownVar)
            }
        },
        DataMView::StringLiteral(s) => Ok(VariantView::StrValue(s)),
        DataMView::StringVar(n) => {
            let k = cv.resolved(n);
            if cv.strs.contains_key(k) {
                Ok(VariantView::StrValue(cv.strs[k]))
            } else {
                Err(RuntimeError::UnknownVar)
            }
        },
        DataMView::BufData(b) => Ok(VariantView::BufValue(b)),
        DataMView::AnyVar(n) => {
            let k = cv.resolved(n);
            if cv.ints.contains_key(k) {
                Ok(VariantView::IntValue(cv.ints[k]))
            } else if cv.strs.contains_key(k) {
                Ok(VariantView::StrValue(cv.strs[k]))
            } else if cv.bufs.contains_key(k) {
                Ok(VariantView::BufValue(cv.bufs[k]))
            } else {
                Err(RuntimeError::UnknownVar)
            }
        },
        DataMView::XTimeStamp => Ok(VariantView::XTimeStamp),
        DataMView::XRandomBytes(n) => Ok(VariantView::XRandomBytes(n)),
    }
}

/// Whether `r` may be what reading the operand as an integer gives.
pub open spec fn yields_int(dm: DataMView, cv: ContextView, r: Result<isize, RuntimeError>) -> bool {
    match denotes(dm, cv) {
        Ok(v) => reads_as_int(v, r),
        Err(e) => r == Err::<isize, RuntimeError>(e),
    }
}

/// Whether `r` may be what reading the operand as a size gives.
pub open spec fn yields_size(dm: DataMView, cv: ContextView, r: Result<usize, RuntimeError>) -> bool {
    exists|i: Result<isize, RuntimeError>| #[trigger] yields_int(dm, cv, i) && r == as_size(i)
}

/// Whether `r` may be what reading the operand as text gives.
pub open spec fn yields_text(
    dm: DataMView,
    cv: ContextView,
    r: Result<Seq<char>, RuntimeError>,
) -> bool {
    match denotes(dm, cv) {
        Ok(v) => reads_as_text(v, r),
        Err(e) => r == Err::<Seq<char>, RuntimeError>(e),
    }
}

/// Whether `r` may be what reading the operand as bytes gives.
pub open spec fn yields_bytes(
    dm: DataMView,
    cv: ContextView,
    r: Result<Seq<u8>, RuntimeError>,
) -> bool {
    match denotes(dm, cv) {
        Ok(v) => reads_as_bytes(v, r),
        Err(e) => r == Err::<Seq<u8>, RuntimeError>(e),
    }
}

/// A value found for an operand, borrowed from where it lies.
enum Fetched<'a> {
    Int(isize),
    Text(&'a String),
    Bytes(&'a Vec<u8>),
    Stamp,
    Random(usize),
}

impl<'a> Fetched<'a> {
    spec fn value(self) -> VariantView {
        match self {
            Fetched::Int(i) => VariantView::IntValue(i),
            Fetched::Text(s) => VariantView::StrValue(s@),
            Fetched::Bytes(b) => VariantView::BufValue(b@),
            Fetched::Stamp => VariantView::XTimeStamp,
            Fetched::Random(n) => VariantView::XRandomBytes(n),
        }
    }
}

impl DataM {
    /// Compiles an operand text.
    pub fn compile(sdata: &str, expect: Expect) -> (r: Result<DataM, CompileError>)
        ensures
            operand_view(r) == operand(sdata@, expect),
    {
        let v = chars_of(sdata);
        DataM::compile_chars(&v, expect)
    }

    /// Compiles an operand given as characters.
    pub fn compile_chars(sdata: &Vec<char>, expect: Expect) -> (r: Result<DataM, CompileError>)
        ensures
            operand_view(r) == operand(sdata@, expect),
    {
        let t = trim(sdata);
        let numeric = t.len() > 0 && is_numeric(t[0]);
        let alphabetic = t.len() > 0 && is_alphabetic(t[0]);
        DataM::classify(&t, numeric, alphabetic, expect)
    }

    /// Compiles a trimmed operand, given whether its first character is
    /// numeric and whether it is alphabetic.
    pub fn classify(t: &Vec<char>, numeric: bool, alphabetic: bool, expect: Expect) -> (r: Result<
        DataM,
        CompileError,
    >)
        ensures
            operand_view(r) == classified(t@, numeric, alphabetic, expect),
    {
        let n = t.len();
        if n == 0 {
            return Err(CompileError::EmptyOperand);
        }
        let schar = t[0];
        let echar = t[n - 1];
        if numeric || schar == '+' || schar == '-' {
            return match int_from_chars(t) {
                Ok(i) => Ok(DataM::IntLiteral(i)),
                Err(e) => Err(CompileError::BadInt(e)),
            };
        }
        if n >= 2 && (schar == '"' || echar == '"') {
            if schar != echar {
                return Err(CompileError::QuoteMismatch);
            }
            let (rest, _tok) = next_token_chars(t);
            if rest.len() > 0 {
                return Err(CompileError::TrailingData);
            }
            let inner = slice_of(t, 1, n - 1);
            return Ok(DataM::StringLiteral(string_of(&inner)));
        }
        if n > 2 {
            proof {
                reveal_strlit("$0x");
                reveal_strlit("__");
                reveal_strlit("__RANDOM__BYTES__");
                assert("$0x"@ =~= seq!['$', '0', 'x']);
                assert("__"@ =~= seq!['_', '_']);
            }
            if starts_with(t, "$0x") {
                let digits = slice_of(t, 3, n);
                assert(digits@ =~= t@.skip(3));
                return match bytes_from_hex_chars(&digits) {
                    Ok(b) => Ok(DataM::BufData(b)),
                    Err(e) => Err(CompileError::BadHex(e)),
                };
            }
            if starts_with(t, "__") {
                if spells(t, "__TIME__STAMP__") {
                    return Ok(DataM::XTimeStamp);
                }
                if starts_with(t, "__RANDOM__BYTES__") {
                    return match count_from(t, 17) {
                        Some(k) => Ok(DataM::XRandomBytes(k)),
                        None => Err(CompileError::BadCount),
                    };
                }
                return Err(CompileError::UnknownSpecial);
            }
        }
        if !alphabetic {
            return Err(CompileError::BadName);
        }
        let name = string_of(t);
        Ok(
            match expect {
                Expect::Isize => DataM::IntVar(name),
                Expect::Text => DataM::StringVar(name),
                Expect::Any => DataM::AnyVar(name),
            },
        )
    }

    /// Finds the value that the operand stands for.
    fn fetch<'a>(&'a self, ctxt: &'a Context) -> (r: Result<Fetched<'a>, RuntimeError>)
        requires
            ctxt.wf(),
        ensures
            match r {
                Ok(f) => denotes(self@, ctxt@) == Ok::<VariantView, RuntimeError>(f.value()),
                Err(e) => denotes(self@, ctxt@) == Err::<VariantView, RuntimeError>(e),
            },
    {
        match self {
            DataM::IntLiteral(ival) => Ok(Fetched::Int(*ival)),
            DataM::IntVar(vid) => {
                let k = ctxt.resolve(vid);
                match ctxt.int_of(&k) {
                    Some(i) => Ok(Fetched::Int(i)),
                    None => Err(RuntimeError::UnknownVar),
                }
            },
            DataM::StringLiteral(sval) => Ok(Fetched::Text(sval)),
            DataM::StringVar(vid) => {
                let k = ctxt.resolve(vid);
                match ctxt.str_of(&k) {
                    Some(s) => Ok(Fetched::Text(s)),
                    None => Err(RuntimeError::UnknownVar),
                }
            },
            DataM::BufData(bval) => Ok(Fetched::Bytes(bval)),
            DataM::AnyVar(vid) => {
                let k = ctxt.resolve(vid);
                match ctxt.int_of(&k) {
                    Some(i) => {
                        return Ok(Fetched::Int(i));
                    },
                    None => {},
                }
                match ctxt.str_of(&k) {
                    Some(s) => {
                        return Ok(Fetched::Text(s));
                    },
                    None => {},
                }
                match ctxt.buf_of(&k) {
                    Some(b) => Ok(Fetched::Bytes(b)),
                    None => Err(RuntimeError::UnknownVar),
                }
            },
            DataM::XTimeStamp => Ok(Fetched::Stamp),
            DataM::XRandomBytes(bytelen) => Ok(Fetched::Random(*bytelen)),
        }
    }

    /// The operand as an integer: see `Variant::get_isize` for how each
    /// kind of value is read. A variable that does not exist is an error.
    pub fn get_isize(&self, ctxt: &Context) -> (r: Result<isize, RuntimeError>)
        requires
            ctxt.wf(),
        ensures
            yields_int(self@, ctxt@, r),
    {
        match self.fetch(ctxt) {
            Err(e) => Err(e),
            Ok(Fetched::Int(i)) => Ok(i),
            Ok(Fetched::Text(s)) => text_as_int(s.as_str()),
            Ok(Fetched::Bytes(b)) => buf_as_int(b),
            Ok(Fetched::Stamp) => stamp_as_int(),
            Ok(Fetched::Random(n)) => random_as_int(n),
        }
    }

    /// The operand as a size: its integer reading, refused if negative.
    pub fn get_usize(&self, ctxt: &Context) -> (r: Result<usize, RuntimeError>)
        requires
            ctxt.wf(),
        ensures
            yields_size(self@, ctxt@, r),
    {
        let i = self.get_isize(ctxt);
        let r = size_of_int(i);
        assert(yields_int(self@, ctxt@, i) && r == as_size(i));
        r
    }

    /// The operand as text: see `Variant::get_string`.
    pub fn get_string(&self, ctxt: &Context) -> (r: Result<String, RuntimeError>)
        requires
            ctxt.wf(),
        ensures
            yields_text(self@, ctxt@, text_view(r)),
    {
        match self.fetch(ctxt) {
            Err(e) => Err(e),
            Ok(Fetched::Int(i)) => Ok(decimal_of(i)),
            Ok(Fetched::Text(s)) => Ok(s.clone()),
            Ok(Fetched::Bytes(b)) => Ok(hex_from_vu8(b)),
            Ok(Fetched::Stamp) => stamp_as_text(),
            Ok(Fetched::Random(n)) => random_as_text(n),
        }
    }

    /// The operand as bytes: see `Variant::get_bufvu8`.
    pub fn get_bufvu8(&self, ctxt: &Context) -> (r: Result<Vec<u8>, RuntimeError>)
        requires
            ctxt.wf(),
        ensures
            yields_bytes(self@, ctxt@, bytes_view(r)),
    {
        match self.fetch(ctxt) {
            Err(e) => Err(e),
            Ok(Fetched::Int(i)) => Ok(isize_to_ne_bytes(i)),
            Ok(Fetched::Text(s)) => Ok(text_as_bytes(s.as_str())),
            Ok(Fetched::Bytes(b)) => Ok(copy_bytes(b)),
            Ok(Fetched::Stamp) => stamp_as_bytes(),
            Ok(Fetched::Random(n)) => Ok(random_bytes(n)),
        }
    }
}

} // verus!
