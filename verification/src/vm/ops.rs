//! The instructions of the machine.

use vstd::prelude::*;
use crate::vm::datam::{DataM, DataMView};

verus! {

/// The condition of a conditional branch. The integer conditions are all
/// told by "less than", the buffer conditions by bytewise equality.
#[derive(Debug, Clone, Copy, PartialEq, Eq, Structural)]
pub enum CondOp {
    IfLtInt,
    IfGtInt,
    IfLeInt,
    IfGeInt,
    IfEqBuf,
    IfNeBuf,
}

/// An arithmetic operation on two integers.
#[derive(Debug, Clone, Copy, PartialEq, Eq, Structural)]
pub enum ALUOP {
    Add,
    Sub,
    Mult,
    Div,
    Mod,
}

/// How a conditional branch reaches its target.
#[derive(Debug, Clone, Copy, PartialEq, Eq, Structural)]
pub enum Branch {
    /// By a jump to a label.
    Goto,
    /// By a call of a function.
    Call,
}

/// How `bufmerged` renders each of its sources.
#[derive(Debug, Clone, Copy, PartialEq, Eq, Structural)]
pub enum Render {
    /// As bytes.
    Bytes,
    /// As text, of which the UTF-8 bytes are taken.
    Text,
}

/// An instruction. Labels and functions are held by name and looked up
/// when the instruction runs, so that it may refer to one defined later.
#[derive(Debug, Clone, PartialEq, Eq)]
pub enum Op {
    Nop,
    LetStr(String, DataM),
    LetInt(String, DataM),
    Inc(String),
    Dec(String),
    Alu(ALUOP, String, DataM, DataM),
    /// Bridge name, address, and the options in the order written.
    IobNew(String, String, Vec<(String, String)>),
    IobWrite(String, String),
    IobFlush(String),
    IobRead(String, String),
    IobClose(String),
    If(CondOp, DataM, DataM, Branch, String, Vec<String>),
    CheckJump(DataM, DataM, String, String, String),
    Jump(String),
    Call(String, Vec<String>),
    Ret,
    SleepMSec(DataM),
    FcGet(String, String),
    BufNew(String, DataM),
    LetBuf(String, DataM),
    LetBufStr(String, DataM),
    Buf8Randomize(String, DataM, DataM, DataM, DataM, DataM),
    BufsMerge(String, Vec<String>),
    BufMerged(Render, String, Vec<DataM>),
}

/// What an `Op` holds, as mathematics.
pub enum OpView {
    Nop,
    LetStr(Seq<char>, DataMView),
    LetInt(Seq<char>, DataMView),
    Inc(Seq<char>),
    Dec(Seq<char>),
    Alu(ALUOP, Seq<char>, DataMView, DataMView),
    IobNew(Seq<char>, Seq<char>, Seq<(Seq<char>, Seq<char>)>),
    IobWrite(Seq<char>, Seq<char>),
    IobFlush(Seq<char>),
    IobRead(Seq<char>, Seq<char>),
    IobClose(Seq<char>),
    If(CondOp, DataMView, DataMView, Branch, Seq<char>, Seq<Seq<char>>),
    CheckJump(DataMView, DataMView, Seq<char>, Seq<char>, Seq<char>),
    Jump(Seq<char>),
    Call(Seq<char>, Seq<Seq<char>>),
    Ret,
    SleepMSec(DataMView),
    FcGet(Seq<char>, Seq<char>),
    BufNew(Seq<char>, DataMView),
    LetBuf(Seq<char>, DataMView),
    LetBufStr(Seq<char>, DataMView),
    Buf8Randomize(Seq<char>, DataMView, DataMView, DataMView, DataMView, DataMView),
    BufsMerge(Seq<char>, Seq<Seq<char>>),
    BufMerged(Render, Seq<char>, Seq<DataMView>),
}

impl DeepView for Op {
    type V = OpView;

    open spec fn deep_view(&self) -> OpView {
        match self {
            Op::Nop => OpView::Nop,
            Op::LetStr(v, d) => OpView::LetStr(v@, d@),
            Op::LetInt(v, d) => OpView::LetInt(v@, d@),
            Op::Inc(v) => OpView::Inc(v@),
            Op::Dec(v) => OpView::Dec(v@),
            Op::Alu(o, v, a, b) => OpView::Alu(*o, v@, a@, b@),
            Op::IobNew(i, a, o) => OpView::IobNew(i@, a@, o.deep_view()),
            Op::IobWrite(i, b) => OpView::IobWrite(i@, b@),
            Op::IobFlush(i) => OpView::IobFlush(i@),
            Op::IobRead(i, b) => OpView::IobRead(i@, b@),
            Op::IobClose(i) => OpView::IobClose(i@),
            Op::If(c, a, b, k, n, args) => OpView::If(*c, a@, b@, *k, n@, args.deep_view()),
            Op::CheckJump(a, b, lt, eq, gt) => OpView::CheckJump(a@, b@, lt@, eq@, gt@),
            Op::Jump(l) => OpView::Jump(l@),
            Op::Call(n, args) => OpView::Call(n@, args.deep_view()),
            Op::Ret => OpView::Ret,
            Op::SleepMSec(d) => OpView::SleepMSec(d@),
            Op::FcGet(f, b) => OpView::FcGet(f@, b@),
            Op::BufNew(b, d) => OpView::BufNew(b@, d@),
            Op::LetBuf(b, d) => OpView::LetBuf(b@, d@),
            Op::LetBufStr(b, d) => OpView::LetBufStr(b@, d@),
            Op::Buf8Randomize(b, n, s, e, lo, hi) => OpView::Buf8Randomize(
                b@,
                n@,
                s@,
                e@,
                lo@,
                hi@,
            ),
            Op::BufsMerge(d, srcs) => OpView::BufsMerge(d@, srcs.deep_view()),
            Op::BufMerged(k, d, srcs) => OpView::BufMerged(*k, d@, srcs.deep_view()),
        }
    }
}

impl View for Op {
    type V = OpView;

    open spec fn view(&self) -> OpView {
        self.deep_view()
    }
}

} // verus!
