//! The assembler: from a line of source text to an instruction.
//!
//! The first word of a line names the operation; how the rest is cut into
//! arguments depends on the operation. Labels and function names are kept
//! as written.

use vstd::prelude::*;
use crate::datautils::{
    after_first_token, first_token, lemma_first_token_shrinks, next_token_chars,
};
use crate::text::{
    chars_of, skip_ws, spells, split_all, split_at_most, split_every, split_first, split_once,
    split_words, splitn, string_of, strings_of, trim, trimmed, views, words,
};
use crate::vm::datam::{operand, operand_view, DataM, DataMView, Expect};
use crate::vm::error::CompileError;
use crate::vm::ops::{Branch, CondOp, Op, OpView, Render, ALUOP};

verus! {

/// The name of the operation and its argument text: the line is cut at its
/// first space and the arguments are trimmed.
pub open spec fn head_and_args(line: Seq<char>) -> (Seq<char>, Seq<char>) {
    match split_once(line, ' ') {
        Some((sop, sargs)) => (sop, trimmed(sargs)),
        None => (line, trimmed(Seq::empty())),
    }
}

/// The arithmetic operation that a word names.
pub open spec fn alu_of(sop: Seq<char>) -> Option<ALUOP> {
    if sop == "add"@ {
        Some(ALUOP::Add)
    } else if sop == "sub"@ {
        Some(ALUOP::Sub)
    } else if sop == "mult"@ {
        Some(ALUOP::Mult)
    } else if sop == "div"@ {
        Some(ALUOP::Div)
    } else if sop == "mod"@ {
        Some(ALUOP::Mod)
    } else {
        None
    }
}

/// The condition that a word names. Each has a plain name and names with
/// a suffix for the kind of operand.
pub open spec fn cond_of(sop: Seq<char>) -> Option<CondOp> {
    if sop == "iflt"@ || sop == "iflt.i"@ {
        Some(CondOp::IfLtInt)
    } else if sop == "ifgt"@ || sop == "ifgt.i"@ {
        Some(CondOp::IfGtInt)
    } else if sop == "ifle"@ || sop == "ifle.i"@ {
        Some(CondOp::IfLeInt)
    } else if sop == "ifge"@ || sop == "ifge.i"@ {
        Some(CondOp::IfGeInt)
    } else if sop == "ifeq"@ || sop == "ifeq.b"@ || sop == "ifeq.i"@ || sop == "ifeq.s"@ {
        Some(CondOp::IfEqBuf)
    } else if sop == "ifne"@ || sop == "ifne.b"@ || sop == "ifne.i"@ || sop == "ifne.s"@ {
        Some(CondOp::IfNeBuf)
    } else {
        None
    }
}

/// A name and the words after it.
pub open spec fn name_and_args(s: Seq<char>) -> Result<(Seq<char>, Seq<Seq<char>>), CompileError> {
    let w = words(s);
    if w.len() == 0 {
        Err(CompileError::MissingArgs)
    } else {
        Ok((w[0], w.skip(1)))
    }
}

/// Two names separated by the first space.
pub open spec fn two_names(sargs: Seq<char>) -> Result<(Seq<char>, Seq<char>), CompileError> {
    match split_once(sargs, ' ') {
        Some(p) => Ok(p),
        None => Err(CompileError::MissingArgs),
    }
}

/// A name, and after the first space an operand.
pub open spec fn name_and_operand(sargs: Seq<char>, expect: Expect) -> Result<
    (Seq<char>, DataMView),
    CompileError,
> {
    match split_once(sargs, ' ') {
        None => Err(CompileError::MissingArgs),
        Some((vid, sval)) => match operand(sval, expect) {
            Ok(d) => Ok((vid, d)),
            Err(e) => Err(e),
        },
    }
}

/// An arithmetic instruction: the destination and two integer operands,
/// separated by white space. Further words are ignored.
pub open spec fn arithmetic(aluop: ALUOP, sargs: Seq<char>) -> Result<OpView, CompileError> {
    let args = words(sargs);
    if args.len() < 3 {
        Err(CompileError::MissingArgs)
    } else {
        match operand(args[1], Expect::Isize) {
            Err(e) => Err(e),
            Ok(a) => match operand(args[2], Expect::Isize) {
                Err(e) => Err(e),
                Ok(b) => Ok(OpView::Alu(aluop, args[0], a, b)),
            },
        }
    }
}

/// The options of a bridge: each part that is not empty is cut at its
/// first `=` into key and value.
pub open spec fn options(parts: Seq<Seq<char>>) -> Result<
    Seq<(Seq<char>, Seq<char>)>,
    CompileError,
>
    decreases parts.len(),
{
    if parts.len() == 0 {
        Ok(Seq::empty())
    } else {
        match options(parts.drop_last()) {
            Err(e) => Err(e),
            Ok(o) => if parts.last().len() == 0 {
                Ok(o)
            } else {
                match split_once(parts.last(), '=') {
                    None => Err(CompileError::BadOption),
                    Some(kv) => Ok(o.push(kv)),
                }
            },
        }
    }
}

/// `iobnew`: the bridge name, the address, and options separated by single
/// spaces.
pub open spec fn bridge_new(sargs: Seq<char>) -> Result<OpView, CompileError> {
    let args = splitn(sargs, ' ', 3);
    if args.len() < 2 {
        Err(CompileError::MissingArgs)
    } else {
        let text = if args.len() == 3 {
            args[2]
        } else {
            Seq::empty()
        };
        match options(split_all(text, ' ')) {
            Ok(o) => Ok(OpView::IobNew(args[0], args[1], o)),
            Err(e) => Err(e),
        }
    }
}

/// A conditional: two operands, each a bare word or a quoted text, then
/// `goto` and a label or `call` and a function with its arguments.
pub open spec fn conditional(cop: CondOp, sargs: Seq<char>) -> Result<OpView, CompileError> {
    let first = first_token(sargs);
    let rest = after_first_token(sargs);
    let second = first_token(rest);
    let tail = splitn(skip_ws(after_first_token(rest)), ' ', 2);
    if tail.len() != 2 {
        Err(CompileError::MissingArgs)
    } else {
        match operand(first, Expect::Any) {
            Err(e) => Err(e),
            Ok(a) => match operand(second, Expect::Any) {
                Err(e) => Err(e),
                Ok(b) => if tail[0] == "goto"@ {
                    Ok(OpView::If(cop, a, b, Branch::Goto, tail[1], Seq::empty()))
                } else if tail[0] == "call"@ {
                    match name_and_args(tail[1]) {
                        Ok((n, args)) => Ok(OpView::If(cop, a, b, Branch::Call, n, args)),
                        Err(e) => Err(e),
                    }
                } else {
                    Err(CompileError::BadBranch)
                },
            },
        }
    }
}

/// `checkjump`: two integer operands and three labels, separated by single
/// spaces.
pub open spec fn three_way(sargs: Seq<char>) -> Result<OpView, CompileError> {
    let args = splitn(sargs, ' ', 5);
    if args.len() != 5 {
        Err(CompileError::MissingArgs)
    } else {
        match operand(args[0], Expect::Isize) {
            Err(e) => Err(e),
            Ok(a) => match operand(args[1], Expect::Isize) {
                Err(e) => Err(e),
                Ok(b) => Ok(OpView::CheckJump(a, b, args[2], args[3], args[4])),
            },
        }
    }
}

/// The part at `i`, or the default where the line has no such part.
pub open spec fn part_or(parts: Seq<Seq<char>>, i: int, default: Seq<char>) -> Seq<char> {
    if i < parts.len() {
        parts[i]
    } else {
        default
    }
}

/// `buf8randomize`: the buffer, then up to five integer operands separated
/// by single spaces: the count, the first and the last offset, which
/// default to -1, and the lowest and the highest value, which default to 0
/// and 255.
pub open spec fn randomize(sargs: Seq<char>) -> Result<OpView, CompileError> {
    let parts = split_all(sargs, ' ');
    if parts.len() > 6 {
        Err(CompileError::TooManyArgs)
    } else {
        match operand(part_or(parts, 1, seq!['-', '1']), Expect::Isize) {
            Err(e) => Err(e),
            Ok(n) => match operand(part_or(parts, 2, seq!['-', '1']), Expect::Isize) {
                Err(e) => Err(e),
                Ok(s) => match operand(part_or(parts, 3, seq!['-', '1']), Expect::Isize) {
                    Err(e) => Err(e),
                    Ok(e) => match operand(part_or(parts, 4, seq!['0']), Expect::Isize) {
                        Err(e) => Err(e),
                        Ok(lo) => match operand(
                            part_or(parts, 5, seq!['2', '5', '5']),
                            Expect::Isize,
                        ) {
                            Err(e) => Err(e),
                            Ok(hi) => Ok(OpView::Buf8Randomize(parts[0], n, s, e, lo, hi)),
                        },
                    },
                },
            },
        }
    }
}

/// `bufsmerge`: the destination and at least one source buffer, separated
/// by white space.
pub open spec fn merge(sargs: Seq<char>) -> Result<OpView, CompileError> {
    let parts = words(sargs);
    if parts.len() < 2 {
        Err(CompileError::MissingArgs)
    } else {
        Ok(OpView::BufsMerge(parts[0], parts.skip(1)))
    }
}

/// The operands that a text holds, token by token.
pub open spec fn operands(s: Seq<char>) -> Result<Seq<DataMView>, CompileError>
    decreases s.len(),
    via operands_decreases
{
    if s.len() == 0 {
        Ok(Seq::empty())
    } else {
        match operand(first_token(s), Expect::Any) {
            Err(e) => Err(e),
            Ok(d) => match operands(after_first_token(s)) {
                Err(e) => Err(e),
                Ok(rest) => Ok(seq![d] + rest),
            },
        }
    }
}

#[via_fn]
proof fn operands_decreases(s: Seq<char>) {
    lemma_first_token_shrinks(s);
}

/// `bufmerged`: the destination, and after the first space the sources.
pub open spec fn merged(kind: Render, sargs: Seq<char>) -> Result<OpView, CompileError> {
    match split_once(sargs, ' ') {
        None => Err(CompileError::MissingArgs),
        Some((bufid, srcs)) => match operands(srcs) {
            Err(e) => Err(e),
            Ok(ds) => Ok(OpView::BufMerged(kind, bufid, ds)),
        },
    }
}

/// The instruction that a line of source text spells.
pub open spec fn instruction(line: Seq<char>) -> Result<OpView, CompileError> {
    let (sop, sargs) = head_and_args(line);
    if sop == "nop"@ {
        Ok(OpView::Nop)
    } else if sop == "letstr"@ {
        match name_and_operand(sargs, Expect::Text) {
            Ok((v, d)) => Ok(OpView::LetStr(v, d)),
            Err(e) => Err(e),
        }
    } else if sop == "letint"@ {
        match name_and_operand(sargs, Expect::Isize) {
            Ok((v, d)) => Ok(OpView::LetInt(v, d)),
            Err(e) => Err(e),
        }
    } else if sop == "inc"@ {
        Ok(OpView::Inc(sargs))
    } else if sop == "dec"@ {
        Ok(OpView::Dec(sargs))
    } else if alu_of(sop) is Some {
        arithmetic(alu_of(sop)->0, sargs)
    } else if sop == "iobnew"@ {
        bridge_new(sargs)
    } else if sop == "iobwrite"@ {
        match two_names(sargs) {
            Ok((i, b)) => Ok(OpView::IobWrite(i, b)),
            Err(e) => Err(e),
        }
    } else if sop == "iobflush"@ {
        Ok(OpView::IobFlush(sargs))
    } else if sop == "iobread"@ {
        match two_names(sargs) {
            Ok((i, b)) => Ok(OpView::IobRead(i, b)),
            Err(e) => Err(e),
        }
    } else if sop == "iobclose"@ {
        Ok(OpView::IobClose(sargs))
    } else if cond_of(sop) is Some {
        conditional(cond_of(sop)->0, sargs)
    } else if sop == "checkjump"@ {
        three_way(sargs)
    } else if sop == "jump"@ || sop == "goto"@ {
        Ok(OpView::Jump(sargs))
    } else if sop == "call"@ {
        match name_and_args(sargs) {
            Ok((n, a)) => Ok(OpView::Call(n, a)),
            Err(e) => Err(e),
        }
    } else if sop == "ret"@ {
        Ok(OpView::Ret)
    } else if sop == "sleepmsec"@ {
        match operand(sargs, Expect::Isize) {
            Ok(d) => Ok(OpView::SleepMSec(d)),
            Err(e) => Err(e),
        }
    } else if sop == "fcget"@ {
        match two_names(sargs) {
            Ok((f, b)) => Ok(OpView::FcGet(f, b)),
            Err(e) => Err(e),
        }
    } else if sop == "bufnew"@ {
        match name_and_operand(sargs, Expect::Any) {
            Ok((b, d)) => Ok(OpView::BufNew(b, d)),
            Err(e) => Err(e),
        }
    } else if sop == "letbuf"@ || sop == "letbuf.b"@ {
        match name_and_operand(sargs, Expect::Any) {
            Ok((b, d)) => Ok(OpView::LetBuf(b, d)),
            Err(e) => Err(e),
        }
    } else if sop == "letbuf.s"@ {
        match name_and_operand(sargs, Expect::Any) {
            Ok((b, d)) => Ok(OpView::LetBufStr(b, d)),
            Err(e) => Err(e),
        }
    } else if sop == "buf8randomize"@ {
        randomize(sargs)
    } else if sop == "bufsmerge"@ {
        merge(sargs)
    } else if sop == "bufmerged"@ || sop == "bufmerged.b"@ {
        merged(Render::Bytes, sargs)
    } else if sop == "bufmerged.s"@ {
        merged(Render::Text, sargs)
    } else {
        Err(CompileError::UnknownOp)
    }
}

/// The view of a compiled instruction or of the failure to compile one.
pub open spec fn op_view(r: Result<Op, CompileError>) -> Result<OpView, CompileError> {
    match r {
        Ok(op) => Ok(op@),
        Err(e) => Err(e),
    }
}

fn alu_named(sop: &Vec<char>) -> (r: Option<ALUOP>)
    ensures
        r == alu_of(sop@),
{
    if spells(sop, "add") {
        Some(ALUOP::Add)
    } else if spells(sop, "sub") {
        Some(ALUOP::Sub)
    } else if spells(sop, "mult") {
        Some(ALUOP::Mult)
    } else if spells(sop, "div") {
        Some(ALUOP::Div)
    } else if spells(sop, "mod") {
        Some(ALUOP::Mod)
    } else {
        None
    }
}

fn cond_named(sop: &Vec<char>) -> (r: Option<CondOp>)
    ensures
        r == cond_of(sop@),
{
    if spells(sop, "iflt") || spells(sop, "iflt.i") {
        Some(CondOp::IfLtInt)
    } else if spells(sop, "ifgt") || spells(sop, "ifgt.i") {
        Some(CondOp::IfGtInt)
    } else if spells(sop, "ifle") || spells(sop, "ifle.i") {
        Some(CondOp::IfLeInt)
    } else if spells(sop, "ifge") || spells(sop, "ifge.i") {
        Some(CondOp::IfGeInt)
    } else if spells(sop, "ifeq") || spells(sop, "ifeq.b") || spells(sop, "ifeq.i") || spells(
        sop,
        "ifeq.s",
    ) {
        Some(CondOp::IfEqBuf)
    } else if spells(sop, "ifne") || spells(sop, "ifne.b") || spells(sop, "ifne.i") || spells(
        sop,
        "ifne.s",
    ) {
        Some(CondOp::IfNeBuf)
    } else {
        None
    }
}

fn cut_two_names(sargs: &Vec<char>) -> (r: Result<(String, String), CompileError>)
    ensures
        match r {
            Ok((a, b)) => two_names(sargs@) == Ok::<(Seq<char>, Seq<char>), CompileError>(
                (a@, b@),
            ),
            Err(e) => two_names(sargs@) == Err::<(Seq<char>, Seq<char>), CompileError>(e),
        },
{
    match split_first(sargs, ' ') {
        Some((a, b)) => Ok((string_of(&a), string_of(&b))),
        None => Err(CompileError::MissingArgs),
    }
}

fn cut_name_and_operand(sargs: &Vec<char>, expect: Expect) -> (r: Result<
    (String, DataM),
    CompileError,
>)
    ensures
        match r {
            Ok((v, d)) => name_and_operand(sargs@, expect) == Ok::<
                (Seq<char>, DataMView),
                CompileError,
            >((v@, d@)),
            Err(e) => name_and_operand(sargs@, expect) == Err::<
                (Seq<char>, DataMView),
                CompileError,
            >(e),
        },
{
    match split_first(sargs, ' ') {
        None => Err(CompileError::MissingArgs),
        Some((vid, sval)) => match DataM::compile_chars(&sval, expect) {
            Ok(d) => Ok((string_of(&vid), d)),
            Err(e) => Err(e),
        },
    }
}

fn cut_name_and_args(s: &Vec<char>) -> (r: Result<(String, Vec<String>), CompileError>)
    ensures
        match r {
            Ok((n, a)) => name_and_args(s@) == Ok::<(Seq<char>, Seq<Seq<char>>), CompileError>(
                (n@, a.deep_view()),
            ),
            Err(e) => name_and_args(s@) == Err::<(Seq<char>, Seq<Seq<char>>), CompileError>(e),
        },
{
    let parts = split_words(s);
    if parts.len() == 0 {
        return Err(CompileError::MissingArgs);
    }
    assert(views(parts@)[0] == parts@[0]@);
    Ok((string_of(&parts[0]), strings_of(&parts, 1)))
}

fn compile_arithmetic(aluop: ALUOP, sargs: &Vec<char>) -> (r: Result<Op, CompileError>)
    ensures
        op_view(r) == arithmetic(aluop, sargs@),
{
    let args = split_words(sargs);
    if args.len() < 3 {
        return Err(CompileError::MissingArgs);
    }
    assert(views(args@)[0] == args@[0]@);
    assert(views(args@)[1] == args@[1]@);
    assert(views(args@)[2] == args@[2]@);
    let a = match DataM::compile_chars(&args[1], Expect::Isize) {
        Ok(d) => d,
        Err(e) => {
            return Err(e);
        },
    };
    let b = match DataM::compile_chars(&args[2], Expect::Isize) {
        Ok(d) => d,
        Err(e) => {
            return Err(e);
        },
    };
    Ok(Op::Alu(aluop, string_of(&args[0]), a, b))
}

fn compile_options(parts: &Vec<Vec<char>>) -> (r: Result<Vec<(String, String)>, CompileError>)
    ensures
        match r {
            Ok(o) => options(views(parts@)) == Ok::<Seq<(Seq<char>, Seq<char>)>, CompileError>(
                o.deep_view(),
            ),
            Err(e) => options(views(parts@)) == Err::<Seq<(Seq<char>, Seq<char>)>, CompileError>(
                e,
            ),
        },
{
    let mut out: Vec<(String, String)> = Vec::new();
    let mut i: usize = 0;
    let ghost all = views(parts@);
    assert(all.take(0) =~= Seq::<Seq<char>>::empty());
    assert(out.deep_view() =~= Seq::<(Seq<char>, Seq<char>)>::empty());
    while i < parts.len()
        invariant
            i <= parts.len(),
            all == views(parts@),
            options(all.take(i as int)) == Ok::<Seq<(Seq<char>, Seq<char>)>, CompileError>(
                out.deep_view(),
            ),
        decreases parts.len() - i,
    {
        proof {
            assert(all.take(i + 1).drop_last() =~= all.take(i as int));
            assert(all.take(i + 1).last() == parts@[i as int]@);
        }
        if parts[i].len() > 0 {
            match split_first(&parts[i], '=') {
                None => {
                    proof {
                        lemma_options_fail(all, i + 1);
                    }
                    return Err(CompileError::BadOption);
                },
                Some((k, v)) => {
                    let ghost before = out.deep_view();
                    let ks = string_of(&k);
                    let vs = string_of(&v);
                    out.push((ks, vs));
                    assert(out.deep_view() =~= before.push((k@, v@)));
                },
            }
        }
        i += 1;
    }
    assert(all.take(parts.len() as int) =~= all);
    Ok(out)
}

/// Once a prefix of the options fails, the whole list fails in the same
/// way.
proof fn lemma_options_fail(parts: Seq<Seq<char>>, k: int)
    requires
        0 <= k <= parts.len(),
        options(parts.take(k)) is Err,
    ensures
        options(parts) == options(parts.take(k)),
    decreases parts.len() - k,
{
    if k < parts.len() {
        assert(parts.take(k + 1).drop_last() =~= parts.take(k));
        lemma_options_fail(parts, k + 1);
    } else {
        assert(parts.take(k) =~= parts);
    }
}

fn compile_bridge_new(sargs: &Vec<char>) -> (r: Result<Op, CompileError>)
    ensures
        op_view(r) == bridge_new(sargs@),
{
    let args = split_at_most(sargs, ' ', Some(3));
    if args.len() < 2 {
        return Err(CompileError::MissingArgs);
    }
    assert(views(args@)[0] == args@[0]@);
    assert(views(args@)[1] == args@[1]@);
    let empty: Vec<char> = Vec::new();
    let parts = if args.len() == 3 {
        assert(views(args@)[2] == args@[2]@);
        split_every(&args[2], ' ')
    } else {
        assert(empty@ =~= Seq::<char>::empty());
        split_every(&empty, ' ')
    };
    match compile_options(&parts) {
        Ok(o) => Ok(Op::IobNew(string_of(&args[0]), string_of(&args[1]), o)),
        Err(e) => Err(e),
    }
}

fn compile_conditional(cop: CondOp, sargs: &Vec<char>) -> (r: Result<Op, CompileError>)
    ensures
        op_view(r) == conditional(cop, sargs@),
{
    let (rest, first) = next_token_chars(sargs);
    let (rest2, second) = next_token_chars(&rest);
    let rest3 = skip_leading(&rest2);
    let tail = split_at_most(&rest3, ' ', Some(2));
    if tail.len() != 2 {
        return Err(CompileError::MissingArgs);
    }
    assert(views(tail@)[0] == tail@[0]@);
    assert(views(tail@)[1] == tail@[1]@);
    let a = match DataM::compile_chars(&first, Expect::Any) {
        Ok(d) => d,
        Err(e) => {
            return Err(e);
        },
    };
    let b = match DataM::compile_chars(&second, Expect::Any) {
        Ok(d) => d,
        Err(e) => {
            return Err(e);
        },
    };
    if spells(&tail[0], "goto") {
        let none: Vec<String> = Vec::new();
        assert(none.deep_view() =~= Seq::<Seq<char>>::empty());
        Ok(Op::If(cop, a, b, Branch::Goto, string_of(&tail[1]), none))
    } else if spells(&tail[0], "call") {
        match cut_name_and_args(&tail[1]) {
            Ok((n, args)) => Ok(Op::If(cop, a, b, Branch::Call, n, args)),
            Err(e) => Err(e),
        }
    } else {
        Err(CompileError::BadBranch)
    }
}

/// `v` without its leading white space.
fn skip_leading(v: &Vec<char>) -> (r: Vec<char>)
    ensures
        r@ == skip_ws(v@),
{
    let n = v.len();
    let mut a: usize = 0;
    assert(v@.subrange(0, n as int) =~= v@);
    while a < n && crate::text::is_whitespace(v[a])
        invariant
            a <= n == v.len(),
            skip_ws(v@) == skip_ws(v@.subrange(a as int, n as int)),
        decreases n - a,
    {
        assert(v@.subrange(a as int, n as int).drop_first() =~= v@.subrange(a + 1, n as int));
        a += 1;
    }
    crate::text::slice_of(v, a, n)
}

fn compile_three_way(sargs: &Vec<char>) -> (r: Result<Op, CompileError>)
    ensures
        op_view(r) == three_way(sargs@),
{
    let args = split_at_most(sargs, ' ', Some(5));
    if args.len() != 5 {
        return Err(CompileError::MissingArgs);
    }
    assert(views(args@)[0] == args@[0]@);
    assert(views(args@)[1] == args@[1]@);
    assert(views(args@)[2] == args@[2]@);
    assert(views(args@)[3] == args@[3]@);
    assert(views(args@)[4] == args@[4]@);
    let a = match DataM::compile_chars(&args[0], Expect::Isize) {
        Ok(d) => d,
        Err(e) => {
            return Err(e);
        },
    };
    let b = match DataM::compile_chars(&args[1], Expect::Isize) {
        Ok(d) => d,
        Err(e) => {
            return Err(e);
        },
    };
    Ok(Op::CheckJump(a, b, string_of(&args[2]), string_of(&args[3]), string_of(&args[4])))
}

fn compile_part(parts: &Vec<Vec<char>>, i: usize, default: Vec<char>) -> (r: Result<
    DataM,
    CompileError,
>)
    ensures
        operand_view(r) == operand(part_or(views(parts@), i as int, default@), Expect::Isize),
{
    if i < parts.len() {
        assert(views(parts@)[i as int] == parts@[i as int]@);
        DataM::compile_chars(&parts[i], Expect::Isize)
    } else {
        DataM::compile_chars(&default, Expect::Isize)
    }
}

fn compile_randomize(sargs: &Vec<char>) -> (r: Result<Op, CompileError>)
    ensures
        op_view(r) == randomize(sargs@),
{
    let parts = split_every(sargs, ' ');
    if parts.len() > 6 {
        return Err(CompileError::TooManyArgs);
    }
    assert(views(parts@)[0] == parts@[0]@);
    let minus_one = vec!['-', '1'];
    let zero = vec!['0'];
    let full = vec!['2', '5', '5'];
    assert(minus_one@ =~= seq!['-', '1']);
    assert(zero@ =~= seq!['0']);
    assert(full@ =~= seq!['2', '5', '5']);
    let n = match compile_part(&parts, 1, minus_one.clone()) {
        Ok(d) => d,
        Err(e) => {
            return Err(e);
        },
    };
    let s = match compile_part(&parts, 2, minus_one.clone()) {
        Ok(d) => d,
        Err(e) => {
            return Err(e);
        },
    };
    let e = match compile_part(&parts, 3, minus_one) {
        Ok(d) => d,
        Err(e) => {
            return Err(e);
        },
    };
    let lo = match compile_part(&parts, 4, zero) {
        Ok(d) => d,
        Err(e) => {
            return Err(e);
        },
    };
    let hi = match compile_part(&parts, 5, full) {
        Ok(d) => d,
        Err(e) => {
            return Err(e);
        },
    };
    Ok(Op::Buf8Randomize(string_of(&parts[0]), n, s, e, lo, hi))
}

fn compile_merge(sargs: &Vec<char>) -> (r: Result<Op, CompileError>)
    ensures
        op_view(r) == merge(sargs@),
{
    let parts = split_words(sargs);
    if parts.len() < 2 {
        return Err(CompileError::MissingArgs);
    }
    assert(views(parts@)[0] == parts@[0]@);
    Ok(Op::BufsMerge(string_of(&parts[0]), strings_of(&parts, 1)))
}

/// Joins the operands compiled so far with what the rest compiles to.
pub open spec fn joined(
    front: Seq<DataMView>,
    rest: Result<Seq<DataMView>, CompileError>,
) -> Result<Seq<DataMView>, CompileError> {
    match rest {
        Ok(r) => Ok(front + r),
        Err(e) => Err(e),
    }
}

fn compile_operands(srcs: Vec<char>) -> (r: Result<Vec<DataM>, CompileError>)
    ensures
        match r {
            Ok(ds) => operands(srcs@) == Ok::<Seq<DataMView>, CompileError>(ds.deep_view()),
            Err(e) => operands(srcs@) == Err::<Seq<DataMView>, CompileError>(e),
        },
{
    let mut vdm: Vec<DataM> = Vec::new();
    let mut tnext = srcs;
    assert(vdm.deep_view() =~= Seq::<DataMView>::empty());
    assert(Seq::<DataMView>::empty() + operands(srcs@)->Ok_0 =~= operands(srcs@)->Ok_0);
    while tnext.len() > 0
        invariant
            operands(srcs@) == joined(vdm.deep_view(), operands(tnext@)),
        decreases tnext.len(),
    {
        proof {
            lemma_first_token_shrinks(tnext@);
        }
        let (rest, tok) = next_token_chars(&tnext);
        match DataM::compile_chars(&tok, Expect::Any) {
            Err(e) => {
                return Err(e);
            },
            Ok(dm) => {
                let ghost before = vdm.deep_view();
                vdm.push(dm);
                proof {
                    assert(vdm.deep_view() =~= before.push(dm@));
                    if operands(rest@) is Ok {
                        assert(before + (seq![dm@] + operands(rest@)->Ok_0) =~= before.push(dm@)
                            + operands(rest@)->Ok_0);
                    }
                }
                tnext = rest;
            },
        }
    }
    assert(vdm.deep_view() + Seq::<DataMView>::empty() =~= vdm.deep_view());
    Ok(vdm)
}

fn compile_merged(kind: Render, sargs: &Vec<char>) -> (r: Result<Op, CompileError>)
    ensures
        op_view(r) == merged(kind, sargs@),
{
    match split_first(sargs, ' ') {
        None => Err(CompileError::MissingArgs),
        Some((bufid, srcs)) => match compile_operands(srcs) {
            Err(e) => Err(e),
            Ok(ds) => Ok(Op::BufMerged(kind, string_of(&bufid), ds)),
        },
    }
}

impl Op {
    /// Cuts a text into a name and the words that follow it.
    pub fn name_args(ins: &str) -> (r: Result<(String, Vec<String>), CompileError>)
        ensures
            match r {
                Ok((n, a)) => name_and_args(ins@) == Ok::<
                    (Seq<char>, Seq<Seq<char>>),
                    CompileError,
                >((n@, a.deep_view())),
                Err(e) => name_and_args(ins@) == Err::<(Seq<char>, Seq<Seq<char>>), CompileError>(
                    e,
                ),
            },
    {
        let v = chars_of(ins);
        cut_name_and_args(&v)
    }

    /// Compiles one line of source text into an instruction.
    pub fn compile(opplus: &str) -> (r: Result<Op, CompileError>)
        ensures
            op_view(r) == instruction(opplus@),
    {
        let line = chars_of(opplus);
        let (sop, rawargs) = match split_first(&line, ' ') {
            Some((a, b)) => (a, b),
            None => {
                let none: Vec<char> = Vec::new();
                assert(none@ =~= Seq::<char>::empty());
                (line, none)
            },
        };
        let sargs = trim(&rawargs);
        assert(sop@ == head_and_args(opplus@).0);
        assert(sargs@ == head_and_args(opplus@).1);
        if spells(&sop, "nop") {
            return Ok(Op::Nop);
        }
        if spells(&sop, "letstr") {
            return match cut_name_and_operand(&sargs, Expect::Text) {
                Ok((v, d)) => Ok(Op::LetStr(v, d)),
                Err(e) => Err(e),
            };
        }
        if spells(&sop, "letint") {
            return match cut_name_and_operand(&sargs, Expect::Isize) {
                Ok((v, d)) => Ok(Op::LetInt(v, d)),
                Err(e) => Err(e),
            };
        }
        if spells(&sop, "inc") {
            return Ok(Op::Inc(string_of(&sargs)));
        }
        if spells(&sop, "dec") {
            return Ok(Op::Dec(string_of(&sargs)));
        }
        match alu_named(&sop) {
            Some(aluop) => {
                return compile_arithmetic(aluop, &sargs);
            },
            None => {},
        }
        if spells(&sop, "iobnew") {
            return compile_bridge_new(&sargs);
        }
        if spells(&sop, "iobwrite") {
            return match cut_two_names(&sargs) {
                Ok((i, b)) => Ok(Op::IobWrite(i, b)),
                Err(e) => Err(e),
            };
        }
        if spells(&sop, "iobflush") {
            return Ok(Op::IobFlush(string_of(&sargs)));
        }
        if spells(&sop, "iobread") {
            return match cut_two_names(&sargs) {
                Ok((i, b)) => Ok(Op::IobRead(i, b)),
                Err(e) => Err(e),
            };
        }
        if spells(&sop, "iobclose") {
            return Ok(Op::IobClose(string_of(&sargs)));
        }
        match cond_named(&sop) {
            Some(cop) => {
                return compile_conditional(cop, &sargs);
            },
            None => {},
        }
        if spells(&sop, "checkjump") {
            return compile_three_way(&sargs);
        }
        if spells(&sop, "jump") || spells(&sop, "goto") {
            return Ok(Op::Jump(string_of(&sargs)));
        }
        if spells(&sop, "call") {
            return match cut_name_and_args(&sargs) {
                Ok((n, a)) => Ok(Op::Call(n, a)),
                Err(e) => Err(e),
            };
        }
        if spells(&sop, "ret") {
            return Ok(Op::Ret);
        }
        if spells(&sop, "sleepmsec") {
            return match DataM::compile_chars(&sargs, Expect::Isize) {
                Ok(d) => Ok(Op::SleepMSec(d)),
                Err(e) => Err(e),
            };
        }
        if spells(&sop, "fcget") {
            return match cut_two_names(&sargs) {
                Ok((f, b)) => Ok(Op::FcGet(f, b)),
                Err(e) => Err(e),
            };
        }
        if spells(&sop, "bufnew") {
            return match cut_name_and_operand(&sargs, Expect::Any) {
                Ok((b, d)) => Ok(Op::BufNew(b, d)),
                Err(e) => Err(e),
            };
        }
        if spells(&sop, "letbuf") || spells(&sop, "letbuf.b") {
            return match cut_name_and_operand(&sargs, Expect::Any) {
                Ok((b, d)) => Ok(Op::LetBuf(b, d)),
                Err(e) => Err(e),
            };
        }
        if spells(&sop, "letbuf.s") {
            return match cut_name_and_operand(&sargs, Expect::Any) {
                Ok((b, d)) => Ok(Op::LetBufStr(b, d)),
                Err(e) => Err(e),
            };
        }
        if spells(&sop, "buf8randomize") {
            return compile_randomize(&sargs);
        }
        if spells(&sop, "bufsmerge") {
            return compile_merge(&sargs);
        }
        if spells(&sop, "bufmerged") || spells(&sop, "bufmerged.b") {
            return compile_merged(Render::Bytes, &sargs);
        }
        if spells(&sop, "bufmerged.s") {
            return compile_merged(Render::Text, &sargs);
        }
        Err(CompileError::UnknownOp)
    }
}

} // verus!
