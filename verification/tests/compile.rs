use fuzzerk::hex::HexError;
use fuzzerk::integer::IntError;
use fuzzerk::vm::datam::{DataM, Expect};
use fuzzerk::vm::error::CompileError;
use fuzzerk::vm::ops::{Branch, CondOp, Op, Render, ALUOP};

fn s(x: &str) -> String {
    x.to_string()
}

#[test]
fn operands_are_told_apart_by_their_start() {
    assert_eq!(DataM::compile("  42 ", Expect::Any), Ok(DataM::IntLiteral(42)));
    assert_eq!(DataM::compile("-0x10", Expect::Any), Err(CompileError::BadInt(IntError::Malformed)));
    assert_eq!(DataM::compile("0x-10", Expect::Isize), Ok(DataM::IntLiteral(-16)));
    assert_eq!(DataM::compile("+7", Expect::Text), Ok(DataM::IntLiteral(7)));
    assert_eq!(DataM::compile("\"a b\"", Expect::Any), Ok(DataM::StringLiteral(s("a b"))));
    assert_eq!(DataM::compile("\"\"", Expect::Any), Ok(DataM::StringLiteral(s(""))));
    assert_eq!(
        DataM::compile("\"q\\\"uote\"", Expect::Any),
        Ok(DataM::StringLiteral(s("q\\\"uote")))
    );
    assert_eq!(DataM::compile("$0x00ff", Expect::Any), Ok(DataM::BufData(vec![0, 255])));
    assert_eq!(DataM::compile("$0x", Expect::Any), Ok(DataM::BufData(vec![])));
    assert_eq!(DataM::compile("__TIME__STAMP__", Expect::Any), Ok(DataM::XTimeStamp));
    assert_eq!(DataM::compile("__RANDOM__BYTES__16", Expect::Any), Ok(DataM::XRandomBytes(16)));
    assert_eq!(DataM::compile("__RANDOM__BYTES__+3", Expect::Any), Ok(DataM::XRandomBytes(3)));
    assert_eq!(DataM::compile("name", Expect::Isize), Ok(DataM::IntVar(s("name"))));
    assert_eq!(DataM::compile("name", Expect::Text), Ok(DataM::StringVar(s("name"))));
    assert_eq!(DataM::compile(" name\t", Expect::Any), Ok(DataM::AnyVar(s("name"))));
    assert_eq!(DataM::compile("\u{e9}t\u{e9}", Expect::Any), Ok(DataM::AnyVar(s("\u{e9}t\u{e9}"))));
}

#[test]
fn malformed_operands_are_refused() {
    assert_eq!(DataM::compile("", Expect::Any), Err(CompileError::EmptyOperand));
    assert_eq!(DataM::compile("   ", Expect::Any), Err(CompileError::EmptyOperand));
    assert_eq!(DataM::compile("12x", Expect::Any), Err(CompileError::BadInt(IntError::Malformed)));
    assert_eq!(
        DataM::compile("99999999999999999999", Expect::Any),
        Err(CompileError::BadInt(IntError::OutOfRange))
    );
    assert_eq!(
        DataM::compile("\u{663}", Expect::Any),
        Err(CompileError::BadInt(IntError::Malformed))
    );
    assert_eq!(DataM::compile("\"open", Expect::Any), Err(CompileError::QuoteMismatch));
    assert_eq!(DataM::compile("close\"", Expect::Any), Err(CompileError::QuoteMismatch));
    assert_eq!(DataM::compile("\"a\" \"b\"", Expect::Any), Err(CompileError::TrailingData));
    assert_eq!(DataM::compile("\"a\"b\"", Expect::Any), Err(CompileError::TrailingData));
    assert_eq!(
        DataM::compile("$0xabc", Expect::Any),
        Err(CompileError::BadHex(HexError::OddLength))
    );
    assert_eq!(
        DataM::compile("$0xzz", Expect::Any),
        Err(CompileError::BadHex(HexError::BadDigit(0)))
    );
    assert_eq!(DataM::compile("__NO__SUCH__", Expect::Any), Err(CompileError::UnknownSpecial));
    assert_eq!(DataM::compile("__RANDOM__BYTES__", Expect::Any), Err(CompileError::BadCount));
    assert_eq!(DataM::compile("__RANDOM__BYTES__-1", Expect::Any), Err(CompileError::BadCount));
    assert_eq!(DataM::compile("__RANDOM__BYTES__1x", Expect::Any), Err(CompileError::BadCount));
    assert_eq!(DataM::compile("$3", Expect::Any), Err(CompileError::BadName));
    assert_eq!(DataM::compile("_x", Expect::Any), Err(CompileError::BadName));
    assert_eq!(DataM::compile("__", Expect::Any), Err(CompileError::BadName));
    assert_eq!(DataM::compile("\"", Expect::Any), Err(CompileError::BadName));
    assert_eq!(DataM::compile("$0", Expect::Any), Err(CompileError::BadName));
}

#[test]
fn random_bytes_count_reaches_the_whole_range() {
    let l = format!("__RANDOM__BYTES__{}", usize::MAX);
    assert_eq!(DataM::compile(&l, Expect::Any), Ok(DataM::XRandomBytes(usize::MAX)));
    let l = format!("__RANDOM__BYTES__{}0", usize::MAX);
    assert_eq!(DataM::compile(&l, Expect::Any), Err(CompileError::BadCount));
}

#[test]
fn each_operation_compiles() {
    let iv = |n: &str| DataM::IntVar(s(n));
    let av = |n: &str| DataM::AnyVar(s(n));
    assert_eq!(Op::compile("nop"), Ok(Op::Nop));
    assert_eq!(Op::compile("nop ignored words"), Ok(Op::Nop));
    assert_eq!(
        Op::compile("letstr name \"a  b\""),
        Ok(Op::LetStr(s("name"), DataM::StringLiteral(s("a  b"))))
    );
    assert_eq!(Op::compile("letstr a b"), Ok(Op::LetStr(s("a"), DataM::StringVar(s("b")))));
    assert_eq!(Op::compile("letint a  5"), Ok(Op::LetInt(s("a"), DataM::IntLiteral(5))));
    assert_eq!(Op::compile("letint a b"), Ok(Op::LetInt(s("a"), iv("b"))));
    assert_eq!(Op::compile("inc a"), Ok(Op::Inc(s("a"))));
    assert_eq!(Op::compile("dec a"), Ok(Op::Dec(s("a"))));
    assert_eq!(Op::compile("inc"), Ok(Op::Inc(s(""))));
    assert_eq!(
        Op::compile("add c a 1"),
        Ok(Op::Alu(ALUOP::Add, s("c"), iv("a"), DataM::IntLiteral(1)))
    );
    assert_eq!(Op::compile("sub c a b"), Ok(Op::Alu(ALUOP::Sub, s("c"), iv("a"), iv("b"))));
    assert_eq!(Op::compile("mult c a b"), Ok(Op::Alu(ALUOP::Mult, s("c"), iv("a"), iv("b"))));
    assert_eq!(Op::compile("div c a b"), Ok(Op::Alu(ALUOP::Div, s("c"), iv("a"), iv("b"))));
    assert_eq!(Op::compile("mod c a b x"), Ok(Op::Alu(ALUOP::Mod, s("c"), iv("a"), iv("b"))));
    assert_eq!(
        Op::compile("iobnew io file:///x append=true mode=a=b"),
        Ok(Op::IobNew(
            s("io"),
            s("file:///x"),
            vec![(s("append"), s("true")), (s("mode"), s("a=b"))]
        ))
    );
    assert_eq!(Op::compile("iobnew io none"), Ok(Op::IobNew(s("io"), s("none"), vec![])));
    assert_eq!(Op::compile("iobwrite io buf"), Ok(Op::IobWrite(s("io"), s("buf"))));
    assert_eq!(Op::compile("iobflush io"), Ok(Op::IobFlush(s("io"))));
    assert_eq!(Op::compile("iobread io buf"), Ok(Op::IobRead(s("io"), s("buf"))));
    assert_eq!(Op::compile("iobclose io"), Ok(Op::IobClose(s("io"))));
    assert_eq!(
        Op::compile("iflt a 3 goto L"),
        Ok(Op::If(CondOp::IfLtInt, av("a"), DataM::IntLiteral(3), Branch::Goto, s("L"), vec![]))
    );
    assert_eq!(
        Op::compile("ifeq.s a \"x y\" call f p q"),
        Ok(Op::If(
            CondOp::IfEqBuf,
            av("a"),
            DataM::StringLiteral(s("x y")),
            Branch::Call,
            s("f"),
            vec![s("p"), s("q")]
        ))
    );
    let names = [
        ("iflt.i", CondOp::IfLtInt),
        ("ifgt", CondOp::IfGtInt),
        ("ifgt.i", CondOp::IfGtInt),
        ("ifle", CondOp::IfLeInt),
        ("ifle.i", CondOp::IfLeInt),
        ("ifge", CondOp::IfGeInt),
        ("ifge.i", CondOp::IfGeInt),
        ("ifeq", CondOp::IfEqBuf),
        ("ifeq.b", CondOp::IfEqBuf),
        ("ifeq.i", CondOp::IfEqBuf),
        ("ifne", CondOp::IfNeBuf),
        ("ifne.b", CondOp::IfNeBuf),
        ("ifne.i", CondOp::IfNeBuf),
        ("ifne.s", CondOp::IfNeBuf),
    ];
    for (n, c) in names {
        let l = format!("{} a b goto L", n);
        assert_eq!(Op::compile(&l), Ok(Op::If(c, av("a"), av("b"), Branch::Goto, s("L"), vec![])));
    }
    assert_eq!(
        Op::compile("checkjump a 2 lt __NEXT__ gt"),
        Ok(Op::CheckJump(iv("a"), DataM::IntLiteral(2), s("lt"), s("__NEXT__"), s("gt")))
    );
    assert_eq!(Op::compile("jump L"), Ok(Op::Jump(s("L"))));
    assert_eq!(Op::compile("goto L"), Ok(Op::Jump(s("L"))));
    assert_eq!(Op::compile("call f a b"), Ok(Op::Call(s("f"), vec![s("a"), s("b")])));
    assert_eq!(Op::compile("call f"), Ok(Op::Call(s("f"), vec![])));
    assert_eq!(Op::compile("ret"), Ok(Op::Ret));
    assert_eq!(Op::compile("sleepmsec 10"), Ok(Op::SleepMSec(DataM::IntLiteral(10))));
    assert_eq!(Op::compile("fcget fc buf"), Ok(Op::FcGet(s("fc"), s("buf"))));
    assert_eq!(Op::compile("bufnew b n"), Ok(Op::BufNew(s("b"), av("n"))));
    assert_eq!(Op::compile("letbuf b $0x01"), Ok(Op::LetBuf(s("b"), DataM::BufData(vec![1]))));
    assert_eq!(Op::compile("letbuf.b b v"), Ok(Op::LetBuf(s("b"), av("v"))));
    assert_eq!(Op::compile("letbuf.s b v"), Ok(Op::LetBufStr(s("b"), av("v"))));
    assert_eq!(
        Op::compile("buf8randomize b 1 2 3 4 5"),
        Ok(Op::Buf8Randomize(
            s("b"),
            DataM::IntLiteral(1),
            DataM::IntLiteral(2),
            DataM::IntLiteral(3),
            DataM::IntLiteral(4),
            DataM::IntLiteral(5)
        ))
    );
    assert_eq!(
        Op::compile("buf8randomize b n"),
        Ok(Op::Buf8Randomize(
            s("b"),
            iv("n"),
            DataM::IntLiteral(-1),
            DataM::IntLiteral(-1),
            DataM::IntLiteral(0),
            DataM::IntLiteral(255)
        ))
    );
    assert_eq!(Op::compile("bufsmerge d a b"), Ok(Op::BufsMerge(s("d"), vec![s("a"), s("b")])));
    assert_eq!(Op::compile("bufsmerge d a"), Ok(Op::BufsMerge(s("d"), vec![s("a")])));
    assert_eq!(
        Op::compile("bufmerged d a \"b c\" 3"),
        Ok(Op::BufMerged(
            Render::Bytes,
            s("d"),
            vec![av("a"), DataM::StringLiteral(s("b c")), DataM::IntLiteral(3)]
        ))
    );
    assert_eq!(
        Op::compile("bufmerged.b d a"),
        Ok(Op::BufMerged(Render::Bytes, s("d"), vec![av("a")]))
    );
    assert_eq!(
        Op::compile("bufmerged.s d a"),
        Ok(Op::BufMerged(Render::Text, s("d"), vec![av("a")]))
    );
}

#[test]
fn malformed_lines_are_refused() {
    assert_eq!(Op::compile("frobnicate"), Err(CompileError::UnknownOp));
    assert_eq!(Op::compile(""), Err(CompileError::UnknownOp));
    assert_eq!(Op::compile("LETINT a 1"), Err(CompileError::UnknownOp));
    assert_eq!(Op::compile("letint a"), Err(CompileError::MissingArgs));
    assert_eq!(Op::compile("letstr"), Err(CompileError::MissingArgs));
    assert_eq!(Op::compile("letint a 1x"), Err(CompileError::BadInt(IntError::Malformed)));
    assert_eq!(Op::compile("add c a"), Err(CompileError::MissingArgs));
    assert_eq!(Op::compile("add c _a b"), Err(CompileError::BadName));
    assert_eq!(Op::compile("iobnew io"), Err(CompileError::MissingArgs));
    assert_eq!(Op::compile("iobnew io addr noequals"), Err(CompileError::BadOption));
    assert_eq!(Op::compile("iobwrite io"), Err(CompileError::MissingArgs));
    assert_eq!(Op::compile("iobread io"), Err(CompileError::MissingArgs));
    assert_eq!(Op::compile("iflt a b"), Err(CompileError::MissingArgs));
    assert_eq!(Op::compile("iflt a b goto"), Err(CompileError::MissingArgs));
    assert_eq!(Op::compile("iflt a b hop L"), Err(CompileError::BadBranch));
    assert_eq!(Op::compile("iflt a b call  "), Err(CompileError::MissingArgs));
    assert_eq!(Op::compile("iflt _a b goto L"), Err(CompileError::BadName));
    assert_eq!(Op::compile("checkjump a b lt eq"), Err(CompileError::MissingArgs));
    assert_eq!(Op::compile("call"), Err(CompileError::MissingArgs));
    assert_eq!(Op::compile("sleepmsec"), Err(CompileError::EmptyOperand));
    assert_eq!(Op::compile("fcget fc"), Err(CompileError::MissingArgs));
    assert_eq!(Op::compile("bufnew b"), Err(CompileError::MissingArgs));
    assert_eq!(Op::compile("letbuf b"), Err(CompileError::MissingArgs));
    assert_eq!(
        Op::compile("letbuf b $0x1"),
        Err(CompileError::BadHex(HexError::OddLength))
    );
    assert_eq!(Op::compile("buf8randomize b 1 2 3 4 5 6"), Err(CompileError::TooManyArgs));
    assert_eq!(Op::compile("bufsmerge d"), Err(CompileError::MissingArgs));
    assert_eq!(Op::compile("bufmerged d"), Err(CompileError::MissingArgs));
    assert_eq!(Op::compile("bufmerged d \"open"), Err(CompileError::QuoteMismatch));
    assert_eq!(Op::compile("letstr s \"a\" b"), Err(CompileError::QuoteMismatch));
    assert_eq!(Op::compile("letstr s \"a\" \"b\""), Err(CompileError::TrailingData));
    assert_eq!(Op::compile("letint n __WHAT__"), Err(CompileError::UnknownSpecial));
    assert_eq!(Op::compile("letint n __RANDOM__BYTES__x"), Err(CompileError::BadCount));
}

#[test]
fn name_args_cuts_at_white_space() {
    assert_eq!(
        Op::name_args("  f  a\tb "),
        Ok((s("f"), vec![s("a"), s("b")]))
    );
    assert_eq!(Op::name_args("f"), Ok((s("f"), vec![])));
    assert_eq!(Op::name_args("   "), Err(CompileError::MissingArgs));
}
