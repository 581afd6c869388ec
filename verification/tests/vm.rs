use fuzzerk::fuzzers::{FuzzChainImmuts, Fuzzer};
use fuzzerk::integer::IntError;
use fuzzerk::vm::error::{CompileError, RuntimeError};
use fuzzerk::vm::exec::{
    alu_apply, count_for, low_byte_of, offset_for, value_for, zero_buffer, Request,
};
use fuzzerk::vm::ops::ALUOP;
use fuzzerk::vm::{Pause, Step, VM};

fn lines(src: &[&str]) -> Vec<String> {
    src.iter().map(|s| s.to_string()).collect()
}

fn machine(src: &[&str]) -> VM {
    let mut vm = VM::new();
    assert_eq!(vm.compile(lines(src)), Ok(()));
    vm
}

fn run_to_end(vm: &mut VM) {
    assert_eq!(vm.run(100_000), Ok(Pause::Halted));
}

#[test]
fn add_stores_the_sum() {
    let mut vm = machine(&["letint a 5", "letint b 3", "add c a b"]);
    run_to_end(&mut vm);
    assert_eq!(vm.ctxt().get_int("c"), Some(8));
    assert_eq!(vm.ctxt().get_int("a"), Some(5));
    assert_eq!(vm.ctxt().get_int("b"), Some(3));
}

#[test]
fn loop_counts_to_three() {
    let mut vm = machine(&["letint i 0", "!label L", "inc i", "iflt.i i 3 goto L"]);
    run_to_end(&mut vm);
    assert_eq!(vm.ctxt().get_int("i"), Some(3));
    assert_eq!(vm.ctxt().iptr(), 3);
}

#[test]
fn dollar_before_digits_is_no_operand() {
    let mut vm = VM::new();
    assert_eq!(
        vm.compile(lines(&["letint i 0", "iflt.i i $3 goto L"])),
        Err(CompileError::BadName)
    );
    assert_eq!(vm.len(), 1);
}

#[test]
fn bufmerged_renders_text() {
    let mut vm = machine(&["letstr s \"hello\"", "bufmerged.s dst s \" \" s"]);
    run_to_end(&mut vm);
    assert_eq!(vm.ctxt().get_buf("dst"), Some(b"hello hello".to_vec()));
}

#[test]
fn bufmerged_renders_bytes() {
    let mut vm = machine(&[
        "letint n 1",
        "letstr s \"ab\"",
        "letbuf b $0x0102",
        "bufmerged dst n s b $0xff \"z\"",
    ]);
    run_to_end(&mut vm);
    let mut want = 1isize.to_ne_bytes().to_vec();
    want.extend_from_slice(b"ab");
    want.extend_from_slice(&[1, 2, 0xff]);
    want.extend_from_slice(b"z");
    assert_eq!(vm.ctxt().get_buf("dst"), Some(want));
    let mut vm = machine(&["letint n 12", "letbuf b $0x0aff", "bufmerged.s dst n b"]);
    run_to_end(&mut vm);
    assert_eq!(vm.ctxt().get_buf("dst"), Some(b"120aff".to_vec()));
}

#[test]
fn randomize_with_zero_count_changes_nothing() {
    let mut vm = machine(&["bufnew b 4", "buf8randomize b 0 0 3 65 65"]);
    run_to_end(&mut vm);
    assert_eq!(vm.ctxt().get_buf("b"), Some(vec![0, 0, 0, 0]));
}

#[test]
fn randomize_writes_only_in_range() {
    for _ in 0..20 {
        let mut vm = machine(&["bufnew b 8", "buf8randomize b 200 2 5 65 70"]);
        run_to_end(&mut vm);
        let b = vm.ctxt().get_buf("b").unwrap();
        assert_eq!(b.len(), 8);
        for (i, v) in b.iter().enumerate() {
            if i < 2 || i > 5 {
                assert_eq!(*v, 0);
            } else {
                assert!(*v == 0 || (65..=70).contains(v));
            }
        }
        assert!(b[2..6].iter().any(|v| *v != 0));
    }
}

#[test]
fn randomize_defaults_cover_the_buffer() {
    let mut vm = machine(&["bufnew b 3", "buf8randomize b 500 -1 -1 7 7"]);
    run_to_end(&mut vm);
    assert_eq!(vm.ctxt().get_buf("b"), Some(vec![7, 7, 7]));
    let mut vm = machine(&["bufnew b 16", "buf8randomize b"]);
    run_to_end(&mut vm);
    assert_eq!(vm.ctxt().get_buf("b").unwrap().len(), 16);
    let mut vm = machine(&["bufnew b 2", "buf8randomize b 50 0 1 -1 -1"]);
    run_to_end(&mut vm);
    assert_eq!(vm.ctxt().get_buf("b"), Some(vec![255, 255]));
}

#[test]
fn randomize_refuses_bad_ranges() {
    let cases = [
        "buf8randomize b 1 3 2 0 255",
        "buf8randomize b 1 0 4 0 255",
        "buf8randomize b 1 0 3 9 8",
    ];
    for c in cases {
        let mut vm = machine(&["bufnew b 4", c]);
        assert_eq!(vm.run(10), Err(RuntimeError::BadRange));
        assert_eq!(vm.ctxt().get_buf("b"), Some(vec![0, 0, 0, 0]));
    }
    let mut vm = machine(&["bufnew b 0", "buf8randomize b -1 0 0 0 255"]);
    assert_eq!(vm.run(10), Err(RuntimeError::BadRange));
    let mut vm = machine(&["bufnew b 4", "buf8randomize b 0 0 9 0 255"]);
    run_to_end(&mut vm);
    let mut vm = machine(&["buf8randomize b 0 0 9 0 255"]);
    assert_eq!(vm.run(10), Err(RuntimeError::UnknownVar));
}

#[test]
fn call_aliases_the_argument() {
    let mut vm = machine(&[
        "letint n 1",
        "call f n",
        "jump end",
        "!func f x",
        "inc x",
        "ret",
        "!label end",
    ]);
    run_to_end(&mut vm);
    assert_eq!(vm.ctxt().get_int("n"), Some(2));
    assert_eq!(vm.ctxt().get_int("x"), None);
    assert_eq!(vm.ctxt().depth(), 0);
}

#[test]
fn aliases_resolve_through_nested_calls() {
    let mut vm = machine(&[
        "letint n 10",
        "call outer n",
        "jump end",
        "!func outer a",
        "call inner a",
        "inc a",
        "ret",
        "!func inner b",
        "add b b 5",
        "letint local 1",
        "ret",
        "!label end",
    ]);
    run_to_end(&mut vm);
    assert_eq!(vm.ctxt().get_int("n"), Some(16));
    assert_eq!(vm.ctxt().get_int("a"), None);
    assert_eq!(vm.ctxt().get_int("b"), None);
    assert_eq!(vm.ctxt().get_int("local"), Some(1));
}

#[test]
fn call_and_ret_move_both_stacks_by_one() {
    let mut vm = machine(&["letint n 1", "call f n", "jump end", "!func f x", "ret", "!label end"]);
    assert_eq!(vm.step(), Ok(Step::Done));
    assert_eq!(vm.ctxt().depth(), 0);
    assert_eq!(vm.step(), Ok(Step::Done));
    assert_eq!(vm.ctxt().depth(), 1);
    assert_eq!(vm.ctxt().iptr(), 3);
    assert_eq!(vm.step(), Ok(Step::Done));
    assert_eq!(vm.ctxt().depth(), 0);
    assert_eq!(vm.ctxt().iptr(), 2);
    assert_eq!(vm.step(), Ok(Step::Done));
    assert_eq!(vm.step(), Ok(Step::Halted));
}

#[test]
fn checkjump_goes_three_ways() {
    let prg = |a: isize, b: isize| {
        let la = format!("letint a {}", a);
        let lb = format!("letint b {}", b);
        let mut vm = machine(&[
            la.as_str(),
            lb.as_str(),
            "checkjump a b Llt __NEXT__ Lgt",
            "letstr r \"eq\"",
            "jump end",
            "!label Llt",
            "letstr r \"lt\"",
            "jump end",
            "!label Lgt",
            "letstr r \"gt\"",
            "!label end",
        ]);
        run_to_end(&mut vm);
        vm.ctxt().get_str("r").unwrap()
    };
    assert_eq!(prg(1, 2), "lt");
    assert_eq!(prg(2, 2), "eq");
    assert_eq!(prg(3, 2), "gt");
    assert_eq!(prg(-5, 2), "lt");
}

#[test]
fn a_name_has_one_kind_at_a_time() {
    let mut vm = machine(&["letint v 7", "letstr v \"text\"", "letbuf w v", "letbuf v $0x01", "letint v 2"]);
    assert_eq!(vm.step(), Ok(Step::Done));
    assert_eq!(vm.ctxt().get_int("v"), Some(7));
    assert_eq!(vm.step(), Ok(Step::Done));
    assert_eq!(vm.ctxt().get_int("v"), None);
    assert_eq!(vm.ctxt().get_str("v"), Some("text".to_string()));
    assert_eq!(vm.step(), Ok(Step::Done));
    assert_eq!(vm.ctxt().get_buf("w"), Some(b"text".to_vec()));
    assert_eq!(vm.step(), Ok(Step::Done));
    assert_eq!(vm.ctxt().get_str("v"), None);
    assert_eq!(vm.ctxt().get_buf("v"), Some(vec![1]));
    assert_eq!(vm.step(), Ok(Step::Done));
    assert_eq!(vm.ctxt().get_buf("v"), None);
    assert_eq!(vm.ctxt().get_int("v"), Some(2));
}

#[test]
fn arithmetic_wraps_and_rounds_toward_zero() {
    let max = isize::MAX;
    let min = isize::MIN;
    let src = [
        format!("letint max {}", max),
        format!("letint min {}", min),
        "add a max 1".to_string(),
        "sub b min 1".to_string(),
        "mult c max 2".to_string(),
        "div d -7 2".to_string(),
        "mod e -7 2".to_string(),
        "div f 7 -2".to_string(),
        "mod g 7 -2".to_string(),
        "div h min -1".to_string(),
        "mod i min -1".to_string(),
        "inc max".to_string(),
        "dec min".to_string(),
    ];
    let mut vm = VM::new();
    assert_eq!(vm.compile(src.to_vec()), Ok(()));
    run_to_end(&mut vm);
    let c = vm.ctxt();
    assert_eq!(c.get_int("a"), Some(min));
    assert_eq!(c.get_int("b"), Some(max));
    assert_eq!(c.get_int("c"), Some(-2));
    assert_eq!(c.get_int("d"), Some(-3));
    assert_eq!(c.get_int("e"), Some(-1));
    assert_eq!(c.get_int("f"), Some(-3));
    assert_eq!(c.get_int("g"), Some(1));
    assert_eq!(c.get_int("h"), Some(min));
    assert_eq!(c.get_int("i"), Some(0));
    assert_eq!(c.get_int("max"), Some(min));
    assert_eq!(c.get_int("min"), Some(max));
}

#[test]
fn division_by_zero_fails_and_changes_nothing() {
    let mut vm = machine(&["letint a 1", "div a a 0"]);
    assert_eq!(vm.run(10), Err(RuntimeError::DivideByZero));
    assert_eq!(vm.ctxt().get_int("a"), Some(1));
    assert_eq!(vm.ctxt().iptr(), 1);
    let mut vm = machine(&["mod a 1 0"]);
    assert_eq!(vm.run(10), Err(RuntimeError::DivideByZero));
}

#[test]
fn conditions_compare_as_described() {
    let holds = |line: &str| {
        let mut vm = machine(&[
            "letint x 5",
            "letstr s \"5\"",
            "letbuf b $0x35",
            line,
            "letint r 0",
            "jump end",
            "!label yes",
            "letint r 1",
            "!label end",
        ]);
        run_to_end(&mut vm);
        vm.ctxt().get_int("r") == Some(1)
    };
    assert!(holds("iflt x 6 goto yes"));
    assert!(!holds("iflt x 5 goto yes"));
    assert!(holds("ifgt.i x 4 goto yes"));
    assert!(!holds("ifgt x 5 goto yes"));
    assert!(holds("ifle x 5 goto yes"));
    assert!(!holds("ifle.i x 4 goto yes"));
    assert!(holds("ifge x 5 goto yes"));
    assert!(!holds("ifge.i x 6 goto yes"));
    assert!(holds("iflt s 6 goto yes"));
    assert!(holds("ifeq.b s b goto yes"));
    assert!(holds("ifeq.s s \"5\" goto yes"));
    assert!(!holds("ifeq s x goto yes"));
    assert!(holds("ifne.i s x goto yes"));
    assert!(!holds("ifne.s s \"5\" goto yes"));
    let max = format!("ifle x {} goto yes", isize::MAX);
    assert!(holds(&max));
    let max = format!("ifge {} x goto yes", isize::MAX);
    assert!(holds(&max));
}

#[test]
fn conditional_call_returns_past_the_condition() {
    let mut vm = machine(&[
        "letint n 0",
        "iflt n 1 call bump n",
        "jump end",
        "!func bump v",
        "add v v 10",
        "ret",
        "!label end",
    ]);
    run_to_end(&mut vm);
    assert_eq!(vm.ctxt().get_int("n"), Some(10));
}

#[test]
fn any_operand_prefers_int_then_text_then_buffer() {
    let mut vm = machine(&[
        "letbuf v $0x41",
        "letbuf a v",
        "letstr v \"B\"",
        "letbuf b v",
        "letint v 3",
        "bufmerged.s c v",
    ]);
    run_to_end(&mut vm);
    assert_eq!(vm.ctxt().get_buf("a"), Some(vec![0x41]));
    assert_eq!(vm.ctxt().get_buf("b"), Some(b"B".to_vec()));
    assert_eq!(vm.ctxt().get_buf("c"), Some(b"3".to_vec()));
}

#[test]
fn letstr_after_letint_is_seen_as_text() {
    let mut vm = machine(&["letint n 42", "letstr n \"forty two\"", "letbuf out n"]);
    run_to_end(&mut vm);
    assert_eq!(vm.ctxt().get_int("n"), None);
    assert_eq!(vm.ctxt().get_buf("out"), Some(b"forty two".to_vec()));
}

#[test]
fn letint_reads_text_and_buffers() {
    let word = std::mem::size_of::<isize>();
    let hexword: String = 258isize.to_ne_bytes().iter().map(|b| format!("{:02x}", b)).collect();
    let l = format!("letbuf b $0x{}", hexword);
    let mut vm = machine(&[
        "letstr s \" 0x10 \"",
        "letint a \"12\"",
        l.as_str(),
        "bufnew c b",
        "bufnew d s",
    ]);
    run_to_end(&mut vm);
    assert_eq!(vm.ctxt().get_int("a"), Some(12));
    assert_eq!(vm.ctxt().get_buf("c").unwrap().len(), 258);
    assert_eq!(vm.ctxt().get_buf("d").unwrap().len(), 16);
    assert_eq!(vm.ctxt().get_buf("b").unwrap().len(), word);
}

#[test]
fn runtime_errors_name_what_is_missing() {
    let fails = |src: &[&str]| {
        let mut vm = machine(src);
        vm.run(100).unwrap_err()
    };
    assert_eq!(fails(&["inc nosuch"]), RuntimeError::UnknownVar);
    assert_eq!(fails(&["letstr s \"a\"", "inc s"]), RuntimeError::UnknownVar);
    assert_eq!(fails(&["add c a 1"]), RuntimeError::UnknownVar);
    assert_eq!(fails(&["letbuf b nosuch"]), RuntimeError::UnknownVar);
    assert_eq!(fails(&["bufsmerge d a b"]), RuntimeError::UnknownVar);
    assert_eq!(fails(&["jump nowhere"]), RuntimeError::UnknownLabel);
    assert_eq!(fails(&["checkjump 1 2 nowhere __NEXT__ __NEXT__"]), RuntimeError::UnknownLabel);
    assert_eq!(fails(&["call nofunc"]), RuntimeError::UnknownFunc);
    assert_eq!(fails(&["!func f a b", "call f x"]), RuntimeError::Arity);
    assert_eq!(fails(&["ret"]), RuntimeError::EmptyCallStack);
    assert_eq!(fails(&["iobflush nobridge"]), RuntimeError::UnknownBridge);
    assert_eq!(fails(&["iobclose nobridge"]), RuntimeError::UnknownBridge);
    assert_eq!(fails(&["bufnew b 1", "iobwrite nobridge b"]), RuntimeError::UnknownBridge);
    assert_eq!(fails(&["iobwrite nobridge b"]), RuntimeError::UnknownVar);
    assert_eq!(fails(&["bufnew b 1", "iobread nobridge b"]), RuntimeError::UnknownBridge);
    assert_eq!(fails(&["fcget nochain b"]), RuntimeError::UnknownChain);
    assert_eq!(fails(&["bufnew b -1"]), RuntimeError::Negative);
    assert_eq!(fails(&["sleepmsec -5"]), RuntimeError::Negative);
    assert_eq!(fails(&["letint a \"x1\""]), RuntimeError::BadInt(IntError::Malformed));
    assert_eq!(fails(&["letstr s \"x1\"", "bufnew b s"]), RuntimeError::BadInt(IntError::Malformed));
    assert_eq!(fails(&["letstr s \"1\"", "add a s 1"]), RuntimeError::UnknownVar);
    assert_eq!(fails(&["letint a \"99999999999999999999999\""]), RuntimeError::BadInt(IntError::OutOfRange));
    assert_eq!(fails(&["letbuf b $0x0102", "bufnew a b"]), RuntimeError::BufLen);
    assert_eq!(fails(&["letint a $0x0102"]), RuntimeError::BufLen);
    assert_eq!(fails(&["letint a __RANDOM__BYTES__2"]), RuntimeError::BufLen);
}

#[test]
fn an_error_leaves_the_state_as_it_was() {
    let mut vm = machine(&["letint a 1", "call nofunc a", "letint a 2"]);
    assert_eq!(vm.run(100), Err(RuntimeError::UnknownFunc));
    assert_eq!(vm.ctxt().iptr(), 1);
    assert_eq!(vm.ctxt().depth(), 0);
    assert_eq!(vm.ctxt().get_int("a"), Some(1));
    assert_eq!(vm.run(100), Err(RuntimeError::UnknownFunc));
}

#[test]
fn specials_are_drawn_anew_on_each_read() {
    let mut vm = machine(&[
        "letbuf a __RANDOM__BYTES__32",
        "letbuf b __RANDOM__BYTES__32",
        "letint r __RANDOM__BYTES__64",
        "letint t __TIME__STAMP__",
        "letstr ts __TIME__STAMP__",
        "letbuf tb __TIME__STAMP__",
        "letbuf z __RANDOM__BYTES__0",
    ]);
    run_to_end(&mut vm);
    let c = vm.ctxt();
    let a = c.get_buf("a").unwrap();
    let b = c.get_buf("b").unwrap();
    assert_eq!(a.len(), 32);
    assert_eq!(b.len(), 32);
    assert_ne!(a, b);
    assert!(c.get_int("r").is_some());
    let now = std::time::SystemTime::now()
        .duration_since(std::time::UNIX_EPOCH)
        .unwrap()
        .as_millis();
    let t = c.get_int("t").unwrap() as u128;
    assert!(t <= now && now - t < 60_000);
    let ts: u128 = c.get_str("ts").unwrap().parse().unwrap();
    assert!(ts <= now && now - ts < 60_000);
    let tb = c.get_buf("tb").unwrap();
    assert_eq!(tb.len(), 16);
    let mut raw = [0u8; 16];
    raw.copy_from_slice(&tb);
    let tbv = u128::from_ne_bytes(raw);
    assert!(tbv <= now && now - tbv < 60_000);
    assert_eq!(c.get_buf("z"), Some(vec![]));
}

#[test]
fn bufsmerge_concatenates_and_copies() {
    let mut vm = machine(&[
        "letbuf a $0x0102",
        "letbuf b $0x03",
        "bufsmerge c a b a",
        "bufsmerge d b",
        "bufsmerge a a a",
    ]);
    run_to_end(&mut vm);
    assert_eq!(vm.ctxt().get_buf("c"), Some(vec![1, 2, 3, 1, 2]));
    assert_eq!(vm.ctxt().get_buf("d"), Some(vec![3]));
    assert_eq!(vm.ctxt().get_buf("a"), Some(vec![1, 2, 1, 2]));
}

#[test]
fn letbuf_s_takes_the_text_of_the_operand() {
    let mut vm = machine(&["letint n -12", "letbuf.s a n", "letbuf.b b n", "letbuf.s c $0xAb01"]);
    run_to_end(&mut vm);
    assert_eq!(vm.ctxt().get_buf("a"), Some(b"-12".to_vec()));
    assert_eq!(vm.ctxt().get_buf("b"), Some((-12isize).to_ne_bytes().to_vec()));
    assert_eq!(vm.ctxt().get_buf("c"), Some(b"ab01".to_vec()));
}

#[test]
fn bridges_are_requests_to_the_host() {
    let mut vm = machine(&[
        "letbuf data $0x010203",
        "iobnew out tcp://127.0.0.1:9 a=1 b=two a=3",
        "iobwrite out data",
        "iobflush out",
        "iobread out data",
        "iobnew out console",
        "iobclose out",
        "sleepmsec 25",
        "iobflush out",
    ]);
    assert_eq!(
        vm.run(100),
        Ok(Pause::Ask(Request::IobNew {
            id: "out".to_string(),
            addr: "tcp://127.0.0.1:9".to_string(),
            args: vec![
                ("a".to_string(), "1".to_string()),
                ("b".to_string(), "two".to_string()),
                ("a".to_string(), "3".to_string())
            ],
            reopen: false
        }))
    );
    assert!(vm.ctxt().has_bridge(&"out".to_string()));
    assert_eq!(
        vm.run(100),
        Ok(Pause::Ask(Request::IobWrite { id: "out".to_string(), data: vec![1, 2, 3] }))
    );
    assert_eq!(vm.run(100), Ok(Pause::Ask(Request::IobFlush { id: "out".to_string() })));
    assert_eq!(
        vm.run(100),
        Ok(Pause::Ask(Request::IobRead { id: "out".to_string(), buf: "data".to_string(), len: 3 }))
    );
    vm.read_done("data", vec![9, 8, 7], 2);
    assert_eq!(vm.ctxt().get_buf("data"), Some(vec![9, 8]));
    assert_eq!(
        vm.run(100),
        Ok(Pause::Ask(Request::IobNew {
            id: "out".to_string(),
            addr: "console".to_string(),
            args: vec![],
            reopen: true
        }))
    );
    assert_eq!(vm.run(100), Ok(Pause::Ask(Request::IobClose { id: "out".to_string() })));
    assert!(!vm.ctxt().has_bridge(&"out".to_string()));
    assert_eq!(vm.run(100), Ok(Pause::Ask(Request::Sleep { msec: 25 })));
    assert_eq!(vm.run(100), Err(RuntimeError::UnknownBridge));
}

#[test]
fn read_done_pads_with_zeros() {
    let mut vm = VM::new();
    vm.read_done("b", vec![1, 2], 4);
    assert_eq!(vm.ctxt().get_buf("b"), Some(vec![1, 2, 0, 0]));
    vm.read_done("b", vec![1, 2], 0);
    assert_eq!(vm.ctxt().get_buf("b"), Some(vec![]));
}

#[test]
fn fcget_draws_for_the_current_step_and_moves_on() {
    let mut chain = FuzzChainImmuts::new();
    chain.push(Fuzzer::LoopFixedStrings(vec![b"a".to_vec(), b"bb".to_vec(), b"ccc".to_vec()]));
    chain.push(Fuzzer::LoopFixedStrings(vec![b"-".to_vec()]));
    let mut vm = machine(&["fcget fc got", "fcget fc got", "fcget fc got", "fcget fc got"]);
    assert!(vm.add_chain("fc", chain));
    let want: [&[u8]; 4] = [b"a-", b"bb-", b"ccc-", b"a-"];
    for (i, w) in want.iter().enumerate() {
        assert_eq!(vm.ctxt().stepu(), i);
        assert_eq!(vm.step(), Ok(Step::Done));
        assert_eq!(vm.ctxt().stepu(), i + 1);
        assert_eq!(vm.ctxt().get_buf("got"), Some(w.to_vec()));
    }
}

#[test]
fn only_fcget_moves_the_step_counter() {
    let mut chain = FuzzChainImmuts::new();
    chain.push(Fuzzer::new_printables(1, 3));
    let mut vm = machine(&["letint a 1", "inc a", "bufnew b 2", "fcget fc b", "nop"]);
    assert!(vm.add_chain("fc", chain));
    run_to_end(&mut vm);
    assert_eq!(vm.ctxt().stepu(), 1);
}

#[test]
fn an_unusable_chain_is_refused() {
    let mut chain = FuzzChainImmuts::new();
    chain.push(Fuzzer::LoopFixedStrings(vec![]));
    let mut vm = VM::new();
    assert!(!vm.add_chain("fc", chain));
    assert_eq!(vm.compile(lines(&["fcget fc b"])), Ok(()));
    assert_eq!(vm.run(10), Err(RuntimeError::UnknownChain));
}

#[test]
fn run_stops_when_its_steps_are_used_up() {
    let mut vm = machine(&["!label top", "nop", "jump top"]);
    assert_eq!(vm.run(1001), Ok(Pause::OutOfSteps));
    assert_eq!(vm.run(0), Ok(Pause::OutOfSteps));
    assert_eq!(vm.ctxt().iptr(), 1);
}

#[test]
fn forward_references_are_resolved_when_run() {
    let mut vm = machine(&["jump later", "letint skipped 1", "!label later", "letint reached 1"]);
    run_to_end(&mut vm);
    assert_eq!(vm.ctxt().get_int("skipped"), None);
    assert_eq!(vm.ctxt().get_int("reached"), Some(1));
    let mut vm = machine(&["goto __NEXT__", "letint a 1"]);
    run_to_end(&mut vm);
    assert_eq!(vm.ctxt().get_int("a"), Some(1));
}

#[test]
fn load_prg_normalises_and_skips_comments() {
    let mut vm = VM::new();
    let text = "# a comment\n\n   letint    a   5  \n\tletstr s   \"two  spaces\"\n!label   here\n  # indented comment\nadd\tb\ta\t1\n";
    assert_eq!(vm.load_prg(text), Ok(()));
    assert_eq!(vm.len(), 3);
    run_to_end(&mut vm);
    assert_eq!(vm.ctxt().get_int("a"), Some(5));
    assert_eq!(vm.ctxt().get_int("b"), Some(6));
    assert_eq!(vm.ctxt().get_str("s"), Some("two  spaces".to_string()));
    assert_eq!(vm.ctxt().label(&"here".to_string()), Some(2));
}

#[test]
fn compile_stops_at_the_first_bad_line() {
    let mut vm = VM::new();
    assert_eq!(
        vm.compile(lines(&["letint a 1", "!label L", "frobnicate a", "letint b 2"])),
        Err(CompileError::UnknownOp)
    );
    assert_eq!(vm.len(), 1);
    assert_eq!(vm.ctxt().label(&"L".to_string()), Some(1));
    assert_eq!(vm.compile(lines(&["letint b 2"])), Ok(()));
    assert_eq!(vm.len(), 2);
}

#[test]
fn directives_bind_labels_and_functions() {
    let mut vm = VM::new();
    assert_eq!(vm.compile_directive("!label start"), Ok(()));
    assert_eq!(vm.compile_directive("!func f a b  c"), Ok(()));
    assert_eq!(vm.compile_directive("!func g"), Ok(()));
    assert_eq!(vm.ctxt().label(&"start".to_string()), Some(0));
    let f = vm.ctxt().func(&"f".to_string()).unwrap();
    assert_eq!(f.0, 0);
    assert_eq!(f.1, vec!["a".to_string(), "b".to_string(), "c".to_string()]);
    assert_eq!(vm.ctxt().func(&"g".to_string()).unwrap().1.len(), 0);
    assert_eq!(vm.compile_directive("!label"), Err(CompileError::MissingArgs));
    assert_eq!(vm.compile_directive("!func  "), Err(CompileError::MissingArgs));
    assert_eq!(vm.compile_directive("!macro x"), Err(CompileError::UnknownDirective));
}

#[test]
fn predefined_program_drives_a_chain() {
    let mut chain = FuzzChainImmuts::new();
    chain.push(Fuzzer::LoopFixedStrings(vec![b"x".to_vec(), b"yy".to_vec()]));
    let mut vm = VM::new();
    assert!(vm.add_chain("fc1", chain));
    let args = vec![("append".to_string(), "true".to_string())];
    assert_eq!(vm.predefined_prg("fc1", 3, "file:///tmp/out", &args), Ok(()));
    assert_eq!(vm.len(), 7);
    let mut writes: Vec<Vec<u8>> = Vec::new();
    let mut opens = 0;
    let mut flushes = 0;
    loop {
        match vm.run(1000).unwrap() {
            Pause::Halted => break,
            Pause::OutOfSteps => panic!("the program should end"),
            Pause::Ask(Request::IobNew { id, addr, args, reopen }) => {
                assert_eq!(id, "srvX");
                assert_eq!(addr, "file:///tmp/out");
                assert_eq!(args, vec![("append".to_string(), "true".to_string())]);
                assert_eq!(reopen, opens > 0);
                opens += 1;
            }
            Pause::Ask(Request::IobWrite { id, data }) => {
                assert_eq!(id, "srvX");
                writes.push(data);
            }
            Pause::Ask(Request::IobFlush { .. }) => flushes += 1,
            Pause::Ask(other) => panic!("unexpected request {:?}", other),
        }
    }
    assert_eq!(opens, 3);
    assert_eq!(flushes, 3);
    assert_eq!(writes, vec![b"x".to_vec(), b"yy".to_vec(), b"x".to_vec()]);
    assert_eq!(vm.ctxt().get_int("loopcnt"), Some(3));
    assert_eq!(vm.ctxt().stepu(), 3);
}

#[test]
fn predefined_program_without_options() {
    let mut vm = VM::new();
    assert_eq!(vm.predefined_prg("fc", 0, "none", &vec![]), Ok(()));
    assert_eq!(vm.len(), 7);
    match vm.run(10).unwrap() {
        Pause::Ask(Request::IobNew { args, .. }) => assert!(args.is_empty()),
        other => panic!("unexpected {:?}", other),
    }
}

#[test]
fn draws_are_mapped_into_their_ranges() {
    assert_eq!(count_for(10, 1234), 4);
    assert_eq!(count_for(1, usize::MAX), 0);
    assert_eq!(offset_for(2, 5, 0), 2);
    assert_eq!(offset_for(2, 5, 7), 5);
    assert_eq!(offset_for(3, 3, usize::MAX), 3);
    assert_eq!(value_for(65, 70, 0), 65);
    assert_eq!(value_for(65, 70, 11), 70);
    assert_eq!(value_for(0, 255, 0xffff), 255);
    assert_eq!(value_for(9, 9, 12345), 9);
    assert_eq!(low_byte_of(0), 0);
    assert_eq!(low_byte_of(255), 255);
    assert_eq!(low_byte_of(256), 0);
    assert_eq!(low_byte_of(-1), 255);
    assert_eq!(low_byte_of(-256), 0);
    assert_eq!(low_byte_of(isize::MIN), 0);
    assert_eq!(low_byte_of(isize::MAX), 255);
    for x in [-1000isize, -257, -129, -128, -1, 0, 1, 127, 128, 300, 65535] {
        assert_eq!(low_byte_of(x), x as u8);
    }
    assert_eq!(zero_buffer(3), vec![0, 0, 0]);
    assert_eq!(alu_apply(ALUOP::Add, 2, 3), Ok(5));
    assert_eq!(alu_apply(ALUOP::Sub, 2, 3), Ok(-1));
    assert_eq!(alu_apply(ALUOP::Mult, -4, 3), Ok(-12));
    assert_eq!(alu_apply(ALUOP::Div, -9, 2), Ok(-4));
    assert_eq!(alu_apply(ALUOP::Mod, -9, 2), Ok(-1));
    assert_eq!(alu_apply(ALUOP::Div, 1, 0), Err(RuntimeError::DivideByZero));
}
