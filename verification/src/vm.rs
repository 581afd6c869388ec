//! The virtual machine: values, operands, instructions, and the engine that
//! compiles and runs a program.

use vstd::prelude::*;
use vstd::string::StringExecFns;
use crate::datautils::{normalized, remove_extra_whitespaces};
use crate::fuzzers::{all_usable, FuzzChainImmuts};
use crate::integer::{decimal_of_u128, decimal_text};
use crate::text::{
    chars_of, split_all, split_every, split_first, split_once, spells, string_of, strings_of,
    trim, trimmed, views,
};
use crate::vm::compile::{instruction, name_and_args};
use crate::vm::context::{resized, Context, ContextView};
use crate::vm::error::{CompileError, RuntimeError};
use crate::vm::exec::{effect, outcome_view, OutcomeView, Request, RequestView};
use crate::vm::ops::{Op, OpView};

pub mod compile;
pub mod context;
pub mod datam;
pub mod datas;
pub mod error;
pub mod exec;
pub mod laws;
pub mod ops;
pub mod table;

verus! {

/// A machine: a state and a program.
pub struct VM {
    ctxt: Context,
    ops: Vec<Op>,
}

/// A machine, as mathematics.
pub struct VMView {
    /// The state.
    pub ctxt: ContextView,
    /// The program.
    pub ops: Seq<OpView>,
}

impl View for VM {
    type V = VMView;

    closed spec fn view(&self) -> VMView {
        VMView { ctxt: self.ctxt@, ops: self.ops.deep_view() }
    }
}

/// What a directive does to the state when `at` instructions have been
/// compiled: `!label` binds the rest of the line to `at`; `!func` binds
/// the first word after it to `at` and the words that follow as formal
/// parameters.
pub open spec fn directive(line: Seq<char>, at: usize, cv: ContextView) -> Result<
    ContextView,
    CompileError,
> {
    match split_once(line, ' ') {
        None => Err(CompileError::MissingArgs),
        Some((sdir, sargs)) => if sdir == "!label"@ {
            Ok(ContextView { lbls: cv.lbls.insert(sargs, at), ..cv })
        } else if sdir == "!func"@ {
            match name_and_args(sargs) {
                Err(e) => Err(e),
                Ok((name, formals)) => Ok(
                    ContextView { funcs: cv.funcs.insert(name, (at, formals)), ..cv },
                ),
            }
        } else {
            Err(CompileError::UnknownDirective)
        },
    }
}

/// What compiling one line does to a machine: a blank line and a line that
/// starts with `#` do nothing, a line that starts with `!` is a directive,
/// any other is an instruction that is added to the program.
pub open spec fn assemble_line(vm: VMView, line: Seq<char>) -> Result<VMView, CompileError> {
    let t = trimmed(line);
    if t.len() == 0 || t[0] == '#' {
        Ok(vm)
    } else if t[0] == '!' {
        match directive(t, vm.ops.len() as usize, vm.ctxt) {
            Ok(c) => Ok(VMView { ctxt: c, ..vm }),
            Err(e) => Err(e),
        }
    } else {
        match instruction(t) {
            Ok(op) => Ok(VMView { ops: vm.ops.push(op), ..vm }),
            Err(e) => Err(e),
        }
    }
}

/// What compiling lines in order does to a machine: the machine after the
/// lines before the first that fails, and the failure if there is one.
pub open spec fn assemble(vm: VMView, lines: Seq<Seq<char>>) -> (VMView, Option<CompileError>)
    decreases lines.len(),
{
    if lines.len() == 0 {
        (vm, None)
    } else {
        let (v, e) = assemble(vm, lines.drop_last());
        if e is Some {
            (v, e)
        } else {
            match assemble_line(v, lines.last()) {
                Ok(w) => (w, None),
                Err(x) => (v, Some(x)),
            }
        }
    }
}

/// The failure of an assembly as a result.
pub open spec fn verdict(e: Option<CompileError>) -> Result<(), CompileError> {
    match e {
        None => Ok(()),
        Some(x) => Err(x),
    }
}

/// The lines of a program text, each with its white space normalised.
pub open spec fn program_lines(text: Seq<char>) -> Seq<Seq<char>> {
    split_all(text, '\n').map_values(|l: Seq<char>| normalized(l))
}

/// The options of a bridge as they are written on a line: each as
/// `key=value` with a space after it.
pub open spec fn options_text(ioargs: Seq<(Seq<char>, Seq<char>)>) -> Seq<char>
    decreases ioargs.len(),
{
    if ioargs.len() == 0 {
        Seq::empty()
    } else {
        options_text(ioargs.drop_last()) + ioargs.last().0 + "="@ + ioargs.last().1 + " "@
    }
}

/// The lines of the program that drives a fuzz chain against a bridge:
/// `loopcnt` times it opens the bridge at `ioaddr`, draws a record from
/// the chain `fc`, writes it and flushes.
pub open spec fn predefined_lines(
    fc: Seq<char>,
    loopcnt: usize,
    ioaddr: Seq<char>,
    ioargs: Seq<(Seq<char>, Seq<char>)>,
) -> Seq<Seq<char>> {
    seq![
        "letint loopcnt 0"@,
        "!label freshstart"@,
        "iobnew srvX "@ + ioaddr + " "@ + options_text(ioargs),
        "fcget "@ + fc + " fuzzgot"@,
        "iobwrite srvX fuzzgot"@,
        "iobflush srvX"@,
        "inc loopcnt"@,
        "iflt.i loopcnt "@ + decimal_text(loopcnt as int) + " goto freshstart"@,
    ]
}

/// How one step of a machine ends.
#[derive(Debug, Clone, PartialEq, Eq)]
pub enum Step {
    /// The pointer is past the end of the program: nothing was done.
    Halted,
    /// An instruction ran.
    Done,
    /// An instruction ran and asks this of the host.
    Ask(Request),
}

/// How one step of a machine ends, as mathematics.
pub enum StepView {
    Halted,
    Done,
    Ask(RequestView),
}

impl View for Step {
    type V = StepView;

    open spec fn view(&self) -> StepView {
        match self {
            Step::Halted => StepView::Halted,
            Step::Done => StepView::Done,
            Step::Ask(q) => StepView::Ask(q@),
        }
    }
}

/// The view of the result of a step.
pub open spec fn step_view(r: Result<Step, RuntimeError>) -> Result<StepView, RuntimeError> {
    match r {
        Ok(s) => Ok(s@),
        Err(e) => Err(e),
    }
}

/// What a step does once its instruction has run from the state `begun`
/// to the state `mid` with the outcome `out`. An error leaves the state as
/// it was when the instruction began.
pub open spec fn stepped_with(
    pre: VMView,
    post: VMView,
    r: Result<StepView, RuntimeError>,
    mid: ContextView,
    out: OutcomeView,
) -> bool {
    effect(pre.ops[pre.ctxt.iptr as int], pre.ctxt.begun(), mid, out) && post.ops == pre.ops
        && match out {
        Err(e) => post.ctxt == mid && r == Err::<StepView, RuntimeError>(e),
        Ok(None) => post.ctxt == mid.ended() && r == Ok::<StepView, RuntimeError>(StepView::Done),
        Ok(Some(q)) => post.ctxt == mid.ended() && r == Ok::<StepView, RuntimeError>(
            StepView::Ask(q),
        ),
    }
}

/// Whether one step may take the machine from `pre` to `post` and end with
/// `r`. Past the end of the program the machine halts. Else the pointer is
/// marked as due to move on, the current instruction runs, and the pointer
/// moves on by one unless the instruction set it.
pub open spec fn stepped(pre: VMView, post: VMView, r: Result<StepView, RuntimeError>) -> bool {
    if pre.ctxt.iptr >= pre.ops.len() {
        post == pre && r == Ok::<StepView, RuntimeError>(StepView::Halted)
    } else {
        exists|mid: ContextView, out: OutcomeView| #[trigger] stepped_with(pre, post, r, mid, out)
    }
}

/// Whether `n` steps, each running an instruction that asks nothing of the
/// host, may take the machine from `pre` to `post`.
pub open spec fn reaches(pre: VMView, post: VMView, n: nat) -> bool
    decreases n,
{
    if n == 0 {
        post == pre
    } else {
        exists|mid: VMView|
            reaches(pre, mid, (n - 1) as nat) && #[trigger] stepped(
                mid,
                post,
                Ok(StepView::Done),
            )
    }
}

/// Why a run stopped.
#[derive(Debug, Clone, PartialEq, Eq)]
pub enum Pause {
    /// The program has ended.
    Halted,
    /// An instruction asks this of the host; the run can go on after.
    Ask(Request),
    /// The steps allowed are used up; the run can go on.
    OutOfSteps,
}

/// Why a run stopped, as mathematics.
pub enum PauseView {
    Halted,
    Ask(RequestView),
    OutOfSteps,
}

impl View for Pause {
    type V = PauseView;

    open spec fn view(&self) -> PauseView {
        match self {
            Pause::Halted => PauseView::Halted,
            Pause::Ask(q) => PauseView::Ask(q@),
            Pause::OutOfSteps => PauseView::OutOfSteps,
        }
    }
}

/// The view of the result of a run.
pub open spec fn pause_view(r: Result<Pause, RuntimeError>) -> Result<PauseView, RuntimeError> {
    match r {
        Ok(p) => Ok(p@),
        Err(e) => Err(e),
    }
}

/// How a run ends that has reached `mid` with steps to spare: with the
/// one step that does not simply run an instruction.
pub open spec fn stopped(
    mid: VMView,
    post: VMView,
    r: Result<PauseView, RuntimeError>,
    s: Result<StepView, RuntimeError>,
) -> bool {
    stepped(mid, post, s) && match s {
        Ok(StepView::Done) => false,
        Ok(StepView::Halted) => r == Ok::<PauseView, RuntimeError>(PauseView::Halted),
        Ok(StepView::Ask(q)) => r == Ok::<PauseView, RuntimeError>(PauseView::Ask(q)),
        Err(e) => r == Err::<PauseView, RuntimeError>(e),
    }
}

/// A run that goes through `n` plain steps to `mid` and then stops at
/// `post`: because the steps allowed are used up, or with a step that
/// halts, asks or fails.
pub open spec fn ran_through(
    pre: VMView,
    post: VMView,
    maxsteps: usize,
    r: Result<PauseView, RuntimeError>,
    n: nat,
    mid: VMView,
    s: Result<StepView, RuntimeError>,
) -> bool {
    n <= maxsteps && reaches(pre, mid, n) && if r == Ok::<PauseView, RuntimeError>(
        PauseView::OutOfSteps,
    ) {
        n == maxsteps && post == mid
    } else {
        n < maxsteps && stopped(mid, post, r, s)
    }
}

/// Whether a run of at most `maxsteps` steps may take the machine from
/// `pre` to `post` and end with `r`.
pub open spec fn ran(
    pre: VMView,
    post: VMView,
    maxsteps: usize,
    r: Result<PauseView, RuntimeError>,
) -> bool {
    exists|n: nat, mid: VMView, s: Result<StepView, RuntimeError>| #[trigger]
        ran_through(pre, post, maxsteps, r, n, mid, s)
}

impl VM {
    /// The state of the machine is sound.
    pub closed spec fn wf(&self) -> bool {
        self.ctxt.wf()
    }

    /// A machine with no program, in the initial state.
    pub fn new() -> (vm: VM)
        ensures
            vm.wf(),
            vm@ == (VMView { ctxt: ContextView::initial(), ops: Seq::empty() }),
    {
        let vm = VM { ctxt: Context::new(), ops: Vec::new() };
        assert(vm@.ops =~= Seq::<OpView>::empty());
        vm
    }

    /// The state of the machine.
    pub fn ctxt(&self) -> (c: &Context)
        requires
            self.wf(),
        ensures
            c.wf(),
            c@ == self@.ctxt,
    {
        &self.ctxt
    }

    /// The number of instructions of the program.
    pub fn len(&self) -> (n: usize)
        ensures
            n == self@.ops.len(),
    {
        self.ops.len()
    }

    /// Enters a fuzz chain under a name, for `fcget` to draw from. A chain
    /// with a fuzzer that cannot produce anything is refused.
    pub fn add_chain(&mut self, name: &str, chain: FuzzChainImmuts) -> (added: bool)
        requires
            old(self).wf(),
        ensures
            final(self).wf(),
            added == all_usable(chain@),
            final(self)@.ops == old(self)@.ops,
            final(self)@.ctxt == if added {
                ContextView {
                    chains: old(self)@.ctxt.chains.insert(name@, chain@),
                    ..old(self)@.ctxt
                }
            } else {
                old(self)@.ctxt
            },
    {
        self.ctxt.add_chain(name, chain)
    }

    /// Takes in what the host read for the buffer `buf`: the first
    /// `readsize` bytes of `data`, with zeros after them where `data` is
    /// shorter.
    pub fn read_done(&mut self, buf: &str, data: Vec<u8>, readsize: usize)
        requires
            old(self).wf(),
        ensures
            final(self).wf(),
            final(self)@.ops == old(self)@.ops,
            final(self)@.ctxt == old(self)@.ctxt.with_buf(buf@, resized(data@, readsize)),
    {
        self.ctxt.read_done(buf, data, readsize);
    }

    /// Carries out a directive given as characters.
    fn directive_chars(&mut self, line: &Vec<char>) -> (r: Result<(), CompileError>)
        requires
            old(self).wf(),
        ensures
            final(self).wf(),
            final(self)@.ops == old(self)@.ops,
            match r {
                Ok(_) => directive(line@, old(self)@.ops.len() as usize, old(self)@.ctxt) == Ok::<
                    ContextView,
                    CompileError,
                >(final(self)@.ctxt),
                Err(e) => final(self)@ == old(self)@ && directive(
                    line@,
                    old(self)@.ops.len() as usize,
                    old(self)@.ctxt,
                ) == Err::<ContextView, CompileError>(e),
            },
    {
        let at = self.ops.len();
        let (sdir, sargs) = match split_first(line, ' ') {
            None => {
                return Err(CompileError::MissingArgs);
            },
            Some(p) => p,
        };
        if spells(&sdir, "!label") {
            self.ctxt.add_label(string_of(&sargs), at);
            Ok(())
        } else if spells(&sdir, "!func") {
            let parts = crate::text::split_words(&sargs);
            if parts.len() == 0 {
                return Err(CompileError::MissingArgs);
            }
            assert(views(parts@)[0] == parts@[0]@);
            self.ctxt.add_func(string_of(&parts[0]), at, strings_of(&parts, 1));
            Ok(())
        } else {
            Err(CompileError::UnknownDirective)
        }
    }

    /// Carries out a directive: a line that starts with `!`.
    pub fn compile_directive(&mut self, sdirplus: &str) -> (r: Result<(), CompileError>)
        requires
            old(self).wf(),
        ensures
            final(self).wf(),
            final(self)@.ops == old(self)@.ops,
            match r {
                Ok(_) => directive(sdirplus@, old(self)@.ops.len() as usize, old(self)@.ctxt)
                    == Ok::<ContextView, CompileError>(final(self)@.ctxt),
                Err(e) => final(self)@ == old(self)@ && directive(
                    sdirplus@,
                    old(self)@.ops.len() as usize,
                    old(self)@.ctxt,
                ) == Err::<ContextView, CompileError>(e),
            },
    {
        let line = chars_of(sdirplus);
        self.directive_chars(&line)
    }

    /// Compiles one line.
    fn compile_line(&mut self, line: &Vec<char>) -> (r: Result<(), CompileError>)
        requires
            old(self).wf(),
        ensures
            final(self).wf(),
            match r {
                Ok(_) => assemble_line(old(self)@, line@) == Ok::<VMView, CompileError>(
                    final(self)@,
                ),
                Err(e) => final(self)@ == old(self)@ && assemble_line(old(self)@, line@) == Err::<
                    VMView,
                    CompileError,
                >(e),
            },
    {
        let t = trim(line);
        if t.len() == 0 || t[0] == '#' {
            return Ok(());
        }
        if t[0] == '!' {
            return self.directive_chars(&t);
        }
        let s = string_of(&t);
        match Op::compile(s.as_str()) {
            Ok(op) => {
                let ghost before = self.ops.deep_view();
                self.ops.push(op);
                assert(self.ops.deep_view() =~= before.push(op@));
                Ok(())
            },
            Err(e) => Err(e),
        }
    }

    /// Compiles lines of source text, in order, onto the end of the
    /// program. It stops at the first line that fails; what the lines
    /// before it compiled to stays.
    pub fn compile(&mut self, ops: Vec<String>) -> (r: Result<(), CompileError>)
        requires
            old(self).wf(),
        ensures
            final(self).wf(),
            final(self)@ == assemble(old(self)@, ops.deep_view()).0,
            r == verdict(assemble(old(self)@, ops.deep_view()).1),
    {
        let mut i: usize = 0;
        let ghost lines = ops.deep_view();
        assert(lines.take(0) =~= Seq::<Seq<char>>::empty());
        while i < ops.len()
            invariant
                i <= ops.len(),
                self.wf(),
                lines == ops.deep_view(),
                assemble(old(self)@, lines.take(i as int)) == (self@, None::<CompileError>),
            decreases ops.len() - i,
        {
            proof {
                assert(lines.take(i + 1).drop_last() =~= lines.take(i as int));
                assert(lines.take(i + 1).last() == ops[i as int]@);
            }
            let line = chars_of(ops[i].as_str());
            match self.compile_line(&line) {
                Ok(_) => {},
                Err(e) => {
                    proof {
                        lemma_assemble_fail(old(self)@, lines, i + 1);
                    }
                    return Err(e);
                },
            }
            i += 1;
        }
        assert(lines.take(ops.len() as int) =~= lines);
        Ok(())
    }

    /// Compiles a program text: it is cut into lines, the white space of
    /// each line is normalised, and the lines are compiled.
    pub fn load_prg(&mut self, prgdata: &str) -> (r: Result<(), CompileError>)
        requires
            old(self).wf(),
        ensures
            final(self).wf(),
            final(self)@ == assemble(old(self)@, program_lines(prgdata@)).0,
            r == verdict(assemble(old(self)@, program_lines(prgdata@)).1),
    {
        let text = chars_of(prgdata);
        let raw = split_every(&text, '\n');
        let mut ops: Vec<String> = Vec::new();
        let mut i: usize = 0;
        while i < raw.len()
            invariant
                i <= raw.len(),
                ops.len() == i,
                forall|j: int| 0 <= j < i ==> ops[j]@ == normalized(raw[j]@),
            decreases raw.len() - i,
        {
            let l = string_of(&raw[i]);
            ops.push(remove_extra_whitespaces(l.as_str()));
            i += 1;
        }
        assert(ops.deep_view() =~= program_lines(prgdata@)) by {
            assert(views(raw@) == split_all(prgdata@, '\n'));
            assert forall|j: int| 0 <= j < ops.len() implies ops.deep_view()[j] == program_lines(
                prgdata@,
            )[j] by {
                assert(views(raw@)[j] == raw[j]@);
            }
        }
        self.compile(ops)
    }

    /// Compiles the program that drives the fuzz chain `fc` against a
    /// bridge at `ioaddr`, `loopcnt` times over.
    pub fn predefined_prg(
        &mut self,
        fc: &str,
        loopcnt: usize,
        ioaddr: &str,
        ioargs: &Vec<(String, String)>,
    ) -> (r: Result<(), CompileError>)
        requires
            old(self).wf(),
        ensures
            final(self).wf(),
            final(self)@ == assemble(
                old(self)@,
                predefined_lines(fc@, loopcnt, ioaddr@, ioargs.deep_view()),
            ).0,
            r == verdict(
                assemble(
                    old(self)@,
                    predefined_lines(fc@, loopcnt, ioaddr@, ioargs.deep_view()),
                ).1,
            ),
    {
        let mut sioargs = String::new();
        let mut i: usize = 0;
        let ghost args = ioargs.deep_view();
        assert(args.take(0) =~= Seq::<(Seq<char>, Seq<char>)>::empty());
        while i < ioargs.len()
            invariant
                i <= ioargs.len(),
                args == ioargs.deep_view(),
                sioargs@ == options_text(args.take(i as int)),
            decreases ioargs.len() - i,
        {
            proof {
                assert(args.take(i + 1).drop_last() =~= args.take(i as int));
                assert(args.take(i + 1).last() == ioargs[i as int].deep_view());
            }
            sioargs.append(ioargs[i].0.as_str());
            sioargs.append("=");
            sioargs.append(ioargs[i].1.as_str());
            sioargs.append(" ");
            i += 1;
        }
        assert(args.take(ioargs.len() as int) =~= args);
        let mut open = "iobnew srvX ".to_owned();
        open.append(ioaddr);
        open.append(" ");
        open.append(sioargs.as_str());
        let mut draw = "fcget ".to_owned();
        draw.append(fc);
        draw.append(" fuzzgot");
        let mut again = "iflt.i loopcnt ".to_owned();
        again.append(decimal_of_u128(loopcnt as u128).as_str());
        again.append(" goto freshstart");
        let mut runcmds: Vec<String> = Vec::new();
        runcmds.push("letint loopcnt 0".to_owned());
        runcmds.push("!label freshstart".to_owned());
        runcmds.push(open);
        runcmds.push(draw);
        runcmds.push("iobwrite srvX fuzzgot".to_owned());
        runcmds.push("iobflush srvX".to_owned());
        runcmds.push("inc loopcnt".to_owned());
        runcmds.push(again);
        assert(runcmds.deep_view() =~= predefined_lines(
            fc@,
            loopcnt,
            ioaddr@,
            ioargs.deep_view(),
        ));
        self.compile(runcmds)
    }

    /// Runs one step: the current instruction, if the program has not
    /// ended.
    pub fn step(&mut self) -> (r: Result<Step, RuntimeError>)
        requires
            old(self).wf(),
        ensures
            final(self).wf(),
            stepped(old(self)@, final(self)@, step_view(r)),
    {
        let at = self.ctxt.iptr();
        if at >= self.ops.len() {
            return Ok(Step::Halted);
        }
        self.ctxt.begin_step();
        let ghost begun = self.ctxt@;
        assert(self.ops.deep_view()[at as int] == self.ops[at as int]@);
        let out = self.ops[at].run(&mut self.ctxt);
        let ghost mid = self.ctxt@;
        let r = match out {
            Err(e) => Err(e),
            Ok(None) => {
                self.ctxt.end_step();
                Ok(Step::Done)
            },
            Ok(Some(q)) => {
                self.ctxt.end_step();
                Ok(Step::Ask(q))
            },
        };
        assert(stepped_with(old(self)@, self@, step_view(r), mid, outcome_view(out)));
        r
    }

    /// Runs the program for at most `maxsteps` steps. The run stops early
    /// when the program ends, when an instruction asks something of the
    /// host, and when an instruction fails.
    pub fn run(&mut self, maxsteps: usize) -> (r: Result<Pause, RuntimeError>)
        requires
            old(self).wf(),
        ensures
            final(self).wf(),
            ran(old(self)@, final(self)@, maxsteps, pause_view(r)),
    {
        let mut n: usize = 0;
        while n < maxsteps
            invariant
                n <= maxsteps,
                self.wf(),
                reaches(old(self)@, self@, n as nat),
            decreases maxsteps - n,
        {
            let ghost mid = self@;
            let s = self.step();
            let ghost sv = step_view(s);
            match s {
                Ok(Step::Done) => {
                    assert(reaches(old(self)@, self@, (n + 1) as nat));
                },
                Ok(Step::Halted) => {
                    let r = Ok(Pause::Halted);
                    assert(ran_through(
                        old(self)@,
                        self@,
                        maxsteps,
                        pause_view(r),
                        n as nat,
                        mid,
                        sv,
                    ));
                    return r;
                },
                Ok(Step::Ask(q)) => {
                    let r = Ok(Pause::Ask(q));
                    assert(ran_through(
                        old(self)@,
                        self@,
                        maxsteps,
                        pause_view(r),
                        n as nat,
                        mid,
                        sv,
                    ));
                    return r;
                },
                Err(e) => {
                    let r = Err(e);
                    assert(ran_through(
                        old(self)@,
                        self@,
                        maxsteps,
                        pause_view(r),
                        n as nat,
                        mid,
                        sv,
                    ));
                    return r;
                },
            }
            n += 1;
        }
        let r = Ok(Pause::OutOfSteps);
        assert(ran_through(
            old(self)@,
            self@,
            maxsteps,
            pause_view(r),
            n as nat,
            self@,
            Ok(StepView::Done),
        ));
        r
    }
}

/// Compiling a program in two pieces, one after the other, gives what
/// compiling it in one piece gives, where the first piece compiles.
pub proof fn lemma_assemble_in_pieces(vm: VMView, first: Seq<Seq<char>>, second: Seq<Seq<char>>)
    requires
        assemble(vm, first).1 is None,
    ensures
        assemble(vm, first + second) == assemble(assemble(vm, first).0, second),
    decreases second.len(),
{
    if second.len() == 0 {
        assert(first + second =~= first);
    } else {
        lemma_assemble_in_pieces(vm, first, second.drop_last());
        assert((first + second).drop_last() =~= first + second.drop_last());
    }
}

/// A line that is blank or starts with `#` compiles to nothing, whatever
/// white space surrounds it.
pub proof fn lemma_comments_compile_to_nothing(vm: VMView, line: Seq<char>)
    requires
        trimmed(line).len() == 0 || trimmed(line)[0] == '#',
    ensures
        assemble_line(vm, line) == Ok::<VMView, CompileError>(vm),
{
}

/// Whatever a directive binds, it binds to the index that it is given:
/// the number of instructions compiled before it, which is the index of
/// the instruction that follows. Nothing else changes.
pub proof fn lemma_directive_binds_here(line: Seq<char>, at: usize, cv: ContextView)
    requires
        directive(line, at, cv) is Ok,
    ensures
        ({
            let after = directive(line, at, cv)->Ok_0;
            &&& forall|l: Seq<char>| #[trigger]
                after.lbls.contains_key(l) ==> after.lbls[l] == at || (cv.lbls.contains_key(l)
                    && after.lbls[l] == cv.lbls[l])
            &&& forall|f: Seq<char>| #[trigger]
                after.funcs.contains_key(f) ==> after.funcs[f].0 == at || (cv.funcs.contains_key(
                    f,
                ) && after.funcs[f] == cv.funcs[f])
            &&& after == ContextView { lbls: after.lbls, funcs: after.funcs, ..cv }
        }),
{
}

/// A step that fails changes nothing but to mark the pointer as due to
/// move on: the program, the variables, the stacks and the pointer itself
/// are as they were.
pub proof fn lemma_failed_step_keeps_state(pre: VMView, post: VMView, e: RuntimeError)
    requires
        stepped(pre, post, Err(e)),
    ensures
        post.ops == pre.ops,
        post.ctxt == pre.ctxt.begun(),
{
    let (mid, out) = choose|mid: ContextView, out: OutcomeView| #[trigger]
        stepped_with(pre, post, Err(e), mid, out);
    crate::vm::laws::lemma_error_changes_nothing(
        pre.ops[pre.ctxt.iptr as int],
        pre.ctxt.begun(),
        mid,
        out,
    );
}

/// A machine that has halted stays halted: a step past the end of the
/// program does nothing.
pub proof fn lemma_halted_stays(pre: VMView, post: VMView, r: Result<StepView, RuntimeError>)
    requires
        stepped(pre, post, r),
        pre.ctxt.iptr >= pre.ops.len(),
    ensures
        post == pre,
        r == Ok::<StepView, RuntimeError>(StepView::Halted),
{
}

/// Running never changes the program.
pub proof fn lemma_run_keeps_program(pre: VMView, post: VMView, n: nat)
    requires
        reaches(pre, post, n),
    ensures
        post.ops == pre.ops,
    decreases n,
{
    if n > 0 {
        let mid = choose|mid: VMView|
            reaches(pre, mid, (n - 1) as nat) && #[trigger] stepped(
                mid,
                post,
                Ok(StepView::Done),
            );
        lemma_run_keeps_program(pre, mid, (n - 1) as nat);
        if mid.ctxt.iptr < mid.ops.len() {
            let (c, out) = choose|c: ContextView, out: OutcomeView| #[trigger]
                stepped_with(mid, post, Ok(StepView::Done), c, out);
        }
    }
}

/// Once a line fails, the assembly stops: the lines after it change
/// nothing.
proof fn lemma_assemble_fail(vm: VMView, lines: Seq<Seq<char>>, k: int)
    requires
        0 <= k <= lines.len(),
        assemble(vm, lines.take(k)).1 is Some,
    ensures
        assemble(vm, lines) == assemble(vm, lines.take(k)),
    decreases lines.len() - k,
{
    if k < lines.len() {
        assert(lines.take(k + 1).drop_last() =~= lines.take(k));
        lemma_assemble_fail(vm, lines, k + 1);
    } else {
        assert(lines.take(k) =~= lines);
    }
}

} // verus!
