//! The interpreter: what each instruction does to the state.
//!
//! An instruction that needs the outside world (a bridge, a pause) does
//! not act itself: it hands back a request that says what is to be done,
//! for the host to carry out before the next instruction runs.

use vstd::prelude::*;
use crate::entropy::{gen_u16, gen_usize, random_usize};
use crate::fuzzers::chain_may_emit;
use crate::vm::context::{Context, ContextView};
use crate::vm::datam::{
    yields_bytes, yields_int, yields_size, yields_text, DataM, DataMView,
};
use crate::vm::datas::{bytes_view, copy_bytes, text_as_bytes, text_view};
use crate::vm::error::RuntimeError;
use crate::vm::ops::{Branch, CondOp, Op, OpView, Render, ALUOP};
use crate::vm::table::NameTable;

verus! {

/// Work that an instruction asks of the host.
#[derive(Debug, Clone, PartialEq, Eq)]
pub enum Request {
    /// Open a bridge under `id` at `addr` with the options, in the order
    /// written. If `reopen` is set a bridge was open under `id`: it is to
    /// be closed first.
    IobNew { id: String, addr: String, args: Vec<(String, String)>, reopen: bool },
    /// Write `data` to the bridge `id`.
    IobWrite { id: String, data: Vec<u8> },
    /// Flush the bridge `id`.
    IobFlush { id: String },
    /// Read at most `len` bytes from the bridge `id` for the buffer `buf`,
    /// and report them with `Context::read_done`.
    IobRead { id: String, buf: String, len: usize },
    /// Close the bridge `id`.
    IobClose { id: String },
    /// Pause for `msec` milliseconds.
    Sleep { msec: usize },
}

/// What a `Request` holds, as mathematics.
pub enum RequestView {
    IobNew { id: Seq<char>, addr: Seq<char>, args: Seq<(Seq<char>, Seq<char>)>, reopen: bool },
    IobWrite { id: Seq<char>, data: Seq<u8> },
    IobFlush { id: Seq<char> },
    IobRead { id: Seq<char>, buf: Seq<char>, len: usize },
    IobClose { id: Seq<char> },
    Sleep { msec: usize },
}

impl DeepView for Request {
    type V = RequestView;

    open spec fn deep_view(&self) -> RequestView {
        match self {
            Request::IobNew { id, addr, args, reopen } => RequestView::IobNew {
                id: id@,
                addr: addr@,
                args: args.deep_view(),
                reopen: *reopen,
            },
            Request::IobWrite { id, data } => RequestView::IobWrite { id: id@, data: data@ },
            Request::IobFlush { id } => RequestView::IobFlush { id: id@ },
            Request::IobRead { id, buf, len } => RequestView::IobRead {
                id: id@,
                buf: buf@,
                len: *len,
            },
            Request::IobClose { id } => RequestView::IobClose { id: id@ },
            Request::Sleep { msec } => RequestView::Sleep { msec: *msec },
        }
    }
}

impl View for Request {
    type V = RequestView;

    open spec fn view(&self) -> RequestView {
        self.deep_view()
    }
}

/// How an instruction ends: with nothing more to do, with a request to the
/// host, or with an error.
pub type Outcome = Result<Option<Request>, RuntimeError>;

/// How an instruction ends, as mathematics.
pub type OutcomeView = Result<Option<RequestView>, RuntimeError>;

/// The view of an outcome.
pub open spec fn outcome_view(r: Outcome) -> OutcomeView {
    match r {
        Ok(Some(q)) => Ok(Some(q@)),
        Ok(None) => Ok(None),
        Err(e) => Err(e),
    }
}

/// The instruction went through and left the state `to`.
pub open spec fn went(post: ContextView, out: OutcomeView, to: ContextView) -> bool {
    post == to && out == Ok::<Option<RequestView>, RuntimeError>(None)
}

/// The instruction went through, left the state `to` and asks `q` of the
/// host.
pub open spec fn asked(post: ContextView, out: OutcomeView, to: ContextView, q: RequestView) -> bool {
    post == to && out == Ok::<Option<RequestView>, RuntimeError>(Some(q))
}

/// The instruction failed with `e` and left the state as it was.
pub open spec fn failed(pre: ContextView, post: ContextView, out: OutcomeView, e: RuntimeError) -> bool {
    post == pre && out == Err::<Option<RequestView>, RuntimeError>(e)
}

/// The label that stands for the next instruction.
pub open spec fn next_label() -> Seq<char> {
    "__NEXT__"@
}

/// The result of an arithmetic operation. Sum, difference and product wrap
/// round in two's complement. Quotient and remainder are those of
/// `checked_div` and `checked_rem`, which round toward zero; where these
/// overflow the quotient wraps to the least integer and the remainder is
/// zero. A zero divisor is an error.
pub open spec fn alu(op: ALUOP, x: isize, y: isize) -> Result<isize, RuntimeError> {
    match op {
        ALUOP::Add => Ok(x.wrapping_add(y)),
        ALUOP::Sub => Ok(x.wrapping_sub(y)),
        ALUOP::Mult => Ok(x.wrapping_mul(y)),
        ALUOP::Div => match x.checked_div(y) {
            Some(q) => Ok(q),
            None => if y == 0 {
                Err(RuntimeError::DivideByZero)
            } else {
                Ok(isize::MIN)
            },
        },
        ALUOP::Mod => match x.checked_rem(y) {
            Some(r) => Ok(r),
            None => if y == 0 {
                Err(RuntimeError::DivideByZero)
            } else {
                Ok(0)
            },
        },
    }
}

/// Computes an arithmetic operation.
pub fn alu_apply(op: ALUOP, x: isize, y: isize) -> (r: Result<isize, RuntimeError>)
    ensures
        r == alu(op, x, y),
{
    match op {
        ALUOP::Add => Ok(x.wrapping_add(y)),
        ALUOP::Sub => Ok(x.wrapping_sub(y)),
        ALUOP::Mult => Ok(x.wrapping_mul(y)),
        ALUOP::Div => match x.checked_div(y) {
            Some(q) => Ok(q),
            None => if y == 0 {
                Err(RuntimeError::DivideByZero)
            } else {
                Ok(isize::MIN)
            },
        },
        ALUOP::Mod => match x.checked_rem(y) {
            Some(r) => Ok(r),
            None => if y == 0 {
                Err(RuntimeError::DivideByZero)
            } else {
                Ok(0)
            },
        },
    }
}

/// Two readings in the order taken: the first error decides.
pub open spec fn both<T>(r1: Result<T, RuntimeError>, r2: Result<T, RuntimeError>) -> Result<
    (T, T),
    RuntimeError,
> {
    match r1 {
        Err(e) => Err(e),
        Ok(x) => match r2 {
            Err(e) => Err(e),
            Ok(y) => Ok((x, y)),
        },
    }
}

/// Two operands read as integers, `first` before `second`; the second is
/// read only if the first could be.
pub open spec fn ints_read(
    first: DataMView,
    second: DataMView,
    cv: ContextView,
    r1: Result<isize, RuntimeError>,
    r2: Result<isize, RuntimeError>,
) -> bool {
    yields_int(first, cv, r1) && (r1 is Ok ==> yields_int(second, cv, r2))
}

/// Two operands read as bytes, `first` before `second`; the second is read
/// only if the first could be.
pub open spec fn bytes_read(
    first: DataMView,
    second: DataMView,
    cv: ContextView,
    r1: Result<Seq<u8>, RuntimeError>,
    r2: Result<Seq<u8>, RuntimeError>,
) -> bool {
    yields_bytes(first, cv, r1) && (r1 is Ok ==> yields_bytes(second, cv, r2))
}

/// Whether the first of two integer readings is less than the second.
pub open spec fn first_less(r: Result<(isize, isize), RuntimeError>) -> Result<bool, RuntimeError> {
    match r {
        Err(e) => Err(e),
        Ok((p, q)) => Ok(p < q),
    }
}

/// Whether the second of two integer readings is less than the first plus
/// one. The sum is taken in the integers, where it cannot overflow.
pub open spec fn second_within(r: Result<(isize, isize), RuntimeError>) -> Result<
    bool,
    RuntimeError,
> {
    match r {
        Err(e) => Err(e),
        Ok((p, q)) => Ok(q < p + 1),
    }
}

/// Whether two byte readings are the same, byte for byte.
pub open spec fn same(r: Result<(Seq<u8>, Seq<u8>), RuntimeError>) -> Result<bool, RuntimeError> {
    match r {
        Err(e) => Err(e),
        Ok((p, q)) => Ok(p == q),
    }
}

/// Whether two byte readings differ.
pub open spec fn differ(r: Result<(Seq<u8>, Seq<u8>), RuntimeError>) -> Result<bool, RuntimeError> {
    match r {
        Err(e) => Err(e),
        Ok((p, q)) => Ok(p != q),
    }
}

/// Whether `c` may be the verdict of the condition on `a` and `b`.
///
/// "Less than" reads `a` and then `b`. "Greater than" is "less than" with
/// the operands exchanged, so it reads `b` first. "At most" reads `b` and
/// then `a` and holds when `a` is less than `b + 1`; "at least" reads `a`
/// and then `b` and holds when `b` is less than `a + 1`. The buffer
/// conditions read `a` and then `b` as bytes and compare them bytewise.
pub open spec fn cond_outcome(
    cop: CondOp,
    a: DataMView,
    b: DataMView,
    cv: ContextView,
    c: Result<bool, RuntimeError>,
) -> bool {
    match cop {
        CondOp::IfLtInt => exists|r1: Result<isize, RuntimeError>, r2: Result<isize, RuntimeError>|
            ints_read(a, b, cv, r1, r2) && c == first_less(#[trigger] both(r1, r2)),
        CondOp::IfGtInt => exists|r1: Result<isize, RuntimeError>, r2: Result<isize, RuntimeError>|
            ints_read(b, a, cv, r1, r2) && c == first_less(#[trigger] both(r1, r2)),
        CondOp::IfLeInt => exists|r1: Result<isize, RuntimeError>, r2: Result<isize, RuntimeError>|
            ints_read(b, a, cv, r1, r2) && c == second_within(#[trigger] both(r1, r2)),
        CondOp::IfGeInt => exists|r1: Result<isize, RuntimeError>, r2: Result<isize, RuntimeError>|
            ints_read(a, b, cv, r1, r2) && c == second_within(#[trigger] both(r1, r2)),
        CondOp::IfEqBuf => exists|
            r1: Result<Seq<u8>, RuntimeError>,
            r2: Result<Seq<u8>, RuntimeError>,
        |
            bytes_read(a, b, cv, r1, r2) && c == same(#[trigger] both(r1, r2)),
        CondOp::IfNeBuf => exists|
            r1: Result<Seq<u8>, RuntimeError>,
            r2: Result<Seq<u8>, RuntimeError>,
        |
            bytes_read(a, b, cv, r1, r2) && c == differ(#[trigger] both(r1, r2)),
    }
}

/// Reads two operands as integers, the second only if the first could be.
fn read_ints(first: &DataM, second: &DataM, ctxt: &Context) -> (r: Result<
    (isize, isize),
    RuntimeError,
>)
    requires
        ctxt.wf(),
    ensures
        exists|r1: Result<isize, RuntimeError>, r2: Result<isize, RuntimeError>|
            ints_read(first@, second@, ctxt@, r1, r2) && r == #[trigger] both(r1, r2),
{
    let r1 = first.get_isize(ctxt);
    match r1 {
        Err(e) => {
            assert(ints_read(first@, second@, ctxt@, r1, r1) && Err::<
                (isize, isize),
                RuntimeError,
            >(e) == both(r1, r1));
            Err(e)
        },
        Ok(x) => {
            let r2 = second.get_isize(ctxt);
            let r = match r2 {
                Err(e) => Err(e),
                Ok(y) => Ok((x, y)),
            };
            assert(ints_read(first@, second@, ctxt@, r1, r2) && r == both(r1, r2));
            r
        },
    }
}

/// The views of two byte readings.
pub open spec fn pair_view(r: Result<(Vec<u8>, Vec<u8>), RuntimeError>) -> Result<
    (Seq<u8>, Seq<u8>),
    RuntimeError,
> {
    match r {
        Ok((a, b)) => Ok((a@, b@)),
        Err(e) => Err(e),
    }
}

/// Reads two operands as bytes, the second only if the first could be.
fn read_bytes(first: &DataM, second: &DataM, ctxt: &Context) -> (r: Result<
    (Vec<u8>, Vec<u8>),
    RuntimeError,
>)
    requires
        ctxt.wf(),
    ensures
        exists|r1: Result<Seq<u8>, RuntimeError>, r2: Result<Seq<u8>, RuntimeError>|
            bytes_read(first@, second@, ctxt@, r1, r2) && pair_view(r) == #[trigger] both(r1, r2),
{
    let r1 = first.get_bufvu8(ctxt);
    match r1 {
        Err(e) => {
            let ghost v1 = Err::<Seq<u8>, RuntimeError>(e);
            assert(bytes_read(first@, second@, ctxt@, v1, v1) && Err::<
                (Seq<u8>, Seq<u8>),
                RuntimeError,
            >(e) == both(v1, v1));
            Err(e)
        },
        Ok(x) => {
            let ghost v1 = Ok::<Seq<u8>, RuntimeError>(x@);
            let r2 = second.get_bufvu8(ctxt);
            let ghost v2 = bytes_view(r2);
            let r = match r2 {
                Err(e) => Err(e),
                Ok(y) => Ok((x, y)),
            };
            assert(bytes_read(first@, second@, ctxt@, v1, v2) && pair_view(r) == both(v1, v2));
            r
        },
    }
}

/// Whether two buffers hold the same bytes.
pub fn same_bytes(a: &Vec<u8>, b: &Vec<u8>) -> (r: bool)
    ensures
        r == (a@ == b@),
{
    if a.len() != b.len() {
        return false;
    }
    let mut i: usize = 0;
    while i < a.len()
        invariant
            i <= a.len() == b.len(),
            forall|j: int| 0 <= j < i ==> a@[j] == b@[j],
        decreases a.len() - i,
    {
        if a[i] != b[i] {
            return false;
        }
        i += 1;
    }
    assert(a@ =~= b@);
    true
}

impl CondOp {
    /// Decides the condition on two operands in a state.
    pub fn check(&self, ctxt: &Context, val1: &DataM, val2: &DataM) -> (c: Result<
        bool,
        RuntimeError,
    >)
        requires
            ctxt.wf(),
        ensures
            cond_outcome(*self, val1@, val2@, ctxt@, c),
    {
        match self {
            CondOp::IfLtInt => match read_ints(val1, val2, ctxt) {
                Err(e) => Err(e),
                Ok((p, q)) => Ok(p < q),
            },
            CondOp::IfGtInt => match read_ints(val2, val1, ctxt) {
                Err(e) => Err(e),
                Ok((p, q)) => Ok(p < q),
            },
            CondOp::IfLeInt => match read_ints(val2, val1, ctxt) {
                Err(e) => Err(e),
                Ok((p, q)) => Ok(q <= p),
            },
            CondOp::IfGeInt => match read_ints(val1, val2, ctxt) {
                Err(e) => Err(e),
                Ok((p, q)) => Ok(q <= p),
            },
            CondOp::IfEqBuf => match read_bytes(val1, val2, ctxt) {
                Err(e) => Err(e),
                Ok((p, q)) => Ok(same_bytes(&p, &q)),
            },
            CondOp::IfNeBuf => match read_bytes(val1, val2, ctxt) {
                Err(e) => Err(e),
                Ok((p, q)) => Ok(!same_bytes(&p, &q)),
            },
        }
    }
}

/// What a jump to `label` does: nothing if the label is the one that stands
/// for the next instruction, else the pointer is set to where the label is
/// bound. A label that is not bound is an error.
pub open spec fn jump_effect(
    label: Seq<char>,
    pre: ContextView,
    post: ContextView,
    out: OutcomeView,
) -> bool {
    if label == next_label() {
        went(post, out, pre)
    } else if pre.lbls.contains_key(label) {
        went(post, out, pre.jumped(pre.lbls[label]))
    } else {
        failed(pre, post, out, RuntimeError::UnknownLabel)
    }
}

/// The frame of a call: each formal parameter stands for the variable that
/// the actual argument at its place stands for in the caller.
pub open spec fn frame_of(
    formals: Seq<Seq<char>>,
    actuals: Seq<Seq<char>>,
    cv: ContextView,
) -> Map<Seq<char>, Seq<char>>
    decreases formals.len(),
{
    if formals.len() == 0 || actuals.len() == 0 {
        Map::empty()
    } else {
        frame_of(formals.drop_last(), actuals.drop_last(), cv).insert(
            formals.last(),
            cv.resolved(actuals.last()),
        )
    }
}

/// What a call of `name` with `args` does: the current instruction is
/// pushed as the place to return to, the frame of the call becomes the
/// innermost one, and the pointer is set to the entry of the function. A
/// name that is no function, and a number of arguments other than that of
/// the formal parameters, are errors.
pub open spec fn call_effect(
    name: Seq<char>,
    args: Seq<Seq<char>>,
    pre: ContextView,
    post: ContextView,
    out: OutcomeView,
) -> bool {
    if !pre.funcs.contains_key(name) {
        failed(pre, post, out, RuntimeError::UnknownFunc)
    } else if pre.funcs[name].1.len() != args.len() {
        failed(pre, post, out, RuntimeError::Arity)
    } else {
        went(post, out, pre.entered(pre.funcs[name].0, frame_of(pre.funcs[name].1, args, pre)))
    }
}

/// What `ret` does.
pub open spec fn ret_effect(pre: ContextView, post: ContextView, out: OutcomeView) -> bool {
    if pre.callstack.len() == 0 {
        failed(pre, post, out, RuntimeError::EmptyCallStack)
    } else {
        went(post, out, pre.returned())
    }
}

/// What `inc` and `dec` do: the integer variable moves by `delta`, which
/// is 1 or -1, wrapping round at the ends of the range.
pub open spec fn bump_effect(
    vid: Seq<char>,
    delta: isize,
    pre: ContextView,
    post: ContextView,
    out: OutcomeView,
) -> bool {
    let k = pre.resolved(vid);
    if pre.ints.contains_key(k) {
        went(post, out, pre.with_int(k, pre.ints[k].wrapping_add(delta)))
    } else {
        failed(pre, post, out, RuntimeError::UnknownVar)
    }
}

/// What an assignment does once its source has been read.
pub open spec fn letint_with(
    vid: Seq<char>,
    pre: ContextView,
    post: ContextView,
    out: OutcomeView,
    r: Result<isize, RuntimeError>,
) -> bool {
    match r {
        Ok(i) => went(post, out, pre.with_int(pre.resolved(vid), i)),
        Err(e) => failed(pre, post, out, e),
    }
}

/// What a text assignment does once its source has been read.
pub open spec fn letstr_with(
    vid: Seq<char>,
    pre: ContextView,
    post: ContextView,
    out: OutcomeView,
    r: Result<Seq<char>, RuntimeError>,
) -> bool {
    match r {
        Ok(s) => went(post, out, pre.with_str(pre.resolved(vid), s)),
        Err(e) => failed(pre, post, out, e),
    }
}

/// What a buffer assignment does once its source has been read.
pub open spec fn letbuf_with(
    vid: Seq<char>,
    pre: ContextView,
    post: ContextView,
    out: OutcomeView,
    r: Result<Seq<u8>, RuntimeError>,
) -> bool {
    match r {
        Ok(b) => went(post, out, pre.with_buf(pre.resolved(vid), b)),
        Err(e) => failed(pre, post, out, e),
    }
}

/// The UTF-8 bytes of a text reading.
pub open spec fn utf8_of(r: Result<Seq<char>, RuntimeError>) -> Result<Seq<u8>, RuntimeError> {
    match r {
        Ok(s) => Ok(vstd::utf8::encode_utf8(s)),
        Err(e) => Err(e),
    }
}

/// A buffer of `n` zero bytes.
pub open spec fn zeros(n: usize) -> Seq<u8> {
    Seq::new(n as nat, |i: int| 0u8)
}

/// The zero filled buffer of a size reading.
pub open spec fn zeros_of(r: Result<usize, RuntimeError>) -> Result<Seq<u8>, RuntimeError> {
    match r {
        Ok(n) => Ok(zeros(n)),
        Err(e) => Err(e),
    }
}

/// What an arithmetic instruction does once its operands have been read.
pub open spec fn alu_with(
    op: ALUOP,
    vid: Seq<char>,
    pre: ContextView,
    post: ContextView,
    out: OutcomeView,
    r: Result<(isize, isize), RuntimeError>,
) -> bool {
    match r {
        Err(e) => failed(pre, post, out, e),
        Ok((x, y)) => letint_with(vid, pre, post, out, alu(op, x, y)),
    }
}

/// What `checkjump` does once its operands have been read.
pub open spec fn three_way_with(
    lt: Seq<char>,
    eq: Seq<char>,
    gt: Seq<char>,
    pre: ContextView,
    post: ContextView,
    out: OutcomeView,
    r: Result<(isize, isize), RuntimeError>,
) -> bool {
    match r {
        Err(e) => failed(pre, post, out, e),
        Ok((x, y)) => jump_effect(
            if x < y {
                lt
            } else if x == y {
                eq
            } else {
                gt
            },
            pre,
            post,
            out,
        ),
    }
}

/// What a conditional does once its condition has been decided.
pub open spec fn if_with(
    kind: Branch,
    dest: Seq<char>,
    args: Seq<Seq<char>>,
    pre: ContextView,
    post: ContextView,
    out: OutcomeView,
    c: Result<bool, RuntimeError>,
) -> bool {
    match c {
        Err(e) => failed(pre, post, out, e),
        Ok(false) => went(post, out, pre),
        Ok(true) => match kind {
            Branch::Goto => jump_effect(dest, pre, post, out),
            Branch::Call => call_effect(dest, args, pre, post, out),
        },
    }
}

/// What `sleepmsec` does once its operand has been read.
pub open spec fn sleep_with(
    pre: ContextView,
    post: ContextView,
    out: OutcomeView,
    r: Result<usize, RuntimeError>,
) -> bool {
    match r {
        Ok(msec) => asked(post, out, pre, RequestView::Sleep { msec }),
        Err(e) => failed(pre, post, out, e),
    }
}

/// What `iobnew` does: the bridge is entered with its address and the host
/// is asked to open it, after closing the one that was open under the name.
pub open spec fn bridge_new_effect(
    id: Seq<char>,
    addr: Seq<char>,
    args: Seq<(Seq<char>, Seq<char>)>,
    pre: ContextView,
    post: ContextView,
    out: OutcomeView,
) -> bool {
    asked(
        post,
        out,
        ContextView { iobs: pre.iobs.insert(id, addr), ..pre },
        RequestView::IobNew { id, addr, args, reopen: pre.iobs.contains_key(id) },
    )
}

/// What `iobwrite` does: the host is asked to write the buffer.
pub open spec fn bridge_write_effect(
    id: Seq<char>,
    bufid: Seq<char>,
    pre: ContextView,
    post: ContextView,
    out: OutcomeView,
) -> bool {
    let k = pre.resolved(bufid);
    if !pre.bufs.contains_key(k) {
        failed(pre, post, out, RuntimeError::UnknownVar)
    } else if !pre.iobs.contains_key(id) {
        failed(pre, post, out, RuntimeError::UnknownBridge)
    } else {
        asked(post, out, pre, RequestView::IobWrite { id, data: pre.bufs[k] })
    }
}

/// What `iobread` does: the host is asked to read at most as many bytes as
/// the buffer holds.
pub open spec fn bridge_read_effect(
    id: Seq<char>,
    bufid: Seq<char>,
    pre: ContextView,
    post: ContextView,
    out: OutcomeView,
) -> bool {
    let k = pre.resolved(bufid);
    if !pre.bufs.contains_key(k) {
        failed(pre, post, out, RuntimeError::UnknownVar)
    } else if !pre.iobs.contains_key(id) {
        failed(pre, post, out, RuntimeError::UnknownBridge)
    } else {
        asked(
            post,
            out,
            pre,
            RequestView::IobRead { id, buf: k, len: pre.bufs[k].len() as usize },
        )
    }
}

/// What `iobflush` does.
pub open spec fn bridge_flush_effect(
    id: Seq<char>,
    pre: ContextView,
    post: ContextView,
    out: OutcomeView,
) -> bool {
    if !pre.iobs.contains_key(id) {
        failed(pre, post, out, RuntimeError::UnknownBridge)
    } else {
        asked(post, out, pre, RequestView::IobFlush { id })
    }
}

/// What `iobclose` does: the bridge is struck off and the host is asked to
/// close it.
pub open spec fn bridge_close_effect(
    id: Seq<char>,
    pre: ContextView,
    post: ContextView,
    out: OutcomeView,
) -> bool {
    if !pre.iobs.contains_key(id) {
        failed(pre, post, out, RuntimeError::UnknownBridge)
    } else {
        asked(
            post,
            out,
            ContextView { iobs: pre.iobs.remove(id), ..pre },
            RequestView::IobClose { id },
        )
    }
}

/// What `fcget` does once the chain has made its record: the record is
/// stored and the step counter moves on by one.
pub open spec fn fcget_with(
    fcid: Seq<char>,
    bufid: Seq<char>,
    pre: ContextView,
    post: ContextView,
    out: OutcomeView,
    record: Seq<u8>,
) -> bool {
    chain_may_emit(pre.chains[fcid], pre.stepu, record) && went(
        post,
        out,
        ContextView {
            stepu: (pre.stepu + 1) as usize,
            ..pre.with_buf(pre.resolved(bufid), record)
        },
    )
}

/// What `fcget` does: the chain makes the record for the current step.
pub open spec fn fcget_effect(
    fcid: Seq<char>,
    bufid: Seq<char>,
    pre: ContextView,
    post: ContextView,
    out: OutcomeView,
) -> bool {
    if !pre.chains.contains_key(fcid) {
        failed(pre, post, out, RuntimeError::UnknownChain)
    } else if pre.stepu == usize::MAX {
        failed(pre, post, out, RuntimeError::StepLimit)
    } else {
        exists|record: Seq<u8>| #[trigger] fcget_with(fcid, bufid, pre, post, out, record)
    }
}

/// The buffers named by `srcs`, one after the other.
pub open spec fn gathered(srcs: Seq<Seq<char>>, cv: ContextView) -> Result<Seq<u8>, RuntimeError>
    decreases srcs.len(),
{
    if srcs.len() == 0 {
        Ok(Seq::empty())
    } else {
        match gathered(srcs.drop_last(), cv) {
            Err(e) => Err(e),
            Ok(front) => {
                let k = cv.resolved(srcs.last());
                if cv.bufs.contains_key(k) {
                    Ok(front + cv.bufs[k])
                } else {
                    Err(RuntimeError::UnknownVar)
                }
            },
        }
    }
}

/// Whether `r` may be what rendering one source of `bufmerged` gives.
pub open spec fn piece(
    kind: Render,
    dm: DataMView,
    cv: ContextView,
    r: Result<Seq<u8>, RuntimeError>,
) -> bool {
    match kind {
        Render::Bytes => yields_bytes(dm, cv, r),
        Render::Text => exists|t: Result<Seq<char>, RuntimeError>|
            yields_text(dm, cv, t) && r == #[trigger] utf8_of(t),
    }
}

/// A rendering followed by one more piece; the piece counts only if the
/// rendering before it went through.
pub open spec fn appended(
    front: Result<Seq<u8>, RuntimeError>,
    last: Result<Seq<u8>, RuntimeError>,
) -> Result<Seq<u8>, RuntimeError> {
    match front {
        Err(e) => Err(e),
        Ok(a) => match last {
            Err(e) => Err(e),
            Ok(b) => Ok(a + b),
        },
    }
}

/// Whether `r` may be what rendering the sources of `bufmerged` gives: the
/// pieces in order, one after the other, up to the first that fails.
pub open spec fn rendered(
    kind: Render,
    dms: Seq<DataMView>,
    cv: ContextView,
    r: Result<Seq<u8>, RuntimeError>,
) -> bool
    decreases dms.len(),
{
    if dms.len() == 0 {
        r == Ok::<Seq<u8>, RuntimeError>(Seq::empty())
    } else {
        exists|front: Result<Seq<u8>, RuntimeError>, last: Result<Seq<u8>, RuntimeError>|
            r == #[trigger] appended(front, last) && rendered(kind, dms.drop_last(), cv, front)
                && (front is Ok ==> piece(kind, dms.last(), cv, last))
    }
}

/// The low eight bits of an integer.
pub open spec fn low_byte(x: isize) -> u8 {
    (x as int % 256) as u8
}

/// Whether `r` may come of `b` by `count` writes, each of a byte between
/// `lo` and `hi` at an offset between `first` and `last`.
pub open spec fn scribbled(
    b: Seq<u8>,
    count: nat,
    first: int,
    last: int,
    lo: u8,
    hi: u8,
    r: Seq<u8>,
) -> bool
    decreases count,
{
    if count == 0 {
        r == b
    } else {
        exists|mid: Seq<u8>, off: int, val: u8|
            scribbled(b, (count - 1) as nat, first, last, lo, hi, mid) && first <= off <= last && 0
                <= off < mid.len() && lo <= val <= hi && r == #[trigger] mid.update(off, val)
    }
}

/// The five integers that steer `buf8randomize`.
pub struct Steer {
    pub count: isize,
    pub start: isize,
    pub end: isize,
    pub lo: isize,
    pub hi: isize,
}

impl Steer {
    /// The first offset that may be written: a negative start means 0.
    pub open spec fn first(self) -> int {
        if self.start < 0 {
            0
        } else {
            self.start as int
        }
    }

    /// The last offset that may be written: a negative end means the last
    /// offset of the buffer.
    pub open spec fn last(self, len: nat) -> int {
        if self.end < 0 {
            len - 1
        } else {
            self.end as int
        }
    }

    /// Whether the integers describe a range of offsets and a range of
    /// values that writes can be drawn from. The offsets must lie in the
    /// buffer unless no write is asked for.
    pub open spec fn fits(self, len: nat) -> bool {
        &&& self.first() <= self.last(len)
        &&& low_byte(self.lo) <= low_byte(self.hi)
        &&& self.count < 0 ==> len > 0
        &&& self.count != 0 ==> self.last(len) < len
    }

    /// Whether `n` writes may be made: the count given, or if that is
    /// negative any number below the length of the buffer.
    pub open spec fn admits(self, len: nat, n: nat) -> bool {
        if self.count < 0 {
            n < len
        } else {
            n == self.count
        }
    }
}

/// Whether `r` may come of `b` by `n` writes that the integers allow.
pub open spec fn may_scribble(b: Seq<u8>, st: Steer, n: nat, r: Seq<u8>) -> bool {
    st.admits(b.len(), n) && scribbled(
        b,
        n,
        st.first(),
        st.last(b.len()),
        low_byte(st.lo),
        low_byte(st.hi),
        r,
    )
}

/// What `buf8randomize` does to the buffer `k` once its writes are drawn.
pub open spec fn randomize_drawn(
    k: Seq<char>,
    st: Steer,
    pre: ContextView,
    post: ContextView,
    out: OutcomeView,
    n: nat,
    r: Seq<u8>,
) -> bool {
    may_scribble(pre.bufs[k], st, n, r) && went(post, out, pre.with_buf(k, r))
}

/// What `buf8randomize` does once its operands have been read.
pub open spec fn randomize_with(
    k: Seq<char>,
    pre: ContextView,
    post: ContextView,
    out: OutcomeView,
    st: Result<Steer, RuntimeError>,
) -> bool {
    match st {
        Err(e) => failed(pre, post, out, e),
        Ok(st) => if !st.fits(pre.bufs[k].len()) {
            failed(pre, post, out, RuntimeError::BadRange)
        } else {
            exists|n: nat, r: Seq<u8>| #[trigger] randomize_drawn(k, st, pre, post, out, n, r)
        },
    }
}

/// Five readings in the order taken: the first error decides.
pub open spec fn steer_of(
    r1: Result<isize, RuntimeError>,
    r2: Result<isize, RuntimeError>,
    r3: Result<isize, RuntimeError>,
    r4: Result<isize, RuntimeError>,
    r5: Result<isize, RuntimeError>,
) -> Result<Steer, RuntimeError> {
    match both(r1, r2) {
        Err(e) => Err(e),
        Ok((count, start)) => match both(r3, r4) {
            Err(e) => Err(e),
            Ok((end, lo)) => match r5 {
                Err(e) => Err(e),
                Ok(hi) => Ok(Steer { count, start, end, lo, hi }),
            },
        },
    }
}

/// Five operands read as integers in order, each only if those before it
/// could be read.
pub open spec fn steer_read(
    ops: (DataMView, DataMView, DataMView, DataMView, DataMView),
    cv: ContextView,
    r1: Result<isize, RuntimeError>,
    r2: Result<isize, RuntimeError>,
    r3: Result<isize, RuntimeError>,
    r4: Result<isize, RuntimeError>,
    r5: Result<isize, RuntimeError>,
) -> bool {
    &&& yields_int(ops.0, cv, r1)
    &&& r1 is Ok ==> yields_int(ops.1, cv, r2)
    &&& r1 is Ok && r2 is Ok ==> yields_int(ops.2, cv, r3)
    &&& r1 is Ok && r2 is Ok && r3 is Ok ==> yields_int(ops.3, cv, r4)
    &&& r1 is Ok && r2 is Ok && r3 is Ok && r4 is Ok ==> yields_int(ops.4, cv, r5)
}

/// What `buf8randomize` does: the buffer must exist; then count, start,
/// end, lowest and highest value are read in this order.
pub open spec fn randomize_effect(
    bufid: Seq<char>,
    ops: (DataMView, DataMView, DataMView, DataMView, DataMView),
    pre: ContextView,
    post: ContextView,
    out: OutcomeView,
) -> bool {
    let k = pre.resolved(bufid);
    if !pre.bufs.contains_key(k) {
        failed(pre, post, out, RuntimeError::UnknownVar)
    } else {
        exists|
            r1: Result<isize, RuntimeError>,
            r2: Result<isize, RuntimeError>,
            r3: Result<isize, RuntimeError>,
            r4: Result<isize, RuntimeError>,
            r5: Result<isize, RuntimeError>,
        |
            steer_read(ops, pre, r1, r2, r3, r4, r5) && randomize_with(
                k,
                pre,
                post,
                out,
                #[trigger] steer_of(r1, r2, r3, r4, r5),
            )
    }
}

/// What `letstr` does: the operand is read as text and stored.
pub open spec fn letstr_effect(
    vid: Seq<char>,
    dm: DataMView,
    pre: ContextView,
    post: ContextView,
    out: OutcomeView,
) -> bool {
    exists|r: Result<Seq<char>, RuntimeError>|
        yields_text(dm, pre, r) && #[trigger] letstr_with(vid, pre, post, out, r)
}

/// What `letint` does: the operand is read as an integer and stored.
pub open spec fn letint_effect(
    vid: Seq<char>,
    dm: DataMView,
    pre: ContextView,
    post: ContextView,
    out: OutcomeView,
) -> bool {
    exists|r: Result<isize, RuntimeError>|
        yields_int(dm, pre, r) && #[trigger] letint_with(vid, pre, post, out, r)
}

/// What an arithmetic instruction does: the operands are read as integers
/// and the result is stored.
pub open spec fn alu_effect(
    aluop: ALUOP,
    vid: Seq<char>,
    a: DataMView,
    b: DataMView,
    pre: ContextView,
    post: ContextView,
    out: OutcomeView,
) -> bool {
    exists|r1: Result<isize, RuntimeError>, r2: Result<isize, RuntimeError>|
        ints_read(a, b, pre, r1, r2) && alu_with(
            aluop,
            vid,
            pre,
            post,
            out,
            #[trigger] both(r1, r2),
        )
}

/// What a conditional does: the condition is decided, and if it holds the
/// branch is taken.
pub open spec fn if_effect(
    cop: CondOp,
    a: DataMView,
    b: DataMView,
    kind: Branch,
    dest: Seq<char>,
    args: Seq<Seq<char>>,
    pre: ContextView,
    post: ContextView,
    out: OutcomeView,
) -> bool {
    exists|c: Result<bool, RuntimeError>|
        cond_outcome(cop, a, b, pre, c) && #[trigger] if_with(kind, dest, args, pre, post, out, c)
}

/// What `checkjump` does: the operands are read as integers and compared,
/// and the jump goes to the label for "less", "equal" or "greater".
pub open spec fn three_way_effect(
    a: DataMView,
    b: DataMView,
    lt: Seq<char>,
    eq: Seq<char>,
    gt: Seq<char>,
    pre: ContextView,
    post: ContextView,
    out: OutcomeView,
) -> bool {
    exists|r1: Result<isize, RuntimeError>, r2: Result<isize, RuntimeError>|
        ints_read(a, b, pre, r1, r2) && three_way_with(
            lt,
            eq,
            gt,
            pre,
            post,
            out,
            #[trigger] both(r1, r2),
        )
}

/// What `sleepmsec` does: the operand is read as a size and the host is
/// asked to pause.
pub open spec fn sleep_effect(
    dm: DataMView,
    pre: ContextView,
    post: ContextView,
    out: OutcomeView,
) -> bool {
    exists|r: Result<usize, RuntimeError>|
        yields_size(dm, pre, r) && #[trigger] sleep_with(pre, post, out, r)
}

/// What `bufnew` does: the operand is read as a size and a buffer of that
/// many zero bytes is stored.
pub open spec fn bufnew_effect(
    bufid: Seq<char>,
    dm: DataMView,
    pre: ContextView,
    post: ContextView,
    out: OutcomeView,
) -> bool {
    exists|r: Result<usize, RuntimeError>|
        yields_size(dm, pre, r) && letbuf_with(bufid, pre, post, out, #[trigger] zeros_of(r))
}

/// What `letbuf` does: the operand is read as bytes and stored.
pub open spec fn letbuf_effect(
    bufid: Seq<char>,
    dm: DataMView,
    pre: ContextView,
    post: ContextView,
    out: OutcomeView,
) -> bool {
    exists|r: Result<Seq<u8>, RuntimeError>|
        yields_bytes(dm, pre, r) && #[trigger] letbuf_with(bufid, pre, post, out, r)
}

/// What `letbuf.s` does: the operand is read as text and its UTF-8 bytes
/// are stored.
pub open spec fn letbufstr_effect(
    bufid: Seq<char>,
    dm: DataMView,
    pre: ContextView,
    post: ContextView,
    out: OutcomeView,
) -> bool {
    exists|r: Result<Seq<char>, RuntimeError>|
        yields_text(dm, pre, r) && letbuf_with(bufid, pre, post, out, #[trigger] utf8_of(r))
}

/// What `bufmerged` does: the sources are rendered one after the other and
/// the whole is stored.
pub open spec fn merged_effect(
    kind: Render,
    dest: Seq<char>,
    dms: Seq<DataMView>,
    pre: ContextView,
    post: ContextView,
    out: OutcomeView,
) -> bool {
    exists|r: Result<Seq<u8>, RuntimeError>|
        rendered(kind, dms, pre, r) && #[trigger] letbuf_with(dest, pre, post, out, r)
}

/// Whether running the instruction `op` in the state `pre` may leave the
/// state `post` and end with `out`.
///
/// Where an instruction reads nothing but literals and variables, exactly
/// one `post` and `out` qualify. Where it reads the clock or draws random
/// numbers, those qualify that some reading or drawing leads to.
pub open spec fn effect(op: OpView, pre: ContextView, post: ContextView, out: OutcomeView) -> bool {
    match op {
        OpView::Nop => went(post, out, pre),
        OpView::LetStr(vid, dm) => letstr_effect(vid, dm, pre, post, out),
        OpView::LetInt(vid, dm) => letint_effect(vid, dm, pre, post, out),
        OpView::Inc(vid) => bump_effect(vid, 1isize, pre, post, out),
        OpView::Dec(vid) => bump_effect(vid, -1isize, pre, post, out),
        OpView::Alu(aluop, vid, a, b) => alu_effect(aluop, vid, a, b, pre, post, out),
        OpView::IobNew(id, addr, args) => bridge_new_effect(id, addr, args, pre, post, out),
        OpView::IobWrite(id, bufid) => bridge_write_effect(id, bufid, pre, post, out),
        OpView::IobFlush(id) => bridge_flush_effect(id, pre, post, out),
        OpView::IobRead(id, bufid) => bridge_read_effect(id, bufid, pre, post, out),
        OpView::IobClose(id) => bridge_close_effect(id, pre, post, out),
        OpView::If(cop, a, b, kind, dest, args) => if_effect(
            cop,
            a,
            b,
            kind,
            dest,
            args,
            pre,
            post,
            out,
        ),
        OpView::CheckJump(a, b, lt, eq, gt) => three_way_effect(a, b, lt, eq, gt, pre, post, out),
        OpView::Jump(label) => jump_effect(label, pre, post, out),
        OpView::Call(name, args) => call_effect(name, args, pre, post, out),
        OpView::Ret => ret_effect(pre, post, out),
        OpView::SleepMSec(dm) => sleep_effect(dm, pre, post, out),
        OpView::FcGet(fcid, bufid) => fcget_effect(fcid, bufid, pre, post, out),
        OpView::BufNew(bufid, dm) => bufnew_effect(bufid, dm, pre, post, out),
        OpView::LetBuf(bufid, dm) => letbuf_effect(bufid, dm, pre, post, out),
        OpView::LetBufStr(bufid, dm) => letbufstr_effect(bufid, dm, pre, post, out),
        OpView::Buf8Randomize(bufid, n, s, e, lo, hi) => randomize_effect(
            bufid,
            (n, s, e, lo, hi),
            pre,
            post,
            out,
        ),
        OpView::BufsMerge(dest, srcs) => letbuf_with(dest, pre, post, out, gathered(srcs, pre)),
        OpView::BufMerged(kind, dest, dms) => merged_effect(kind, dest, dms, pre, post, out),
    }
}

/// Stores an integer reading in the variable `vid`.
fn store_int(vid: &String, r: Result<isize, RuntimeError>, ctxt: &mut Context) -> (out: Outcome)
    requires
        old(ctxt).wf(),
    ensures
        final(ctxt).wf(),
        letint_with(vid@, old(ctxt)@, final(ctxt)@, outcome_view(out), r),
{
    match r {
        Ok(i) => {
            let k = ctxt.resolve(vid);
            ctxt.varadd_int(k.as_str(), i);
            Ok(None)
        },
        Err(e) => Err(e),
    }
}

/// Stores a text reading in the variable `vid`.
fn store_text(vid: &String, r: Result<String, RuntimeError>, ctxt: &mut Context) -> (out: Outcome)
    requires
        old(ctxt).wf(),
    ensures
        final(ctxt).wf(),
        letstr_with(vid@, old(ctxt)@, final(ctxt)@, outcome_view(out), text_view(r)),
{
    match r {
        Ok(s) => {
            let k = ctxt.resolve(vid);
            ctxt.varadd_str(k.as_str(), s);
            Ok(None)
        },
        Err(e) => Err(e),
    }
}

/// Stores a bytes reading in the variable `vid`.
fn store_bytes(vid: &String, r: Result<Vec<u8>, RuntimeError>, ctxt: &mut Context) -> (out:
    Outcome)
    requires
        old(ctxt).wf(),
    ensures
        final(ctxt).wf(),
        letbuf_with(vid@, old(ctxt)@, final(ctxt)@, outcome_view(out), bytes_view(r)),
{
    match r {
        Ok(b) => {
            let k = ctxt.resolve(vid);
            ctxt.varadd_buf(k.as_str(), b);
            Ok(None)
        },
        Err(e) => Err(e),
    }
}

fn run_bump(vid: &String, delta: isize, ctxt: &mut Context) -> (out: Outcome)
    requires
        old(ctxt).wf(),
    ensures
        final(ctxt).wf(),
        bump_effect(vid@, delta, old(ctxt)@, final(ctxt)@, outcome_view(out)),
{
    let k = ctxt.resolve(vid);
    match ctxt.int_of(&k) {
        Some(v) => {
            ctxt.varadd_int(k.as_str(), v.wrapping_add(delta));
            Ok(None)
        },
        None => Err(RuntimeError::UnknownVar),
    }
}

fn run_jump(label: &String, ctxt: &mut Context) -> (out: Outcome)
    requires
        old(ctxt).wf(),
    ensures
        final(ctxt).wf(),
        jump_effect(label@, old(ctxt)@, final(ctxt)@, outcome_view(out)),
{
    let next = "__NEXT__".to_owned();
    if *label == next {
        return Ok(None);
    }
    match ctxt.label(label) {
        Some(at) => {
            ctxt.jump_to(at);
            Ok(None)
        },
        None => Err(RuntimeError::UnknownLabel),
    }
}

fn build_frame(formals: &Vec<String>, actuals: &Vec<String>, ctxt: &Context) -> (frame: NameTable<
    String,
>)
    requires
        ctxt.wf(),
        formals.len() == actuals.len(),
    ensures
        frame.wf(),
        frame@ == frame_of(formals.deep_view(), actuals.deep_view(), ctxt@),
{
    let mut frame: NameTable<String> = NameTable::new();
    let mut i: usize = 0;
    let ghost fs = formals.deep_view();
    let ghost acts = actuals.deep_view();
    assert(fs.take(0) =~= Seq::<Seq<char>>::empty());
    while i < formals.len()
        invariant
            i <= formals.len() == actuals.len(),
            ctxt.wf(),
            frame.wf(),
            fs == formals.deep_view(),
            acts == actuals.deep_view(),
            frame@ == frame_of(fs.take(i as int), acts.take(i as int), ctxt@),
        decreases formals.len() - i,
    {
        proof {
            assert(fs.take(i + 1).drop_last() =~= fs.take(i as int));
            assert(acts.take(i + 1).drop_last() =~= acts.take(i as int));
            assert(fs.take(i + 1).last() == formals[i as int]@);
            assert(acts.take(i + 1).last() == actuals[i as int]@);
        }
        let actual = ctxt.resolve(&actuals[i]);
        frame.insert(formals[i].clone(), actual);
        i += 1;
    }
    assert(fs.take(formals.len() as int) =~= fs);
    assert(acts.take(actuals.len() as int) =~= acts);
    frame
}

fn run_call(name: &String, args: &Vec<String>, ctxt: &mut Context) -> (out: Outcome)
    requires
        old(ctxt).wf(),
    ensures
        final(ctxt).wf(),
        call_effect(name@, args.deep_view(), old(ctxt)@, final(ctxt)@, outcome_view(out)),
{
    let (at, frame) = match ctxt.func(name) {
        None => {
            return Err(RuntimeError::UnknownFunc);
        },
        Some(f) => {
            if f.1.len() != args.len() {
                return Err(RuntimeError::Arity);
            }
            (f.0, build_frame(&f.1, args, ctxt))
        },
    };
    ctxt.enter(at, frame);
    Ok(None)
}

fn run_fcget(fcid: &String, bufid: &String, ctxt: &mut Context) -> (out: Outcome)
    requires
        old(ctxt).wf(),
    ensures
        final(ctxt).wf(),
        fcget_effect(fcid@, bufid@, old(ctxt)@, final(ctxt)@, outcome_view(out)),
{
    let step = ctxt.stepu();
    let record = match ctxt.chain(fcid) {
        None => {
            return Err(RuntimeError::UnknownChain);
        },
        Some(chain) => {
            if step == usize::MAX {
                return Err(RuntimeError::StepLimit);
            }
            chain.get(step)
        },
    };
    let ghost rec = record@;
    let k = ctxt.resolve(bufid);
    ctxt.varadd_buf(k.as_str(), record);
    ctxt.bump_step();
    let out = Ok(None);
    assert(fcget_with(fcid@, bufid@, old(ctxt)@, ctxt@, outcome_view(out), rec));
    out
}

fn run_bridge_write(id: &String, bufid: &String, ctxt: &mut Context) -> (out: Outcome)
    requires
        old(ctxt).wf(),
    ensures
        final(ctxt).wf(),
        bridge_write_effect(id@, bufid@, old(ctxt)@, final(ctxt)@, outcome_view(out)),
{
    let k = ctxt.resolve(bufid);
    let data = match ctxt.buf_of(&k) {
        Some(b) => copy_bytes(b),
        None => {
            return Err(RuntimeError::UnknownVar);
        },
    };
    if !ctxt.has_bridge(id) {
        return Err(RuntimeError::UnknownBridge);
    }
    Ok(Some(Request::IobWrite { id: id.clone(), data }))
}

fn run_bridge_read(id: &String, bufid: &String, ctxt: &mut Context) -> (out: Outcome)
    requires
        old(ctxt).wf(),
    ensures
        final(ctxt).wf(),
        bridge_read_effect(id@, bufid@, old(ctxt)@, final(ctxt)@, outcome_view(out)),
{
    let k = ctxt.resolve(bufid);
    let len = match ctxt.buf_of(&k) {
        Some(b) => b.len(),
        None => {
            return Err(RuntimeError::UnknownVar);
        },
    };
    if !ctxt.has_bridge(id) {
        return Err(RuntimeError::UnknownBridge);
    }
    Ok(Some(Request::IobRead { id: id.clone(), buf: k, len }))
}

fn copy_options(args: &Vec<(String, String)>) -> (r: Vec<(String, String)>)
    ensures
        r.deep_view() == args.deep_view(),
{
    let mut r: Vec<(String, String)> = Vec::new();
    let mut i: usize = 0;
    while i < args.len()
        invariant
            i <= args.len(),
            r.len() == i,
            forall|j: int| 0 <= j < i ==> r[j].deep_view() == args[j].deep_view(),
        decreases args.len() - i,
    {
        r.push((args[i].0.clone(), args[i].1.clone()));
        i += 1;
    }
    assert(r.deep_view() =~= args.deep_view());
    r
}

fn gather(srcs: &Vec<String>, ctxt: &Context) -> (r: Result<Vec<u8>, RuntimeError>)
    requires
        ctxt.wf(),
    ensures
        bytes_view(r) == gathered(srcs.deep_view(), ctxt@),
{
    let mut acc: Vec<u8> = Vec::new();
    let mut i: usize = 0;
    let ghost all = srcs.deep_view();
    assert(all.take(0) =~= Seq::<Seq<char>>::empty());
    assert(acc@ =~= Seq::<u8>::empty());
    while i < srcs.len()
        invariant
            i <= srcs.len(),
            ctxt.wf(),
            all == srcs.deep_view(),
            gathered(all.take(i as int), ctxt@) == Ok::<Seq<u8>, RuntimeError>(acc@),
        decreases srcs.len() - i,
    {
        proof {
            assert(all.take(i + 1).drop_last() =~= all.take(i as int));
            assert(all.take(i + 1).last() == srcs[i as int]@);
        }
        let k = ctxt.resolve(&srcs[i]);
        match ctxt.buf_of(&k) {
            None => {
                proof {
                    lemma_gathered_fail(all, i + 1, ctxt@);
                }
                return Err(RuntimeError::UnknownVar);
            },
            Some(b) => {
                let ghost before = acc@;
                let mut j: usize = 0;
                while j < b.len()
                    invariant
                        j <= b.len(),
                        acc@ == before + b@.take(j as int),
                    decreases b.len() - j,
                {
                    acc.push(b[j]);
                    j += 1;
                    assert(b@.take(j as int) =~= b@.take(j - 1).push(b@[j - 1]));
                }
                assert(b@.take(b.len() as int) =~= b@);
            },
        }
        i += 1;
    }
    assert(all.take(srcs.len() as int) =~= all);
    Ok(acc)
}

/// Once a source is missing, the gathering fails whatever follows.
proof fn lemma_gathered_fail(srcs: Seq<Seq<char>>, k: int, cv: ContextView)
    requires
        0 <= k <= srcs.len(),
        gathered(srcs.take(k), cv) is Err,
    ensures
        gathered(srcs, cv) == gathered(srcs.take(k), cv),
    decreases srcs.len() - k,
{
    if k < srcs.len() {
        assert(srcs.take(k + 1).drop_last() =~= srcs.take(k));
        lemma_gathered_fail(srcs, k + 1, cv);
    } else {
        assert(srcs.take(k) =~= srcs);
    }
}

/// Once a piece fails, the rendering fails whatever follows.
proof fn lemma_rendered_fail(
    kind: Render,
    dms: Seq<DataMView>,
    k: int,
    cv: ContextView,
    e: RuntimeError,
)
    requires
        0 <= k <= dms.len(),
        rendered(kind, dms.take(k), cv, Err(e)),
    ensures
        rendered(kind, dms, cv, Err(e)),
    decreases dms.len() - k,
{
    if k < dms.len() {
        let next = dms.take(k + 1);
        let front = Err::<Seq<u8>, RuntimeError>(e);
        assert(next.drop_last() =~= dms.take(k));
        assert(Err::<Seq<u8>, RuntimeError>(e) == appended(front, front));
        assert(rendered(kind, next, cv, Err(e)));
        lemma_rendered_fail(kind, dms, k + 1, cv, e);
    } else {
        assert(dms.take(k) =~= dms);
    }
}

fn render_piece(kind: Render, dm: &DataM, ctxt: &Context) -> (r: Result<Vec<u8>, RuntimeError>)
    requires
        ctxt.wf(),
    ensures
        piece(kind, dm@, ctxt@, bytes_view(r)),
{
    match kind {
        Render::Bytes => dm.get_bufvu8(ctxt),
        Render::Text => {
            let t = dm.get_string(ctxt);
            let r = match t {
                Ok(s) => Ok(text_as_bytes(s.as_str())),
                Err(e) => Err(e),
            };
            assert(yields_text(dm@, ctxt@, text_view(t)) && bytes_view(r) == utf8_of(
                text_view(t),
            ));
            r
        },
    }
}

fn render(kind: Render, dms: &Vec<DataM>, ctxt: &Context) -> (r: Result<Vec<u8>, RuntimeError>)
    requires
        ctxt.wf(),
    ensures
        rendered(kind, dms.deep_view(), ctxt@, bytes_view(r)),
{
    let mut acc: Vec<u8> = Vec::new();
    let mut i: usize = 0;
    let ghost all = dms.deep_view();
    assert(all.take(0) =~= Seq::<DataMView>::empty());
    assert(acc@ =~= Seq::<u8>::empty());
    while i < dms.len()
        invariant
            i <= dms.len(),
            ctxt.wf(),
            all == dms.deep_view(),
            rendered(kind, all.take(i as int), ctxt@, Ok(acc@)),
        decreases dms.len() - i,
    {
        let ghost next = all.take(i + 1);
        let ghost front = Ok::<Seq<u8>, RuntimeError>(acc@);
        proof {
            assert(next.drop_last() =~= all.take(i as int));
            assert(next.last() == dms[i as int]@);
        }
        let p = render_piece(kind, &dms[i], ctxt);
        match p {
            Err(e) => {
                proof {
                    assert(Err::<Seq<u8>, RuntimeError>(e) == appended(front, bytes_view(p)));
                    assert(rendered(kind, next, ctxt@, Err(e)));
                    lemma_rendered_fail(kind, all, i + 1, ctxt@, e);
                }
                return Err(e);
            },
            Ok(b) => {
                let ghost before = acc@;
                let mut j: usize = 0;
                while j < b.len()
                    invariant
                        j <= b.len(),
                        acc@ == before + b@.take(j as int),
                    decreases b.len() - j,
                {
                    acc.push(b[j]);
                    j += 1;
                    assert(b@.take(j as int) =~= b@.take(j - 1).push(b@[j - 1]));
                }
                proof {
                    assert(b@.take(b.len() as int) =~= b@);
                    assert(Ok::<Seq<u8>, RuntimeError>(acc@) == appended(front, bytes_view(p)));
                    assert(rendered(kind, next, ctxt@, Ok(acc@)));
                }
            },
        }
        i += 1;
    }
    assert(all.take(dms.len() as int) =~= all);
    Ok(acc)
}

/// A buffer of `n` zero bytes.
pub fn zero_buffer(n: usize) -> (b: Vec<u8>)
    ensures
        b@ == zeros(n),
{
    let mut b: Vec<u8> = Vec::new();
    let mut i: usize = 0;
    while i < n
        invariant
            i <= n,
            b.len() == i,
            forall|j: int| 0 <= j < i ==> b@[j] == 0,
        decreases n - i,
    {
        b.push(0);
        i += 1;
    }
    assert(b@ =~= zeros(n));
    b
}

/// The low eight bits of an integer.
pub fn low_byte_of(x: isize) -> (b: u8)
    ensures
        b == low_byte(x),
{
    if x >= 0 {
        ((x as usize) % 256) as u8
    } else {
        let m: usize = ((-(x + 1)) as usize) % 256;
        (255 - m) as u8
    }
}

fn read_steer(
    n: &DataM,
    s: &DataM,
    e: &DataM,
    lo: &DataM,
    hi: &DataM,
    ctxt: &Context,
) -> (r: Result<Steer, RuntimeError>)
    requires
        ctxt.wf(),
    ensures
        exists|
            r1: Result<isize, RuntimeError>,
            r2: Result<isize, RuntimeError>,
            r3: Result<isize, RuntimeError>,
            r4: Result<isize, RuntimeError>,
            r5: Result<isize, RuntimeError>,
        |
            steer_read((n@, s@, e@, lo@, hi@), ctxt@, r1, r2, r3, r4, r5) && r == #[trigger] steer_of(
                r1,
                r2,
                r3,
                r4,
                r5,
            ),
{
    let ghost ops = (n@, s@, e@, lo@, hi@);
    let r1 = n.get_isize(ctxt);
    let count = match r1 {
        Ok(v) => v,
        Err(x) => {
            assert(steer_read(ops, ctxt@, r1, r1, r1, r1, r1) && Err::<Steer, RuntimeError>(x)
                == steer_of(r1, r1, r1, r1, r1));
            return Err(x);
        },
    };
    let r2 = s.get_isize(ctxt);
    let start = match r2 {
        Ok(v) => v,
        Err(x) => {
            assert(steer_read(ops, ctxt@, r1, r2, r2, r2, r2) && Err::<Steer, RuntimeError>(x)
                == steer_of(r1, r2, r2, r2, r2));
            return Err(x);
        },
    };
    let r3 = e.get_isize(ctxt);
    let end = match r3 {
        Ok(v) => v,
        Err(x) => {
            assert(steer_read(ops, ctxt@, r1, r2, r3, r3, r3) && Err::<Steer, RuntimeError>(x)
                == steer_of(r1, r2, r3, r3, r3));
            return Err(x);
        },
    };
    let r4 = lo.get_isize(ctxt);
    let lov = match r4 {
        Ok(v) => v,
        Err(x) => {
            assert(steer_read(ops, ctxt@, r1, r2, r3, r4, r4) && Err::<Steer, RuntimeError>(x)
                == steer_of(r1, r2, r3, r4, r4));
            return Err(x);
        },
    };
    let r5 = hi.get_isize(ctxt);
    let r = match r5 {
        Ok(v) => Ok(Steer { count, start, end, lo: lov, hi: v }),
        Err(x) => Err(x),
    };
    assert(steer_read(ops, ctxt@, r1, r2, r3, r4, r5) && r == steer_of(r1, r2, r3, r4, r5));
    r
}

/// The number of writes that a draw stands for when any number below the
/// length of the buffer will do.
pub fn count_for(len: usize, draw: usize) -> (n: usize)
    requires
        len > 0,
    ensures
        n == draw % len,
        n < len,
{
    draw % len
}

/// The offset between `first` and `last` that a draw stands for.
pub fn offset_for(first: usize, last: usize, draw: usize) -> (off: usize)
    requires
        first <= last < usize::MAX,
    ensures
        off == first + draw % ((last - first + 1) as usize),
        first <= off <= last,
{
    first + draw % (last - first + 1)
}

/// The byte between `lo` and `hi` that a draw stands for.
pub fn value_for(lo: u8, hi: u8, draw: u16) -> (val: u8)
    requires
        lo <= hi,
    ensures
        val == lo + draw % ((hi - lo + 1) as u16),
        lo <= val <= hi,
{
    let values: u16 = (hi - lo) as u16 + 1;
    lo + (draw % values) as u8
}

/// Makes the writes of `buf8randomize` on a copy of the buffer.
fn scribble(b: &Vec<u8>, st: &Steer) -> (r: Option<Vec<u8>>)
    ensures
        r is None <==> !st.fits(b@.len()),
        r is Some ==> exists|n: nat| #[trigger] may_scribble(b@, *st, n, r->0@),
{
    let len = b.len();
    let lo = low_byte_of(st.lo);
    let hi = low_byte_of(st.hi);
    if st.count < 0 && len == 0 {
        return None;
    }
    let first: usize = if st.start < 0 {
        0
    } else {
        st.start as usize
    };
    let last: usize = if st.end < 0 {
        if len == 0 {
            return None;
        }
        len - 1
    } else {
        st.end as usize
    };
    if first > last || lo > hi {
        return None;
    }
    if st.count != 0 && last >= len {
        return None;
    }
    let count: usize = if st.count < 0 {
        count_for(len, random_usize())
    } else {
        st.count as usize
    };
    let mut buf = copy_bytes(b);
    assert(st.fits(b@.len()));
    if count == 0 {
        let r = Some(buf);
        assert(may_scribble(b@, *st, 0, r->0@));
        return r;
    }
    let mut i: usize = 0;
    while i < count
        invariant
            i <= count,
            buf.len() == len,
            first <= last < len,
            lo <= hi,
            first == st.first(),
            last == st.last(b@.len()),
            lo == low_byte(st.lo),
            hi == low_byte(st.hi),
            st.fits(b@.len()),
            scribbled(b@, i as nat, first as int, last as int, lo, hi, buf@),
        decreases count - i,
    {
        let off = offset_for(first, last, gen_usize());
        let val = value_for(lo, hi, gen_u16());
        let ghost mid = buf@;
        buf.set(off, val);
        assert(buf@ == mid.update(off as int, val));
        assert(scribbled(b@, (i + 1) as nat, first as int, last as int, lo, hi, buf@));
        i += 1;
    }
    let r = Some(buf);
    assert(may_scribble(b@, *st, count as nat, r->0@));
    r
}

fn run_randomize(
    bufid: &String,
    n: &DataM,
    s: &DataM,
    e: &DataM,
    lo: &DataM,
    hi: &DataM,
    ctxt: &mut Context,
) -> (out: Outcome)
    requires
        old(ctxt).wf(),
    ensures
        final(ctxt).wf(),
        randomize_effect(
            bufid@,
            (n@, s@, e@, lo@, hi@),
            old(ctxt)@,
            final(ctxt)@,
            outcome_view(out),
        ),
{
    let k = ctxt.resolve(bufid);
    if ctxt.buf_of(&k).is_none() {
        return Err(RuntimeError::UnknownVar);
    }
    let st = read_steer(n, s, e, lo, hi, ctxt);
    let ghost pre = ctxt@;
    let out = match st {
        Err(x) => Err(x),
        Ok(steer) => {
            let made = match ctxt.buf_of(&k) {
                Some(b) => scribble(b, &steer),
                None => None,
            };
            match made {
                None => Err(RuntimeError::BadRange),
                Some(v) => {
                    let ghost r = v@;
                    ctxt.varadd_buf(k.as_str(), v);
                    let out = Ok(None);
                    proof {
                        let m = choose|m: nat| #[trigger] may_scribble(pre.bufs[k@], steer, m, r);
                        assert(randomize_drawn(k@, steer, pre, ctxt@, outcome_view(out), m, r));
                    }
                    out
                },
            }
        },
    };
    assert(randomize_with(k@, pre, ctxt@, outcome_view(out), st));
    out
}

fn run_letstr(vid: &String, dm: &DataM, ctxt: &mut Context) -> (out: Outcome)
    requires
        old(ctxt).wf(),
    ensures
        final(ctxt).wf(),
        letstr_effect(vid@, dm@, old(ctxt)@, final(ctxt)@, outcome_view(out)),
{
    let r = dm.get_string(ctxt);
    let out = store_text(vid, r, ctxt);
    assert(yields_text(dm@, old(ctxt)@, text_view(r)) && letstr_with(
        vid@,
        old(ctxt)@,
        ctxt@,
        outcome_view(out),
        text_view(r),
    ));
    out
}

fn run_letint(vid: &String, dm: &DataM, ctxt: &mut Context) -> (out: Outcome)
    requires
        old(ctxt).wf(),
    ensures
        final(ctxt).wf(),
        letint_effect(vid@, dm@, old(ctxt)@, final(ctxt)@, outcome_view(out)),
{
    let r = dm.get_isize(ctxt);
    let out = store_int(vid, r, ctxt);
    assert(yields_int(dm@, old(ctxt)@, r) && letint_with(
        vid@,
        old(ctxt)@,
        ctxt@,
        outcome_view(out),
        r,
    ));
    out
}

fn run_alu(aluop: ALUOP, vid: &String, a: &DataM, b: &DataM, ctxt: &mut Context) -> (out: Outcome)
    requires
        old(ctxt).wf(),
    ensures
        final(ctxt).wf(),
        alu_effect(aluop, vid@, a@, b@, old(ctxt)@, final(ctxt)@, outcome_view(out)),
{
    let r = read_ints(a, b, ctxt);
    let out = match r {
        Err(e) => Err(e),
        Ok((x, y)) => store_int(vid, alu_apply(aluop, x, y), ctxt),
    };
    assert(alu_with(aluop, vid@, old(ctxt)@, ctxt@, outcome_view(out), r));
    out
}

fn run_bridge_new(id: &String, addr: &String, args: &Vec<(String, String)>, ctxt: &mut Context) -> (out:
    Outcome)
    requires
        old(ctxt).wf(),
    ensures
        final(ctxt).wf(),
        bridge_new_effect(
            id@,
            addr@,
            args.deep_view(),
            old(ctxt)@,
            final(ctxt)@,
            outcome_view(out),
        ),
{
    let reopen = ctxt.has_bridge(id);
    ctxt.open_bridge(id.clone(), addr.clone());
    Ok(
        Some(
            Request::IobNew {
                id: id.clone(),
                addr: addr.clone(),
                args: copy_options(args),
                reopen,
            },
        ),
    )
}

fn run_bridge_flush(id: &String, ctxt: &mut Context) -> (out: Outcome)
    requires
        old(ctxt).wf(),
    ensures
        final(ctxt).wf(),
        bridge_flush_effect(id@, old(ctxt)@, final(ctxt)@, outcome_view(out)),
{
    if !ctxt.has_bridge(id) {
        Err(RuntimeError::UnknownBridge)
    } else {
        Ok(Some(Request::IobFlush { id: id.clone() }))
    }
}

fn run_bridge_close(id: &String, ctxt: &mut Context) -> (out: Outcome)
    requires
        old(ctxt).wf(),
    ensures
        final(ctxt).wf(),
        bridge_close_effect(id@, old(ctxt)@, final(ctxt)@, outcome_view(out)),
{
    if !ctxt.has_bridge(id) {
        Err(RuntimeError::UnknownBridge)
    } else {
        ctxt.close_bridge(id);
        Ok(Some(Request::IobClose { id: id.clone() }))
    }
}

fn run_sleep(dm: &DataM, ctxt: &mut Context) -> (out: Outcome)
    requires
        old(ctxt).wf(),
    ensures
        final(ctxt).wf(),
        sleep_effect(dm@, old(ctxt)@, final(ctxt)@, outcome_view(out)),
{
    let r = dm.get_usize(ctxt);
    let out = match r {
        Ok(msec) => Ok(Some(Request::Sleep { msec })),
        Err(e) => Err(e),
    };
    assert(yields_size(dm@, old(ctxt)@, r) && sleep_with(
        old(ctxt)@,
        ctxt@,
        outcome_view(out),
        r,
    ));
    out
}

fn run_if(
    cop: CondOp,
    a: &DataM,
    b: &DataM,
    kind: Branch,
    dest: &String,
    args: &Vec<String>,
    ctxt: &mut Context,
) -> (out: Outcome)
    requires
        old(ctxt).wf(),
    ensures
        final(ctxt).wf(),
        if_effect(
            cop,
            a@,
            b@,
            kind,
            dest@,
            args.deep_view(),
            old(ctxt)@,
            final(ctxt)@,
            outcome_view(out),
        ),
{
    let c = cop.check(ctxt, a, b);
    let out = match c {
        Err(e) => Err(e),
        Ok(false) => Ok(None),
        Ok(true) => match kind {
            Branch::Goto => run_jump(dest, ctxt),
            Branch::Call => run_call(dest, args, ctxt),
        },
    };
    assert(cond_outcome(cop, a@, b@, old(ctxt)@, c) && if_with(
        kind,
        dest@,
        args.deep_view(),
        old(ctxt)@,
        ctxt@,
        outcome_view(out),
        c,
    ));
    out
}

fn run_three_way(
    a: &DataM,
    b: &DataM,
    lt: &String,
    eq: &String,
    gt: &String,
    ctxt: &mut Context,
) -> (out: Outcome)
    requires
        old(ctxt).wf(),
    ensures
        final(ctxt).wf(),
        three_way_effect(a@, b@, lt@, eq@, gt@, old(ctxt)@, final(ctxt)@, outcome_view(out)),
{
    let r = read_ints(a, b, ctxt);
    let out = match r {
        Err(e) => Err(e),
        Ok((x, y)) => {
            let label = if x < y {
                lt
            } else if x == y {
                eq
            } else {
                gt
            };
            run_jump(label, ctxt)
        },
    };
    assert(three_way_with(lt@, eq@, gt@, old(ctxt)@, ctxt@, outcome_view(out), r));
    out
}

fn run_ret(ctxt: &mut Context) -> (out: Outcome)
    requires
        old(ctxt).wf(),
    ensures
        final(ctxt).wf(),
        ret_effect(old(ctxt)@, final(ctxt)@, outcome_view(out)),
{
    if ctxt.leave() {
        Ok(None)
    } else {
        Err(RuntimeError::EmptyCallStack)
    }
}

fn run_bufnew(bufid: &String, dm: &DataM, ctxt: &mut Context) -> (out: Outcome)
    requires
        old(ctxt).wf(),
    ensures
        final(ctxt).wf(),
        bufnew_effect(bufid@, dm@, old(ctxt)@, final(ctxt)@, outcome_view(out)),
{
    let r = dm.get_usize(ctxt);
    let made = match r {
        Ok(n) => Ok(zero_buffer(n)),
        Err(e) => Err(e),
    };
    assert(bytes_view(made) == zeros_of(r));
    let out = store_bytes(bufid, made, ctxt);
    assert(yields_size(dm@, old(ctxt)@, r) && letbuf_with(
        bufid@,
        old(ctxt)@,
        ctxt@,
        outcome_view(out),
        zeros_of(r),
    ));
    out
}

fn run_letbuf(bufid: &String, dm: &DataM, ctxt: &mut Context) -> (out: Outcome)
    requires
        old(ctxt).wf(),
    ensures
        final(ctxt).wf(),
        letbuf_effect(bufid@, dm@, old(ctxt)@, final(ctxt)@, outcome_view(out)),
{
    let r = dm.get_bufvu8(ctxt);
    let ghost rv = bytes_view(r);
    let out = store_bytes(bufid, r, ctxt);
    assert(yields_bytes(dm@, old(ctxt)@, rv) && letbuf_with(
        bufid@,
        old(ctxt)@,
        ctxt@,
        outcome_view(out),
        rv,
    ));
    out
}

fn run_letbufstr(bufid: &String, dm: &DataM, ctxt: &mut Context) -> (out: Outcome)
    requires
        old(ctxt).wf(),
    ensures
        final(ctxt).wf(),
        letbufstr_effect(bufid@, dm@, old(ctxt)@, final(ctxt)@, outcome_view(out)),
{
    let t = dm.get_string(ctxt);
    let ghost tv = text_view(t);
    let r = match t {
        Ok(s) => Ok(text_as_bytes(s.as_str())),
        Err(e) => Err(e),
    };
    assert(bytes_view(r) == utf8_of(tv));
    let out = store_bytes(bufid, r, ctxt);
    assert(yields_text(dm@, old(ctxt)@, tv) && letbuf_with(
        bufid@,
        old(ctxt)@,
        ctxt@,
        outcome_view(out),
        utf8_of(tv),
    ));
    out
}

fn run_merge(dest: &String, srcs: &Vec<String>, ctxt: &mut Context) -> (out: Outcome)
    requires
        old(ctxt).wf(),
    ensures
        final(ctxt).wf(),
        letbuf_with(
            dest@,
            old(ctxt)@,
            final(ctxt)@,
            outcome_view(out),
            gathered(srcs.deep_view(), old(ctxt)@),
        ),
{
    let r = gather(srcs, ctxt);
    store_bytes(dest, r, ctxt)
}

fn run_merged(kind: Render, dest: &String, dms: &Vec<DataM>, ctxt: &mut Context) -> (out: Outcome)
    requires
        old(ctxt).wf(),
    ensures
        final(ctxt).wf(),
        merged_effect(
            kind,
            dest@,
            dms.deep_view(),
            old(ctxt)@,
            final(ctxt)@,
            outcome_view(out),
        ),
{
    let r = render(kind, dms, ctxt);
    let ghost rv = bytes_view(r);
    let out = store_bytes(dest, r, ctxt);
    assert(rendered(kind, dms.deep_view(), old(ctxt)@, rv) && letbuf_with(
        dest@,
        old(ctxt)@,
        ctxt@,
        outcome_view(out),
        rv,
    ));
    out
}

impl Op {
    /// Runs the instruction against the state.
    ///
    /// An error leaves the state as it was. A request is work for the
    /// host: the instruction has done its part, and the host does the rest
    /// before the next instruction runs.
    pub fn run(&self, ctxt: &mut Context) -> (out: Outcome)
        requires
            old(ctxt).wf(),
        ensures
            final(ctxt).wf(),
            effect(self@, old(ctxt)@, final(ctxt)@, outcome_view(out)),
    {
        match self {
            Op::Nop => Ok(None),
            Op::LetStr(vid, vdm) => run_letstr(vid, vdm, ctxt),
            Op::LetInt(vid, vval) => run_letint(vid, vval, ctxt),
            Op::Inc(vid) => run_bump(vid, 1, ctxt),
            Op::Dec(vid) => run_bump(vid, -1, ctxt),
            Op::Alu(aluop, destvid, dmsrc1, dmsrc2) => run_alu(
                *aluop,
                destvid,
                dmsrc1,
                dmsrc2,
                ctxt,
            ),
            Op::IobNew(ioid, ioaddr, ioargs) => run_bridge_new(ioid, ioaddr, ioargs, ctxt),
            Op::IobWrite(ioid, bufid) => run_bridge_write(ioid, bufid, ctxt),
            Op::IobFlush(ioid) => run_bridge_flush(ioid, ctxt),
            Op::IobRead(ioid, bufid) => run_bridge_read(ioid, bufid, ctxt),
            Op::IobClose(ioid) => run_bridge_close(ioid, ctxt),
            Op::SleepMSec(msecdm) => run_sleep(msecdm, ctxt),
            Op::FcGet(fcid, bufid) => run_fcget(fcid, bufid, ctxt),
            Op::If(cop, val1dm, val2dm, kind, destname, destargs) => run_if(
                *cop,
                val1dm,
                val2dm,
                *kind,
                destname,
                destargs,
                ctxt,
            ),
            Op::CheckJump(arg1, arg2, ltlabel, eqlabel, gtlabel) => run_three_way(
                arg1,
                arg2,
                ltlabel,
                eqlabel,
                gtlabel,
                ctxt,
            ),
            Op::Jump(label) => run_jump(label, ctxt),
            Op::Call(label, passedargs) => run_call(label, passedargs, ctxt),
            Op::Ret => run_ret(ctxt),
            Op::BufNew(bufid, dmbufsize) => run_bufnew(bufid, dmbufsize, ctxt),
            Op::LetBuf(bufid, bufdm) => run_letbuf(bufid, bufdm, ctxt),
            Op::LetBufStr(bufid, bufdm) => run_letbufstr(bufid, bufdm, ctxt),
            Op::Buf8Randomize(bufid, dmrandcount, dmstartoffset, dmendoffset, dmstartval, dmendval) => {
                run_randomize(
                    bufid,
                    dmrandcount,
                    dmstartoffset,
                    dmendoffset,
                    dmstartval,
                    dmendval,
                    ctxt,
                )
            },
            Op::BufsMerge(destbufid, srcbufids) => run_merge(destbufid, srcbufids, ctxt),
            Op::BufMerged(mtype, destbufid, srcdms) => run_merged(*mtype, destbufid, srcdms, ctxt),
        }
    }
}

} // verus!
