//! What holds of every instruction, whatever it reads or draws.

use vstd::prelude::*;
use crate::fuzzers::chain_may_emit;
use crate::vm::context::ContextView;
use crate::vm::datam::{denotes, DataMView};
use crate::vm::datas::VariantView;
use crate::vm::error::RuntimeError;
use crate::vm::exec::{
    effect, fcget_with, frame_of, low_byte, randomize_drawn, randomize_with, scribbled, steer_of,
    steer_read, OutcomeView, Steer,
};
use crate::vm::ops::{Branch, CondOp, OpView};

verus! {

/// Assigning to a variable keeps every name a variable of one kind only.
pub proof fn lemma_assignment_keeps_kinds(cv: ContextView, name: Seq<char>)
    requires
        cv.kinds_disjoint(),
    ensures
        cv.without_var(name).kinds_disjoint(),
        forall|v: isize| (#[trigger] cv.with_int(name, v)).kinds_disjoint(),
        forall|v: Seq<char>| (#[trigger] cv.with_str(name, v)).kinds_disjoint(),
        forall|v: Seq<u8>| (#[trigger] cv.with_buf(name, v)).kinds_disjoint(),
{
}

/// A failed instruction leaves the state as it was.
pub proof fn lemma_error_changes_nothing(
    op: OpView,
    pre: ContextView,
    post: ContextView,
    out: OutcomeView,
)
    requires
        effect(op, pre, post, out),
        out is Err,
    ensures
        post == pre,
{
    lemma_effect_frame(op, pre, post, out);
}

/// No instruction makes a name a variable of two kinds: if that holds
/// before, it holds after.
pub proof fn lemma_kinds_stay_disjoint(
    op: OpView,
    pre: ContextView,
    post: ContextView,
    out: OutcomeView,
)
    requires
        effect(op, pre, post, out),
        pre.kinds_disjoint(),
    ensures
        post.kinds_disjoint(),
{
    lemma_effect_frame(op, pre, post, out);
}

/// A call that goes through makes the call stack and the stack of frames
/// one deeper each, with the calling instruction as the place to return
/// to.
pub proof fn lemma_call_deepens(
    name: Seq<char>,
    args: Seq<Seq<char>>,
    pre: ContextView,
    post: ContextView,
    out: OutcomeView,
)
    requires
        effect(OpView::Call(name, args), pre, post, out),
        out is Ok,
    ensures
        post.callstack.len() == pre.callstack.len() + 1,
        post.locals.len() == pre.locals.len() + 1,
        post.callstack.last() == pre.iptr,
        post.callstack.drop_last() == pre.callstack,
        post.locals.drop_last() == pre.locals,
{
    assert(post.callstack.drop_last() =~= pre.callstack);
    assert(post.locals.drop_last() =~= pre.locals);
}

/// In the frame of a call a formal parameter stands for the variable that
/// the argument at its place stands for in the caller. Where a parameter
/// name occurs more than once, its last occurrence counts.
pub proof fn lemma_frame_binds(
    formals: Seq<Seq<char>>,
    actuals: Seq<Seq<char>>,
    cv: ContextView,
    i: int,
)
    requires
        formals.len() == actuals.len(),
        0 <= i < formals.len(),
        forall|j: int| i < j < formals.len() ==> formals[j] != formals[i],
    ensures
        frame_of(formals, actuals, cv).contains_key(formals[i]),
        frame_of(formals, actuals, cv)[formals[i]] == cv.resolved(actuals[i]),
    decreases formals.len(),
{
    if i < formals.len() - 1 {
        lemma_frame_binds(formals.drop_last(), actuals.drop_last(), cv, i);
    }
}

/// The frame of a call binds the formal parameters and nothing else.
pub proof fn lemma_frame_domain(
    formals: Seq<Seq<char>>,
    actuals: Seq<Seq<char>>,
    cv: ContextView,
    name: Seq<char>,
)
    requires
        formals.len() == actuals.len(),
    ensures
        frame_of(formals, actuals, cv).contains_key(name) <==> formals.contains(name),
    decreases formals.len(),
{
    if formals.len() > 0 {
        lemma_frame_domain(formals.drop_last(), actuals.drop_last(), cv, name);
        if formals.contains(name) {
            let j = choose|j: int| 0 <= j < formals.len() && formals[j] == name;
            if j < formals.len() - 1 {
                assert(formals.drop_last()[j] == name);
            }
        }
        if formals.drop_last().contains(name) {
            let j = choose|j: int| 0 <= j < formals.drop_last().len() && formals.drop_last()[j] == name;
            assert(formals[j] == name);
        }
    }
}

/// After a call that goes through, a formal parameter resolves in the
/// callee to the variable that its argument resolved to in the caller, and
/// any other name resolves to itself: the callee works on the caller's
/// variables, not on copies.
pub proof fn lemma_call_aliases(
    name: Seq<char>,
    args: Seq<Seq<char>>,
    pre: ContextView,
    post: ContextView,
    out: OutcomeView,
    i: int,
)
    requires
        effect(OpView::Call(name, args), pre, post, out),
        out is Ok,
        0 <= i < args.len(),
        forall|j: int| i < j < args.len() ==> pre.funcs[name].1[j] != pre.funcs[name].1[i],
    ensures
        pre.funcs.contains_key(name),
        post.resolved(pre.funcs[name].1[i]) == pre.resolved(args[i]),
        forall|other: Seq<char>| !pre.funcs[name].1.contains(other) ==> post.resolved(other)
            == other,
        post.ints == pre.ints,
        post.strs == pre.strs,
        post.bufs == pre.bufs,
{
    let formals = pre.funcs[name].1;
    lemma_frame_binds(formals, args, pre, i);
    assert forall|other: Seq<char>| !formals.contains(other) implies post.resolved(other)
        == other by {
        lemma_frame_domain(formals, args, pre, other);
    }
}

/// A conditional that calls either leaves the state as it was, where its
/// condition does not hold, or deepens both stacks by one as a call does.
pub proof fn lemma_conditional_call_deepens(
    cop: CondOp,
    a: DataMView,
    b: DataMView,
    dest: Seq<char>,
    args: Seq<Seq<char>>,
    pre: ContextView,
    post: ContextView,
    out: OutcomeView,
)
    requires
        effect(OpView::If(cop, a, b, Branch::Call, dest, args), pre, post, out),
        out is Ok,
    ensures
        post == pre || (post.callstack.len() == pre.callstack.len() + 1 && post.locals.len()
            == pre.locals.len() + 1 && post.callstack.last() == pre.iptr),
{
}

/// A conditional that jumps changes nothing but the pointer.
pub proof fn lemma_conditional_jump_moves_pointer_only(
    cop: CondOp,
    a: DataMView,
    b: DataMView,
    dest: Seq<char>,
    args: Seq<Seq<char>>,
    pre: ContextView,
    post: ContextView,
    out: OutcomeView,
)
    requires
        effect(OpView::If(cop, a, b, Branch::Goto, dest, args), pre, post, out),
    ensures
        post == pre || (out is Ok && pre.lbls.contains_key(dest) && post == pre.jumped(
            pre.lbls[dest],
        )),
{
}

/// A `ret` that goes through makes the call stack and the stack of frames
/// one shallower each and goes back to the instruction that called.
pub proof fn lemma_ret_rises(pre: ContextView, post: ContextView, out: OutcomeView)
    requires
        effect(OpView::Ret, pre, post, out),
        out is Ok,
        pre.callstack.len() == pre.locals.len(),
    ensures
        pre.callstack.len() > 0,
        post.callstack.len() == pre.callstack.len() - 1,
        post.locals.len() == pre.locals.len() - 1,
        post.iptr == pre.callstack.last(),
{
}

/// The two stacks keep step: if they are equally deep before an
/// instruction they are after it, and the depth moves by at most one.
pub proof fn lemma_stacks_keep_step(
    op: OpView,
    pre: ContextView,
    post: ContextView,
    out: OutcomeView,
)
    requires
        effect(op, pre, post, out),
        pre.callstack.len() == pre.locals.len(),
    ensures
        post.callstack.len() == post.locals.len(),
        post.callstack.len() == pre.callstack.len() || post.callstack.len() == pre.callstack.len()
            + 1 || post.callstack.len() == pre.callstack.len() - 1,
        !(op is Call || op is Ret || op is If) ==> post.callstack == pre.callstack && post.locals
            == pre.locals,
{
    lemma_effect_frame(op, pre, post, out);
}

/// An `fcget` that goes through moves the step counter on by exactly one,
/// and the record it stores is one that the chain may emit for the step
/// that the counter showed before.
pub proof fn lemma_fcget_steps(
    fcid: Seq<char>,
    bufid: Seq<char>,
    pre: ContextView,
    post: ContextView,
    out: OutcomeView,
)
    requires
        effect(OpView::FcGet(fcid, bufid), pre, post, out),
        out is Ok,
    ensures
        post.stepu == pre.stepu + 1,
        post.bufs.contains_key(pre.resolved(bufid)),
        chain_may_emit(pre.chains[fcid], pre.stepu, post.bufs[pre.resolved(bufid)]),
{
    let record = choose|record: Seq<u8>| #[trigger] fcget_with(fcid, bufid, pre, post, out, record);
    assert(fcget_with(fcid, bufid, pre, post, out, record));
}

/// No instruction but `fcget` moves the step counter.
pub proof fn lemma_only_fcget_steps(
    op: OpView,
    pre: ContextView,
    post: ContextView,
    out: OutcomeView,
)
    requires
        effect(op, pre, post, out),
        !(op is FcGet),
    ensures
        post.stepu == pre.stepu,
{
    lemma_effect_frame(op, pre, post, out);
}

/// A name that is set as an integer and then as a text is a text to an
/// operand of any kind: the integer is gone.
pub proof fn lemma_any_sees_last_assignment(
    cv: ContextView,
    name: Seq<char>,
    i: isize,
    s: Seq<char>,
)
    ensures
        ({
            let k = cv.resolved(name);
            let after = cv.with_int(k, i).with_str(k, s);
            &&& !after.ints.contains_key(k)
            &&& denotes(DataMView::AnyVar(name), after) == Ok::<VariantView, RuntimeError>(
                VariantView::StrValue(s),
            )
        }),
{
}

/// Writes never change the length of a buffer, touch no offset outside
/// the range given, and leave at a touched offset a byte of the range
/// given.
pub proof fn lemma_scribbled_bounds(
    b: Seq<u8>,
    count: nat,
    first: int,
    last: int,
    lo: u8,
    hi: u8,
    r: Seq<u8>,
)
    requires
        scribbled(b, count, first, last, lo, hi, r),
    ensures
        r.len() == b.len(),
        forall|i: int| 0 <= i < b.len() && !(first <= i <= last) ==> r[i] == b[i],
        forall|i: int| 0 <= i < b.len() && r[i] != b[i] ==> lo <= r[i] <= hi,
    decreases count,
{
    if count > 0 {
        let (mid, off, val) = choose|mid: Seq<u8>, off: int, val: u8|
            scribbled(b, (count - 1) as nat, first, last, lo, hi, mid) && first <= off <= last && 0
                <= off < mid.len() && lo <= val <= hi && r == #[trigger] mid.update(off, val);
        lemma_scribbled_bounds(b, (count - 1) as nat, first, last, lo, hi, mid);
    }
}

/// A `buf8randomize` that goes through leaves the buffer as long as it was
/// and changes it only at offsets between the first and the last that its
/// operands resolve to.
pub proof fn lemma_randomize_stays_in_range(
    k: Seq<char>,
    st: Steer,
    pre: ContextView,
    post: ContextView,
    out: OutcomeView,
    n: nat,
    r: Seq<u8>,
)
    requires
        randomize_drawn(k, st, pre, post, out, n, r),
    ensures
        post.bufs[k] == r,
        r.len() == pre.bufs[k].len(),
        forall|i: int|
            0 <= i < r.len() && !(st.first() <= i <= st.last(r.len())) ==> r[i] == pre.bufs[k][i],
        st.count == 0 ==> r == pre.bufs[k],
{
    lemma_scribbled_bounds(
        pre.bufs[k],
        n,
        st.first(),
        st.last(pre.bufs[k].len()),
        low_byte(st.lo),
        low_byte(st.hi),
        r,
    );
}

/// Whether reading the operand as an integer has one possible result: it
/// names no variable, or stands for an integer or a text. A buffer is read
/// in the byte order of the host, and the specials are drawn anew.
pub open spec fn settled_as_int(dm: DataMView, cv: ContextView) -> bool {
    match denotes(dm, cv) {
        Err(_) => true,
        Ok(VariantView::IntValue(_)) => true,
        Ok(VariantView::StrValue(_)) => true,
        _ => false,
    }
}

/// Whether reading the operand as text has one possible result: it is no
/// special.
pub open spec fn settled_as_text(dm: DataMView, cv: ContextView) -> bool {
    match denotes(dm, cv) {
        Ok(VariantView::XTimeStamp) => false,
        Ok(VariantView::XRandomBytes(_)) => false,
        _ => true,
    }
}

/// Whether reading the operand as bytes has one possible result: it names
/// no variable, or stands for a text or a buffer. An integer is laid out
/// in the byte order of the host.
pub open spec fn settled_as_bytes(dm: DataMView, cv: ContextView) -> bool {
    match denotes(dm, cv) {
        Err(_) => true,
        Ok(VariantView::StrValue(_)) => true,
        Ok(VariantView::BufValue(_)) => true,
        _ => false,
    }
}

/// Whether what the instruction does is settled by the state alone: each
/// operand that it reads has one possible result, and it draws nothing.
pub open spec fn settled(op: OpView, cv: ContextView) -> bool {
    match op {
        OpView::LetStr(_, dm) => settled_as_text(dm, cv),
        OpView::LetInt(_, dm) => settled_as_int(dm, cv),
        OpView::Alu(_, _, a, b) => settled_as_int(a, cv) && settled_as_int(b, cv),
        OpView::If(cop, a, b, _, _, _) => match cop {
            CondOp::IfEqBuf | CondOp::IfNeBuf => settled_as_bytes(a, cv) && settled_as_bytes(
                b,
                cv,
            ),
            _ => settled_as_int(a, cv) && settled_as_int(b, cv),
        },
        OpView::CheckJump(a, b, _, _, _) => settled_as_int(a, cv) && settled_as_int(b, cv),
        OpView::SleepMSec(dm) => settled_as_int(dm, cv),
        OpView::BufNew(_, dm) => settled_as_int(dm, cv),
        OpView::LetBuf(_, dm) => settled_as_bytes(dm, cv),
        OpView::LetBufStr(_, dm) => settled_as_text(dm, cv),
        OpView::FcGet(_, _) => false,
        OpView::Buf8Randomize(_, _, _, _, _, _) => false,
        OpView::BufMerged(_, _, _) => false,
        _ => true,
    }
}

/// An instruction that is settled by the state has one effect: the state
/// it leaves and the way it ends are functions of the instruction and the
/// state before.
pub proof fn lemma_settled_effect_is_unique(
    op: OpView,
    pre: ContextView,
    post1: ContextView,
    out1: OutcomeView,
    post2: ContextView,
    out2: OutcomeView,
)
    requires
        settled(op, pre),
        effect(op, pre, post1, out1),
        effect(op, pre, post2, out2),
    ensures
        post1 == post2,
        out1 == out2,
{
}

/// What every instruction leaves alone.
proof fn lemma_effect_frame(op: OpView, pre: ContextView, post: ContextView, out: OutcomeView)
    requires
        effect(op, pre, post, out),
    ensures
        out is Err ==> post == pre,
        post.lbls == pre.lbls,
        post.funcs == pre.funcs,
        post.chains == pre.chains,
        !(op is FcGet) ==> post.stepu == pre.stepu,
        pre.kinds_disjoint() ==> post.kinds_disjoint(),
        pre.callstack.len() == pre.locals.len() ==> post.callstack.len() == post.locals.len(),
        pre.callstack.len() == pre.locals.len() ==> post.callstack.len() == pre.callstack.len()
            || post.callstack.len() == pre.callstack.len() + 1 || post.callstack.len()
            == pre.callstack.len() - 1,
        !(op is Call || op is Ret || op is If) ==> post.callstack == pre.callstack && post.locals
            == pre.locals,
{
    if pre.kinds_disjoint() {
        lemma_kinds_of_assignments(pre);
    }
    match op {
        OpView::FcGet(fcid, bufid) => {
            if out is Ok {
                let record = choose|record: Seq<u8>| #[trigger]
                    fcget_with(fcid, bufid, pre, post, out, record);
                assert(fcget_with(fcid, bufid, pre, post, out, record));
            }
        },
        OpView::Buf8Randomize(bufid, n, s, e, lo, hi) => {
            let k = pre.resolved(bufid);
            if pre.bufs.contains_key(k) {
                let (r1, r2, r3, r4, r5) = choose|
                    r1: Result<isize, RuntimeError>,
                    r2: Result<isize, RuntimeError>,
                    r3: Result<isize, RuntimeError>,
                    r4: Result<isize, RuntimeError>,
                    r5: Result<isize, RuntimeError>,
                |
                    steer_read((n, s, e, lo, hi), pre, r1, r2, r3, r4, r5)
                        && randomize_with(
                        k,
                        pre,
                        post,
                        out,
                        #[trigger] steer_of(r1, r2, r3, r4, r5),
                    );
                let st = steer_of(r1, r2, r3, r4, r5);
                if st is Ok && st->Ok_0.fits(pre.bufs[k].len()) {
                    let (m, r) = choose|m: nat, r: Seq<u8>| #[trigger]
                        randomize_drawn(k, st->Ok_0, pre, post, out, m, r);
                    assert(randomize_drawn(k, st->Ok_0, pre, post, out, m, r));
                }
            }
        },
        _ => {},
    }
}

/// Every assignment to any name keeps the kinds apart.
proof fn lemma_kinds_of_assignments(cv: ContextView)
    requires
        cv.kinds_disjoint(),
    ensures
        forall|k: Seq<char>, v: isize| (#[trigger] cv.with_int(k, v)).kinds_disjoint(),
        forall|k: Seq<char>, v: Seq<char>| (#[trigger] cv.with_str(k, v)).kinds_disjoint(),
        forall|k: Seq<char>, v: Seq<u8>| (#[trigger] cv.with_buf(k, v)).kinds_disjoint(),
{
}

} // verus!
