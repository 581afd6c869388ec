//! The state that a program runs against: the variables of the three kinds,
//! labels and functions, the call stack with its aliasing frames, the open
//! bridges, the fuzz chains, the instruction pointer and the step counter.

use vstd::prelude::*;
use crate::fuzzers::{all_usable, FuzzChainImmuts, FuzzerView, RunTimeManager};
use crate::vm::datas::copy_bytes;
use crate::vm::table::NameTable;

verus! {

/// The state of the machine, as mathematics.
pub struct ContextView {
    /// The integer variables.
    pub ints: Map<Seq<char>, isize>,
    /// The text variables.
    pub strs: Map<Seq<char>, Seq<char>>,
    /// The buffer variables.
    pub bufs: Map<Seq<char>, Seq<u8>>,
    /// The open bridges, each with the address it was opened at.
    pub iobs: Map<Seq<char>, Seq<char>>,
    /// The instruction index of each label.
    pub lbls: Map<Seq<char>, usize>,
    /// The entry index and the formal parameters of each function.
    pub funcs: Map<Seq<char>, (usize, Seq<Seq<char>>)>,
    /// The fuzz chains.
    pub chains: Map<Seq<char>, Seq<FuzzerView>>,
    /// The instruction indices to return to, innermost last.
    pub callstack: Seq<usize>,
    /// The aliasing frames, innermost last: each maps the formal
    /// parameters of a running function to the variables they stand for.
    pub locals: Seq<Map<Seq<char>, Seq<char>>>,
    /// The index of the current instruction.
    pub iptr: usize,
    /// Whether the instruction pointer moves on by one after the current
    /// instruction.
    pub iptr_commonupdate: bool,
    /// The step that the next record of a fuzz chain is made for.
    pub stepu: usize,
}

impl ContextView {
    /// The state of a machine that has not run yet: nothing is defined,
    /// the pointer is at the first instruction and the step counter at
    /// zero.
    pub open spec fn initial() -> ContextView {
        ContextView {
            ints: Map::empty(),
            strs: Map::empty(),
            bufs: Map::empty(),
            iobs: Map::empty(),
            lbls: Map::empty(),
            funcs: Map::empty(),
            chains: Map::empty(),
            callstack: Seq::empty(),
            locals: Seq::empty(),
            iptr: 0,
            iptr_commonupdate: true,
            stepu: 0,
        }
    }

    /// The variable that `name` stands for: what the innermost frame maps
    /// it to, or `name` itself.
    pub open spec fn resolved(self, name: Seq<char>) -> Seq<char> {
        if self.locals.len() > 0 && self.locals.last().contains_key(name) {
            self.locals.last()[name]
        } else {
            name
        }
    }

    /// The state without any variable called `name`.
    pub open spec fn without_var(self, name: Seq<char>) -> ContextView {
        ContextView {
            ints: self.ints.remove(name),
            strs: self.strs.remove(name),
            bufs: self.bufs.remove(name),
            ..self
        }
    }

    /// The state in which `name` is an integer variable of value `v`, and
    /// of no other kind.
    pub open spec fn with_int(self, name: Seq<char>, v: isize) -> ContextView {
        ContextView {
            ints: self.ints.insert(name, v),
            strs: self.strs.remove(name),
            bufs: self.bufs.remove(name),
            ..self
        }
    }

    /// The state in which `name` is a text variable of value `v`, and of no
    /// other kind.
    pub open spec fn with_str(self, name: Seq<char>, v: Seq<char>) -> ContextView {
        ContextView {
            ints: self.ints.remove(name),
            strs: self.strs.insert(name, v),
            bufs: self.bufs.remove(name),
            ..self
        }
    }

    /// The state in which `name` is a buffer variable of value `v`, and of
    /// no other kind.
    pub open spec fn with_buf(self, name: Seq<char>, v: Seq<u8>) -> ContextView {
        ContextView {
            ints: self.ints.remove(name),
            strs: self.strs.remove(name),
            bufs: self.bufs.insert(name, v),
            ..self
        }
    }

    /// The state at the start of an instruction: the pointer is due to
    /// move on by one.
    pub open spec fn begun(self) -> ContextView {
        ContextView { iptr_commonupdate: true, ..self }
    }

    /// The state at the end of an instruction: the pointer has moved on by
    /// one if it was due to. At the largest index it stays, which is past
    /// the end of every program.
    pub open spec fn ended(self) -> ContextView {
        if self.iptr_commonupdate && self.iptr < usize::MAX {
            ContextView { iptr: (self.iptr + 1) as usize, ..self }
        } else {
            self
        }
    }

    /// The state after a jump to the instruction `at`.
    pub open spec fn jumped(self, at: usize) -> ContextView {
        ContextView { iptr: at, iptr_commonupdate: false, ..self }
    }

    /// The state after entering a function at `at` with the given frame:
    /// the current instruction is where the call returns to.
    pub open spec fn entered(self, at: usize, frame: Map<Seq<char>, Seq<char>>) -> ContextView {
        ContextView {
            callstack: self.callstack.push(self.iptr),
            locals: self.locals.push(frame),
            iptr: at,
            iptr_commonupdate: false,
            ..self
        }
    }

    /// The state after returning from a function. The pointer is set to the
    /// calling instruction and then moves past it in the usual way.
    pub open spec fn returned(self) -> ContextView {
        ContextView {
            callstack: self.callstack.drop_last(),
            locals: self.locals.drop_last(),
            iptr: self.callstack.last(),
            ..self
        }
    }

    /// Whether no name is a variable of two kinds.
    pub open spec fn kinds_disjoint(self) -> bool {
        disjoint_kinds(self.ints, self.strs, self.bufs)
    }
}

/// Whether no name is a key of two of the three maps.
pub open spec fn disjoint_kinds(
    ints: Map<Seq<char>, isize>,
    strs: Map<Seq<char>, Seq<char>>,
    bufs: Map<Seq<char>, Seq<u8>>,
) -> bool {
    &&& forall|n: Seq<char>| #[trigger]
        ints.contains_key(n) ==> !strs.contains_key(n) && !bufs.contains_key(n)
    &&& forall|n: Seq<char>| #[trigger] strs.contains_key(n) ==> !bufs.contains_key(n)
}

/// The first `n` bytes of `data`, with zeros after them where `data` is
/// shorter.
pub open spec fn resized(data: Seq<u8>, n: usize) -> Seq<u8> {
    Seq::new(
        n as nat,
        |i: int|
            if i < data.len() {
                data[i]
            } else {
                0u8
            },
    )
}

/// The state of the machine.
pub struct Context {
    strs: NameTable<String>,
    ints: NameTable<isize>,
    iobs: NameTable<String>,
    lbls: NameTable<usize>,
    bufs: NameTable<Vec<u8>>,
    stepu: usize,
    fcrtm: RunTimeManager,
    iptr: usize,
    iptr_commonupdate: bool,
    callstack: Vec<usize>,
    funcs: NameTable<(usize, Vec<String>)>,
    locals: Vec<NameTable<String>>,
}

impl View for Context {
    type V = ContextView;

    closed spec fn view(&self) -> ContextView {
        ContextView {
            ints: self.ints@,
            strs: self.strs@,
            bufs: self.bufs@,
            iobs: self.iobs@,
            lbls: self.lbls@,
            funcs: self.funcs@,
            chains: self.fcrtm.chains(),
            callstack: self.callstack@,
            locals: self.locals.deep_view(),
            iptr: self.iptr,
            iptr_commonupdate: self.iptr_commonupdate,
            stepu: self.stepu,
        }
    }
}

impl Context {
    /// The state is sound: no name is entered twice in a table, no name is
    /// a variable of two kinds, call stack and frames are equally deep, and
    /// every fuzz chain can produce its record.
    pub closed spec fn wf(&self) -> bool {
        &&& self.strs.wf()
        &&& self.ints.wf()
        &&& self.iobs.wf()
        &&& self.lbls.wf()
        &&& self.bufs.wf()
        &&& self.funcs.wf()
        &&& self.fcrtm.wf()
        &&& forall|i: int| 0 <= i < self.locals.len() ==> (#[trigger] self.locals[i]).wf()
        &&& self.callstack.len() == self.locals.len()
        &&& disjoint_kinds(self.ints@, self.strs@, self.bufs@)
    }

    /// At every moment a name is a variable of at most one kind, the call
    /// stack and the stack of frames are equally deep, and every fuzz chain
    /// is usable.
    pub proof fn lemma_wf(&self)
        requires
            self.wf(),
        ensures
            self@.kinds_disjoint(),
            self@.callstack.len() == self@.locals.len(),
            forall|k: Seq<char>| #[trigger]
                self@.chains.contains_key(k) ==> all_usable(self@.chains[k]),
    {
        self.fcrtm.lemma_wf();
    }

    /// The state of a machine that has not run yet.
    pub fn new() -> (c: Context)
        ensures
            c.wf(),
            c@ == ContextView::initial(),
    {
        let c = Context {
            strs: NameTable::new(),
            ints: NameTable::new(),
            iobs: NameTable::new(),
            lbls: NameTable::new(),
            bufs: NameTable::new(),
            stepu: 0,
            fcrtm: RunTimeManager::new(),
            iptr: 0,
            iptr_commonupdate: true,
            callstack: Vec::new(),
            funcs: NameTable::new(),
            locals: Vec::new(),
        };
        assert(c@.locals =~= Seq::empty());
        c
    }

    /// Removes the variable `vname`, of whatever kind it is.
    pub fn var_remove(&mut self, vname: &str)
        requires
            old(self).wf(),
        ensures
            final(self).wf(),
            final(self)@ == old(self)@.without_var(vname@),
    {
        let name = vname.to_owned();
        self.ints.remove(&name);
        self.strs.remove(&name);
        self.bufs.remove(&name);
    }

    /// Makes `vname` an integer variable of value `vvalue`. A variable of
    /// that name of another kind is removed.
    pub fn varadd_int(&mut self, vname: &str, vvalue: isize)
        requires
            old(self).wf(),
        ensures
            final(self).wf(),
            final(self)@ == old(self)@.with_int(vname@, vvalue),
    {
        self.var_remove(vname);
        self.ints.insert(vname.to_owned(), vvalue);
        assert(self@.ints =~= old(self)@.ints.insert(vname@, vvalue));
    }

    /// Makes `vname` a text variable of value `vvalue`. A variable of that
    /// name of another kind is removed.
    pub fn varadd_str(&mut self, vname: &str, vvalue: String)
        requires
            old(self).wf(),
        ensures
            final(self).wf(),
            final(self)@ == old(self)@.with_str(vname@, vvalue@),
    {
        self.var_remove(vname);
        self.strs.insert(vname.to_owned(), vvalue);
        assert(self@.strs =~= old(self)@.strs.insert(vname@, vvalue@));
    }

    /// Makes `vname` a buffer variable of value `vvalue`. A variable of
    /// that name of another kind is removed.
    pub fn varadd_buf(&mut self, vname: &str, vvalue: Vec<u8>)
        requires
            old(self).wf(),
        ensures
            final(self).wf(),
            final(self)@ == old(self)@.with_buf(vname@, vvalue@),
    {
        self.var_remove(vname);
        assert(vvalue.deep_view() =~= vvalue@);
        self.bufs.insert(vname.to_owned(), vvalue);
        assert(self@.bufs =~= old(self)@.bufs.insert(vname@, vvalue@));
    }

    /// The variable that `name` stands for in the running function.
    pub fn resolve(&self, name: &String) -> (r: String)
        requires
            self.wf(),
        ensures
            r@ == self@.resolved(name@),
    {
        let n = self.locals.len();
        if n > 0 {
            assert(self@.locals.last() == self.locals[n - 1]@);
            match self.locals[n - 1].get(name) {
                Some(actual) => actual.clone(),
                None => name.clone(),
            }
        } else {
            name.clone()
        }
    }

    /// The value of the integer variable `name`.
    pub fn int_of(&self, name: &String) -> (r: Option<isize>)
        requires
            self.wf(),
        ensures
            r == if self@.ints.contains_key(name@) {
                Some(self@.ints[name@])
            } else {
                None
            },
    {
        match self.ints.get(name) {
            Some(v) => Some(*v),
            None => None,
        }
    }

    /// The value of the text variable `name`.
    pub fn str_of(&self, name: &String) -> (r: Option<&String>)
        requires
            self.wf(),
        ensures
            match r {
                Some(s) => self@.strs.contains_key(name@) && self@.strs[name@] == s@,
                None => !self@.strs.contains_key(name@),
            },
    {
        self.strs.get(name)
    }

    /// The value of the buffer variable `name`.
    pub fn buf_of(&self, name: &String) -> (r: Option<&Vec<u8>>)
        requires
            self.wf(),
        ensures
            match r {
                Some(b) => self@.bufs.contains_key(name@) && self@.bufs[name@] == b@,
                None => !self@.bufs.contains_key(name@),
            },
    {
        self.bufs.get(name)
    }

    /// The value of the integer variable `name`, for callers that hold the
    /// name as a string slice.
    pub fn get_int(&self, name: &str) -> (r: Option<isize>)
        requires
            self.wf(),
        ensures
            r == if self@.ints.contains_key(name@) {
                Some(self@.ints[name@])
            } else {
                None
            },
    {
        self.int_of(&name.to_owned())
    }

    /// A copy of the text variable `name`.
    pub fn get_str(&self, name: &str) -> (r: Option<String>)
        requires
            self.wf(),
        ensures
            match r {
                Some(s) => self@.strs.contains_key(name@) && self@.strs[name@] == s@,
                None => !self@.strs.contains_key(name@),
            },
    {
        match self.str_of(&name.to_owned()) {
            Some(s) => Some(s.clone()),
            None => None,
        }
    }

    /// A copy of the buffer variable `name`.
    pub fn get_buf(&self, name: &str) -> (r: Option<Vec<u8>>)
        requires
            self.wf(),
        ensures
            match r {
                Some(b) => self@.bufs.contains_key(name@) && self@.bufs[name@] == b@,
                None => !self@.bufs.contains_key(name@),
            },
    {
        match self.buf_of(&name.to_owned()) {
            Some(b) => Some(copy_bytes(b)),
            None => None,
        }
    }

    /// The instruction index of the label `name`.
    pub fn label(&self, name: &String) -> (r: Option<usize>)
        requires
            self.wf(),
        ensures
            r == if self@.lbls.contains_key(name@) {
                Some(self@.lbls[name@])
            } else {
                None
            },
    {
        match self.lbls.get(name) {
            Some(v) => Some(*v),
            None => None,
        }
    }

    /// The entry index and the formal parameters of the function `name`.
    pub fn func(&self, name: &String) -> (r: Option<&(usize, Vec<String>)>)
        requires
            self.wf(),
        ensures
            match r {
                Some(f) => self@.funcs.contains_key(name@) && self@.funcs[name@] == f.deep_view(),
                None => !self@.funcs.contains_key(name@),
            },
    {
        self.funcs.get(name)
    }

    /// Binds the label `name` to the instruction index `at`.
    pub fn add_label(&mut self, name: String, at: usize)
        requires
            old(self).wf(),
        ensures
            final(self).wf(),
            final(self)@ == (ContextView { lbls: old(self)@.lbls.insert(name@, at), ..old(self)@ }),
    {
        self.lbls.insert(name, at);
    }

    /// Binds the function `name` to its entry index and formal parameters.
    pub fn add_func(&mut self, name: String, at: usize, formals: Vec<String>)
        requires
            old(self).wf(),
        ensures
            final(self).wf(),
            final(self)@ == (ContextView {
                funcs: old(self)@.funcs.insert(name@, (at, formals.deep_view())),
                ..old(self)@
            }),
    {
        self.funcs.insert(name, (at, formals));
    }

    /// Enters a fuzz chain under a name. A chain with a fuzzer that cannot
    /// produce anything is refused and the state stays as it was.
    pub fn add_chain(&mut self, name: &str, chain: FuzzChainImmuts) -> (added: bool)
        requires
            old(self).wf(),
        ensures
            final(self).wf(),
            added == all_usable(chain@),
            final(self)@ == if added {
                ContextView { chains: old(self)@.chains.insert(name@, chain@), ..old(self)@ }
            } else {
                old(self)@
            },
    {
        self.fcrtm.add_chain(name, chain)
    }

    /// The fuzz chain entered under `name`.
    pub fn chain(&self, name: &String) -> (r: Option<&FuzzChainImmuts>)
        requires
            self.wf(),
        ensures
            match r {
                Some(c) => self@.chains.contains_key(name@) && self@.chains[name@] == c@
                    && all_usable(c@),
                None => !self@.chains.contains_key(name@),
            },
    {
        self.fcrtm.fcimmuts(name)
    }

    /// The index of the current instruction.
    pub fn iptr(&self) -> (r: usize)
        ensures
            r == self@.iptr,
    {
        self.iptr
    }

    /// The step that the next record of a fuzz chain is made for.
    pub fn stepu(&self) -> (r: usize)
        ensures
            r == self@.stepu,
    {
        self.stepu
    }

    /// How many calls are under way.
    pub fn depth(&self) -> (r: usize)
        requires
            self.wf(),
        ensures
            r == self@.callstack.len(),
            r == self@.locals.len(),
    {
        self.callstack.len()
    }

    /// Whether a bridge is open under `id`.
    pub fn has_bridge(&self, id: &String) -> (b: bool)
        requires
            self.wf(),
        ensures
            b == self@.iobs.contains_key(id@),
    {
        self.iobs.contains(id)
    }

    /// Records that a bridge is open under `id` at the address `addr`.
    pub fn open_bridge(&mut self, id: String, addr: String)
        requires
            old(self).wf(),
        ensures
            final(self).wf(),
            final(self)@ == (ContextView {
                iobs: old(self)@.iobs.insert(id@, addr@),
                ..old(self)@
            }),
    {
        self.iobs.insert(id, addr);
    }

    /// Records that the bridge under `id` is closed.
    pub fn close_bridge(&mut self, id: &String)
        requires
            old(self).wf(),
        ensures
            final(self).wf(),
            final(self)@ == (ContextView { iobs: old(self)@.iobs.remove(id@), ..old(self)@ }),
    {
        self.iobs.remove(id);
    }

    /// Marks the start of an instruction: unless the instruction says
    /// otherwise, the pointer will move on by one after it.
    pub fn begin_step(&mut self)
        requires
            old(self).wf(),
        ensures
            final(self).wf(),
            final(self)@ == old(self)@.begun(),
    {
        self.iptr_commonupdate = true;
    }

    /// Ends an instruction: the pointer moves on by one unless the
    /// instruction set it.
    pub fn end_step(&mut self)
        requires
            old(self).wf(),
        ensures
            final(self).wf(),
            final(self)@ == old(self)@.ended(),
    {
        if self.iptr_commonupdate && self.iptr < usize::MAX {
            self.iptr = self.iptr + 1;
        }
    }

    /// Moves the pointer to the instruction `at`.
    pub fn jump_to(&mut self, at: usize)
        requires
            old(self).wf(),
        ensures
            final(self).wf(),
            final(self)@ == old(self)@.jumped(at),
    {
        self.iptr = at;
        self.iptr_commonupdate = false;
    }

    /// Enters a function at `at`: the current instruction is pushed as the
    /// place to return to, and `frame` becomes the innermost frame.
    pub fn enter(&mut self, at: usize, frame: NameTable<String>)
        requires
            old(self).wf(),
            frame.wf(),
        ensures
            final(self).wf(),
            final(self)@ == old(self)@.entered(at, frame@),
    {
        self.callstack.push(self.iptr);
        self.locals.push(frame);
        self.iptr = at;
        self.iptr_commonupdate = false;
        assert(self@.locals =~= old(self)@.locals.push(frame@));
    }

    /// Returns from the running function: the pointer goes back to the
    /// calling instruction and the innermost frame is dropped. Without a
    /// call under way nothing changes and `false` comes back.
    pub fn leave(&mut self) -> (done: bool)
        requires
            old(self).wf(),
        ensures
            final(self).wf(),
            done == (old(self)@.callstack.len() > 0),
            final(self)@ == if done {
                old(self)@.returned()
            } else {
                old(self)@
            },
    {
        match self.callstack.pop() {
            Some(at) => {
                self.locals.pop();
                self.iptr = at;
                assert(self@.locals =~= old(self)@.locals.drop_last());
                true
            },
            None => false,
        }
    }

    /// Moves the step counter on by one.
    pub fn bump_step(&mut self)
        requires
            old(self).wf(),
            old(self)@.stepu < usize::MAX,
        ensures
            final(self).wf(),
            final(self)@ == (ContextView { stepu: (old(self)@.stepu + 1) as usize, ..old(self)@ }),
    {
        self.stepu = self.stepu + 1;
    }

    /// Takes in what the host read for the buffer `buf`: the first
    /// `readsize` bytes of `data`, with zeros after them where `data` is
    /// shorter.
    pub fn read_done(&mut self, buf: &str, data: Vec<u8>, readsize: usize)
        requires
            old(self).wf(),
        ensures
            final(self).wf(),
            final(self)@ == old(self)@.with_buf(buf@, resized(data@, readsize)),
    {
        let mut v: Vec<u8> = Vec::new();
        let mut i: usize = 0;
        while i < readsize
            invariant
                i <= readsize,
                v.len() == i,
                forall|j: int|
                    0 <= j < i ==> v@[j] == (if j < data@.len() {
                        data@[j]
                    } else {
                        0u8
                    }),
            decreases readsize - i,
        {
            if i < data.len() {
                v.push(data[i]);
            } else {
                v.push(0);
            }
            i += 1;
        }
        assert(v@ =~= resized(data@, readsize));
        self.varadd_buf(buf, v);
    }
}

} // verus!
