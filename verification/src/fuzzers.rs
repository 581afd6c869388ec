//! The fuzzers, which produce bytes, and the chains that string several of
//! them together into one record.
//!
//! A fuzzer only ever appends to the buffer it is handed. Where it draws
//! random numbers its contract says which outputs are possible.

use vstd::prelude::*;
use crate::entropy::random_between;
use crate::vm::table::NameTable;

verus! {

/// A generator of bytes.
#[derive(Debug, Clone, PartialEq, Eq)]
pub enum Fuzzer {
    /// Step `s` gives the entry `s mod len` of the list.
    LoopFixedStrings(Vec<Vec<u8>>),
    /// Each step gives an entry of the list picked at random.
    RandomFixedStrings(Vec<Vec<u8>>),
    /// Each step gives between `minlen` and `maxlen` bytes, each picked at
    /// random from `charset`.
    RandomFixedFuzzer { minlen: usize, maxlen: usize, charset: Vec<u8> },
    /// Each step gives between `minlen` and `maxlen` random bytes.
    RandomRandomFuzzer { minlen: usize, maxlen: usize },
}

/// What a `Fuzzer` holds, as mathematics.
pub enum FuzzerView {
    LoopFixedStrings(Seq<Seq<u8>>),
    RandomFixedStrings(Seq<Seq<u8>>),
    RandomFixedFuzzer { minlen: usize, maxlen: usize, charset: Seq<u8> },
    RandomRandomFuzzer { minlen: usize, maxlen: usize },
}

impl DeepView for Fuzzer {
    type V = FuzzerView;

    open spec fn deep_view(&self) -> FuzzerView {
        match self {
            Fuzzer::LoopFixedStrings(l) => FuzzerView::LoopFixedStrings(l.deep_view()),
            Fuzzer::RandomFixedStrings(l) => FuzzerView::RandomFixedStrings(l.deep_view()),
            Fuzzer::RandomFixedFuzzer { minlen, maxlen, charset } => FuzzerView::RandomFixedFuzzer {
                minlen: *minlen,
                maxlen: *maxlen,
                charset: charset@,
            },
            Fuzzer::RandomRandomFuzzer { minlen, maxlen } => FuzzerView::RandomRandomFuzzer {
                minlen: *minlen,
                maxlen: *maxlen,
            },
        }
    }
}

impl View for Fuzzer {
    type V = FuzzerView;

    open spec fn view(&self) -> FuzzerView {
        self.deep_view()
    }
}

/// The printable ASCII characters, 32 to 126.
pub open spec fn printables() -> Seq<u8> {
    Seq::new(95, |i: int| (32 + i) as u8)
}

/// Whether the fuzzer can produce anything: a list must hold an entry, a
/// length range must not be empty, and a character set must hold a byte
/// unless no byte is ever asked of it.
pub open spec fn usable(f: FuzzerView) -> bool {
    match f {
        FuzzerView::LoopFixedStrings(l) => l.len() > 0,
        FuzzerView::RandomFixedStrings(l) => l.len() > 0,
        FuzzerView::RandomFixedFuzzer { minlen, maxlen, charset } => minlen <= maxlen && (
        charset.len() > 0 || maxlen == 0),
        FuzzerView::RandomRandomFuzzer { minlen, maxlen } => minlen <= maxlen,
    }
}

/// Whether the fuzzer may append `out` at the given step.
pub open spec fn may_emit(f: FuzzerView, step: usize, out: Seq<u8>) -> bool {
    match f {
        FuzzerView::LoopFixedStrings(l) => l.len() > 0 && out == l[step as int % l.len() as int],
        FuzzerView::RandomFixedStrings(l) => exists|i: int| 0 <= i < l.len() && out == #[trigger] l[i],
        FuzzerView::RandomFixedFuzzer { minlen, maxlen, charset } => minlen <= out.len() <= maxlen
            && forall|j: int| 0 <= j < out.len() ==> charset.contains(#[trigger] out[j]),
        FuzzerView::RandomRandomFuzzer { minlen, maxlen } => minlen <= out.len() <= maxlen,
    }
}

/// Whether a chain of fuzzers may produce `out` at the given step: `out` is
/// cut into one piece for each fuzzer, in chain order, each piece being one
/// that its fuzzer may emit. The empty chain produces the empty record.
pub open spec fn chain_may_emit(fs: Seq<FuzzerView>, step: usize, out: Seq<u8>) -> bool
    decreases fs.len(),
{
    if fs.len() == 0 {
        out.len() == 0
    } else {
        exists|k: int|
            0 <= k <= out.len() && chain_may_emit(fs.drop_last(), step, out.take(k)) && may_emit(
                fs.last(),
                step,
                #[trigger] out.skip(k),
            )
    }
}

/// A record for a chain is a record for the chain without its last fuzzer,
/// followed by a piece that the last fuzzer may emit.
pub proof fn lemma_chain_extend(fs: Seq<FuzzerView>, step: usize, out: Seq<u8>, k: int)
    requires
        fs.len() > 0,
        0 <= k <= out.len(),
        chain_may_emit(fs.drop_last(), step, out.take(k)),
        may_emit(fs.last(), step, out.skip(k)),
    ensures
        chain_may_emit(fs, step, out),
{
}

fn append_all(buf: &mut Vec<u8>, src: &Vec<u8>)
    ensures
        final(buf)@ == old(buf)@ + src@,
{
    let mut i: usize = 0;
    while i < src.len()
        invariant
            i <= src.len(),
            buf@ == old(buf)@ + src@.take(i as int),
        decreases src.len() - i,
    {
        buf.push(src[i]);
        i += 1;
        assert(src@.take(i as int) =~= src@.take(i - 1).push(src@[i - 1]));
    }
    assert(src@.take(src.len() as int) =~= src@);
}

impl Fuzzer {
    /// A fuzzer of random printable ASCII text.
    pub fn new_printables(minlen: usize, maxlen: usize) -> (f: Fuzzer)
        ensures
            f@ == (FuzzerView::RandomFixedFuzzer { minlen, maxlen, charset: printables() }),
    {
        let mut charset: Vec<u8> = Vec::new();
        let mut c: u8 = 32;
        while c < 127
            invariant
                32 <= c <= 127,
                charset.len() == c - 32,
                forall|i: int| 0 <= i < charset.len() ==> charset@[i] == 32 + i,
            decreases 127 - c,
        {
            charset.push(c);
            c += 1;
        }
        assert(charset@ =~= printables());
        Fuzzer::RandomFixedFuzzer { minlen, maxlen, charset }
    }

    /// Whether the fuzzer can produce anything.
    pub fn is_usable(&self) -> (b: bool)
        ensures
            b == usable(self@),
    {
        match self {
            Fuzzer::LoopFixedStrings(l) => l.len() > 0,
            Fuzzer::RandomFixedStrings(l) => l.len() > 0,
            Fuzzer::RandomFixedFuzzer { minlen, maxlen, charset } => *minlen <= *maxlen && (
            charset.len() > 0 || *maxlen == 0),
            Fuzzer::RandomRandomFuzzer { minlen, maxlen } => *minlen <= *maxlen,
        }
    }

    /// Appends to `buf` what the fuzzer gives at `step`. What `buf` held
    /// stays in front, untouched.
    pub fn append_fuzz_immut(&self, step: usize, buf: &mut Vec<u8>)
        requires
            usable(self@),
        ensures
            old(buf)@.is_prefix_of(final(buf)@),
            may_emit(self@, step, final(buf)@.skip(old(buf)@.len() as int)),
    {
        let ghost pre = buf@;
        match self {
            Fuzzer::LoopFixedStrings(l) => {
                let i = step % l.len();
                append_all(buf, &l[i]);
                assert(buf@.skip(pre.len() as int) =~= l[i as int]@);
                assert(l.deep_view()[i as int] == l[i as int]@);
            },
            Fuzzer::RandomFixedStrings(l) => {
                let i = random_between(0, l.len() - 1);
                append_all(buf, &l[i]);
                assert(buf@.skip(pre.len() as int) =~= l[i as int]@);
                assert(l.deep_view()[i as int] == l[i as int]@);
            },
            Fuzzer::RandomFixedFuzzer { minlen, maxlen, charset } => {
                let n = random_between(*minlen, *maxlen);
                let mut i: usize = 0;
                assert(buf@.skip(pre.len() as int) =~= Seq::<u8>::empty());
                while i < n
                    invariant
                        i <= n <= *maxlen,
                        n > 0 ==> charset.len() > 0,
                        pre.is_prefix_of(buf@),
                        buf@.len() == pre.len() + i,
                        forall|j: int|
                            0 <= j < i ==> charset@.contains(
                                #[trigger] buf@.skip(pre.len() as int)[j],
                            ),
                    decreases n - i,
                {
                    let k = random_between(0, charset.len() - 1);
                    let ghost before = buf@;
                    buf.push(charset[k]);
                    assert(buf@.skip(pre.len() as int) =~= before.skip(pre.len() as int).push(
                        charset@[k as int],
                    ));
                    i += 1;
                }
            },
            Fuzzer::RandomRandomFuzzer { minlen, maxlen } => {
                let n = random_between(*minlen, *maxlen);
                let mut i: usize = 0;
                while i < n
                    invariant
                        i <= n,
                        pre.is_prefix_of(buf@),
                        buf@.len() == pre.len() + i,
                    decreases n - i,
                {
                    buf.push(random_between(0, 255) as u8);
                    i += 1;
                }
            },
        }
    }
}

impl Fuzzer {
    /// Appends to `buf` what the fuzzer gives at `step`, with leave to
    /// change the fuzzer. None of the fuzzers here keeps anything from one
    /// step to the next, so the fuzzer stays as it was.
    pub fn append_fuzz(&mut self, step: usize, buf: &mut Vec<u8>)
        requires
            usable(old(self)@),
        ensures
            final(self)@ == old(self)@,
            old(buf)@.is_prefix_of(final(buf)@),
            may_emit(old(self)@, step, final(buf)@.skip(old(buf)@.len() as int)),
    {
        self.append_fuzz_immut(step, buf);
    }
}

/// A chain of fuzzers that keeps no state: the step is given with each
/// request.
#[derive(Debug, Clone, PartialEq, Eq)]
pub struct FuzzChainImmuts {
    fuzzers: Vec<Fuzzer>,
}

impl DeepView for FuzzChainImmuts {
    type V = Seq<FuzzerView>;

    closed spec fn deep_view(&self) -> Seq<FuzzerView> {
        self.fuzzers.deep_view()
    }
}

impl View for FuzzChainImmuts {
    type V = Seq<FuzzerView>;

    open spec fn view(&self) -> Seq<FuzzerView> {
        self.deep_view()
    }
}

/// Whether every fuzzer of the chain is usable.
pub open spec fn all_usable(fs: Seq<FuzzerView>) -> bool {
    forall|i: int| 0 <= i < fs.len() ==> usable(#[trigger] fs[i])
}

fn chain_get(fuzzers: &Vec<Fuzzer>, step: usize) -> (buf: Vec<u8>)
    requires
        all_usable(fuzzers.deep_view()),
    ensures
        chain_may_emit(fuzzers.deep_view(), step, buf@),
{
    let mut buf: Vec<u8> = Vec::new();
    let mut i: usize = 0;
    let ghost fs = fuzzers.deep_view();
    assert(fs.take(0) =~= Seq::<FuzzerView>::empty());
    while i < fuzzers.len()
        invariant
            i <= fuzzers.len(),
            fs == fuzzers.deep_view(),
            all_usable(fs),
            chain_may_emit(fs.take(i as int), step, buf@),
        decreases fuzzers.len() - i,
    {
        let ghost before = buf@;
        assert(fs[i as int] == fuzzers[i as int]@);
        fuzzers[i].append_fuzz_immut(step, &mut buf);
        proof {
            let next = fs.take(i + 1);
            assert(next.drop_last() =~= fs.take(i as int));
            assert(buf@.take(before.len() as int) =~= before);
            assert(chain_may_emit(next.drop_last(), step, buf@.take(before.len() as int)));
            assert(next.last() == fs[i as int]);
            assert(may_emit(next.last(), step, buf@.skip(before.len() as int)));
            lemma_chain_extend(next, step, buf@, before.len() as int);
        }
        i += 1;
    }
    assert(fs.take(fuzzers.len() as int) =~= fs);
    buf
}

impl FuzzChainImmuts {
    /// A chain without fuzzers.
    pub fn new() -> (c: Self)
        ensures
            c@ == Seq::<FuzzerView>::empty(),
    {
        let c = FuzzChainImmuts { fuzzers: Vec::new() };
        assert(c@ =~= Seq::<FuzzerView>::empty());
        c
    }

    /// Adds a fuzzer at the end of the chain.
    pub fn push(&mut self, f: Fuzzer)
        ensures
            final(self)@ == old(self)@.push(f@),
    {
        self.fuzzers.push(f);
        assert(self@ =~= old(self)@.push(f@));
    }

    /// Whether every fuzzer of the chain can produce something.
    pub fn is_usable(&self) -> (b: bool)
        ensures
            b == all_usable(self@),
    {
        let mut i: usize = 0;
        while i < self.fuzzers.len()
            invariant
                i <= self.fuzzers.len(),
                forall|j: int| 0 <= j < i ==> usable(#[trigger] self@[j]),
            decreases self.fuzzers.len() - i,
        {
            assert(self@[i as int] == self.fuzzers[i as int]@);
            if !self.fuzzers[i].is_usable() {
                return false;
            }
            i += 1;
        }
        true
    }

    /// The record for the given step, in a fresh buffer: the outputs of the
    /// fuzzers in chain order, one after the other.
    pub fn get(&self, step: usize) -> (buf: Vec<u8>)
        requires
            all_usable(self@),
        ensures
            chain_may_emit(self@, step, buf@),
    {
        chain_get(&self.fuzzers, step)
    }
}

/// A chain of fuzzers that counts its own steps, from zero.
#[derive(Debug, Clone, PartialEq, Eq)]
pub struct FuzzChain {
    fuzzers: Vec<Fuzzer>,
    step: usize,
}

impl FuzzChain {
    /// The fuzzers of the chain.
    pub closed spec fn fuzzers(&self) -> Seq<FuzzerView> {
        self.fuzzers.deep_view()
    }

    /// The step that the next record is made for.
    pub closed spec fn step(&self) -> usize {
        self.step
    }

    /// A chain without fuzzers, at step zero.
    pub fn new() -> (c: Self)
        ensures
            c.fuzzers() == Seq::<FuzzerView>::empty(),
            c.step() == 0,
    {
        let c = FuzzChain { fuzzers: Vec::new(), step: 0 };
        assert(c.fuzzers() =~= Seq::<FuzzerView>::empty());
        c
    }

    /// Adds a fuzzer at the end of the chain.
    pub fn push(&mut self, f: Fuzzer)
        ensures
            final(self).fuzzers() == old(self).fuzzers().push(f@),
            final(self).step() == old(self).step(),
    {
        self.fuzzers.push(f);
        assert(self.fuzzers() =~= old(self).fuzzers().push(f@));
    }

    /// The record for the current step, in a fresh buffer; the chain then
    /// moves on by one step. After step `usize::MAX` it starts over.
    pub fn get(&mut self) -> (buf: Vec<u8>)
        requires
            all_usable(old(self).fuzzers()),
        ensures
            chain_may_emit(old(self).fuzzers(), old(self).step(), buf@),
            final(self).fuzzers() == old(self).fuzzers(),
            final(self).step() == if old(self).step() == usize::MAX {
                0
            } else {
                old(self).step() + 1
            },
    {
        let buf = chain_get(&self.fuzzers, self.step);
        self.step = if self.step == usize::MAX {
            0
        } else {
            self.step + 1
        };
        buf
    }
}

/// The registry of fuzz chains that a program draws from by name.
pub struct RunTimeManager {
    chains: NameTable<FuzzChainImmuts>,
}

impl RunTimeManager {
    /// The chains by name.
    pub closed spec fn chains(&self) -> Map<Seq<char>, Seq<FuzzerView>> {
        self.chains@
    }

    /// Every chain is entered once and can produce its record.
    pub closed spec fn wf(&self) -> bool {
        &&& self.chains.wf()
        &&& forall|k: Seq<char>| #[trigger]
            self.chains@.contains_key(k) ==> all_usable(self.chains@[k])
    }

    /// What `wf` says of the chains.
    pub proof fn lemma_wf(&self)
        requires
            self.wf(),
        ensures
            forall|k: Seq<char>| #[trigger]
                self.chains().contains_key(k) ==> all_usable(self.chains()[k]),
    {
    }

    /// A registry without chains.
    pub fn new() -> (r: Self)
        ensures
            r.wf(),
            r.chains() == Map::<Seq<char>, Seq<FuzzerView>>::empty(),
    {
        RunTimeManager { chains: NameTable::new() }
    }

    /// Enters a chain under a name, in place of an earlier one of that
    /// name. A chain with a fuzzer that cannot produce anything is refused
    /// and the registry stays as it was.
    pub fn add_chain(&mut self, name: &str, chain: FuzzChainImmuts) -> (added: bool)
        requires
            old(self).wf(),
        ensures
            final(self).wf(),
            added == all_usable(chain@),
            final(self).chains() == if added {
                old(self).chains().insert(name@, chain@)
            } else {
                old(self).chains()
            },
    {
        if chain.is_usable() {
            self.chains.insert(name.to_owned(), chain);
            true
        } else {
            false
        }
    }

    /// The chain entered under a name.
    pub fn fcimmuts(&self, name: &String) -> (r: Option<&FuzzChainImmuts>)
        requires
            self.wf(),
        ensures
            match r {
                Some(c) => self.chains().contains_key(name@) && self.chains()[name@] == c@
                    && all_usable(c@),
                None => !self.chains().contains_key(name@),
            },
    {
        self.chains.get(name)
    }
}

} // verus!
