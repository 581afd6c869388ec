//! Character level helpers shared by the scanners and the compiler.
//!
//! Text crosses the public interface as `&str` / `String`; the scanners work
//! on `Vec<char>`, whose view is the same `Seq<char>`.

use vstd::prelude::*;

verus! {

/// Whether `c` is white space: one of the code points that carry the
/// Unicode `White_Space` property.
pub open spec fn char_is_whitespace(c: char) -> bool {
    let u = c as u32;
    ||| 0x09 <= u <= 0x0D
    ||| u == 0x20
    ||| u == 0x85
    ||| u == 0xA0
    ||| u == 0x1680
    ||| 0x2000 <= u <= 0x200A
    ||| u == 0x2028
    ||| u == 0x2029
    ||| u == 0x202F
    ||| u == 0x205F
    ||| u == 0x3000
}

/// Whether `c` is in one of the Unicode numeric categories, as
/// `char::is_numeric` reports it.
pub uninterp spec fn char_is_numeric(c: char) -> bool;

/// Whether `c` carries the Unicode `Alphabetic` property, as
/// `char::is_alphabetic` reports it.
pub uninterp spec fn char_is_alphabetic(c: char) -> bool;

/// Whether `c` is white space.
pub fn is_whitespace(c: char) -> (b: bool)
    ensures
        b == char_is_whitespace(c),
{
    let u: u32 = c as u32;
    (0x09 <= u && u <= 0x0D) || u == 0x20 || u == 0x85 || u == 0xA0 || u == 0x1680 || (0x2000 <= u
        && u <= 0x200A) || u == 0x2028 || u == 0x2029 || u == 0x202F || u == 0x205F || u == 0x3000
}

/// Calls `char::is_numeric`; the answer is a fixed property of the code point.
#[verifier::external_body]
pub(crate) fn is_numeric(c: char) -> (b: bool)
    ensures
        b == char_is_numeric(c),
{
    c.is_numeric()
}

/// Calls `char::is_alphabetic`; the answer is a fixed property of the code
/// point.
#[verifier::external_body]
pub(crate) fn is_alphabetic(c: char) -> (b: bool)
    ensures
        b == char_is_alphabetic(c),
{
    c.is_alphabetic()
}

/// The text that `String::from_utf8_lossy` makes of `bytes`: their UTF-8
/// decoding, with U+FFFD in place of each invalid sequence.
pub uninterp spec fn utf8_lossy(bytes: Seq<u8>) -> Seq<char>;

/// Calls `String::from_utf8_lossy` and takes ownership of the result. The
/// text is a function of the bytes alone.
#[verifier::external_body]
pub(crate) fn string_from_utf8_lossy(bytes: &Vec<u8>) -> (s: String)
    ensures
        s@ == utf8_lossy(bytes@),
{
    String::from_utf8_lossy(bytes).into_owned()
}

/// `String::push` appends exactly the given character.
pub assume_specification[ std::string::String::push ](s: &mut std::string::String, c: char)
    ensures
        final(s)@ == old(s)@.push(c),
;

/// The characters of `s`, in order.
pub fn chars_of(s: &str) -> (v: Vec<char>)
    ensures
        v@ == s@,
{
    let mut v: Vec<char> = Vec::new();
    for c in it: s.chars()
        invariant
            v@ == it.seq().take(it.index() as int),
            it.seq() == s@,
    {
        v.push(c);
    }
    v
}

/// The strings spelled by `parts[from..]`.
pub fn strings_of(parts: &Vec<Vec<char>>, from: usize) -> (r: Vec<String>)
    requires
        from <= parts.len(),
    ensures
        r.deep_view() == views(parts@).skip(from as int),
{
    let mut r: Vec<String> = Vec::new();
    let mut i: usize = from;
    assert(r.deep_view() =~= views(parts@).subrange(from as int, i as int));
    while i < parts.len()
        invariant
            from <= i <= parts.len(),
            r.deep_view() == views(parts@).subrange(from as int, i as int),
        decreases parts.len() - i,
    {
        let ghost before = r.deep_view();
        let s = string_of(&parts[i]);
        r.push(s);
        i += 1;
        assert(r.deep_view() =~= before.push(s@));
        assert(views(parts@).subrange(from as int, i as int) =~= views(parts@).subrange(
            from as int,
            i - 1,
        ).push(parts@[i - 1]@));
    }
    assert(views(parts@).subrange(from as int, parts.len() as int) =~= views(parts@).skip(
        from as int,
    ));
    r
}

/// The string spelled by `v`.
pub fn string_of(v: &Vec<char>) -> (s: String)
    ensures
        s@ == v@,
{
    let mut s = String::new();
    let mut i: usize = 0;
    while i < v.len()
        invariant
            i <= v.len(),
            s@ == v@.take(i as int),
        decreases v.len() - i,
    {
        s.push(v[i]);
        i += 1;
        assert(v@.take(i as int) =~= v@.take(i - 1).push(v@[i - 1]));
    }
    assert(v@.take(v.len() as int) =~= v@);
    s
}

/// A copy of `v[from..to]`.
pub fn slice_of(v: &Vec<char>, from: usize, to: usize) -> (r: Vec<char>)
    requires
        from <= to <= v.len(),
    ensures
        r@ == v@.subrange(from as int, to as int),
{
    let mut r: Vec<char> = Vec::new();
    let mut i: usize = from;
    while i < to
        invariant
            from <= i <= to <= v.len(),
            r@ == v@.subrange(from as int, i as int),
        decreases to - i,
    {
        r.push(v[i]);
        i += 1;
        assert(v@.subrange(from as int, i as int) =~= v@.subrange(from as int, i - 1).push(
            v@[i - 1],
        ));
    }
    r
}

/// `s` without its leading white space.
pub open spec fn skip_ws(s: Seq<char>) -> Seq<char>
    decreases s.len(),
{
    if s.len() > 0 && char_is_whitespace(s[0]) {
        skip_ws(s.drop_first())
    } else {
        s
    }
}

/// `s` without its trailing white space.
pub open spec fn drop_ws_end(s: Seq<char>) -> Seq<char>
    decreases s.len(),
{
    if s.len() > 0 && char_is_whitespace(s.last()) {
        drop_ws_end(s.drop_last())
    } else {
        s
    }
}

/// `s` without leading and trailing white space.
pub open spec fn trimmed(s: Seq<char>) -> Seq<char> {
    drop_ws_end(skip_ws(s))
}

/// Trimming yields a piece of the input, so it never grows.
pub proof fn lemma_trimmed_len(s: Seq<char>)
    ensures
        skip_ws(s).len() <= s.len(),
        drop_ws_end(s).len() <= s.len(),
        trimmed(s).len() <= s.len(),
    decreases s.len(),
{
    if s.len() > 0 {
        lemma_trimmed_len(s.drop_first());
        lemma_trimmed_len(s.drop_last());
    }
    lemma_drop_ws_end_len(skip_ws(s));
}

proof fn lemma_drop_ws_end_len(s: Seq<char>)
    ensures
        drop_ws_end(s).len() <= s.len(),
    decreases s.len(),
{
    if s.len() > 0 {
        lemma_drop_ws_end_len(s.drop_last());
    }
}

/// Removes leading and trailing white space.
pub fn trim(v: &Vec<char>) -> (r: Vec<char>)
    ensures
        r@ == trimmed(v@),
{
    let n = v.len();
    let mut a: usize = 0;
    assert(v@.subrange(0, n as int) =~= v@);
    while a < n && is_whitespace(v[a])
        invariant
            a <= n == v.len(),
            skip_ws(v@) == skip_ws(v@.subrange(a as int, n as int)),
        decreases n - a,
    {
        assert(v@.subrange(a as int, n as int).drop_first() =~= v@.subrange(a + 1, n as int));
        a += 1;
    }
    assert(skip_ws(v@) == v@.subrange(a as int, n as int));
    let mut b: usize = n;
    while b > a && is_whitespace(v[b - 1])
        invariant
            a <= b <= n == v.len(),
            trimmed(v@) == drop_ws_end(v@.subrange(a as int, b as int)),
        decreases b - a,
    {
        assert(v@.subrange(a as int, b as int).drop_last() =~= v@.subrange(a as int, b - 1));
        b -= 1;
    }
    slice_of(v, a, b)
}

/// One step of splitting at `sep`: a separator opens a new part while fewer
/// than `limit` parts exist, every other character joins the last part.
pub open spec fn split_step(parts: Seq<Seq<char>>, c: char, sep: char, limit: nat) -> Seq<
    Seq<char>,
> {
    if c == sep && parts.len() < limit {
        parts.push(Seq::empty())
    } else {
        parts.update(parts.len() - 1, parts.last().push(c))
    }
}

/// `s` cut at occurrences of `sep` into at most `limit` parts, the last part
/// holding whatever remains. There is always at least one part.
pub open spec fn splitn(s: Seq<char>, sep: char, limit: nat) -> Seq<Seq<char>>
    decreases s.len(),
{
    if s.len() == 0 {
        seq![Seq::empty()]
    } else {
        split_step(splitn(s.drop_last(), sep, limit), s.last(), sep, limit)
    }
}

/// `s` cut at every occurrence of `sep`.
pub open spec fn split_all(s: Seq<char>, sep: char) -> Seq<Seq<char>> {
    splitn(s, sep, (s.len() + 1) as nat)
}

/// `s` cut at its first `sep`, if it has one.
pub open spec fn split_once(s: Seq<char>, sep: char) -> Option<(Seq<char>, Seq<char>)> {
    let parts = splitn(s, sep, 2);
    if parts.len() == 2 {
        Some((parts[0], parts[1]))
    } else {
        None
    }
}

/// One step of cutting into words: white space closes the current word, any
/// other character extends it or opens a new one.
pub open spec fn words_step(st: (Seq<Seq<char>>, bool), c: char) -> (Seq<Seq<char>>, bool) {
    if char_is_whitespace(c) {
        (st.0, false)
    } else if st.1 {
        (st.0.update(st.0.len() - 1, st.0.last().push(c)), true)
    } else {
        (st.0.push(seq![c]), true)
    }
}

/// The words of `s` found so far and whether the last one is still open.
pub open spec fn words_scan(s: Seq<char>) -> (Seq<Seq<char>>, bool)
    decreases s.len(),
{
    if s.len() == 0 {
        (Seq::empty(), false)
    } else {
        words_step(words_scan(s.drop_last()), s.last())
    }
}

/// The maximal runs of characters of `s` that are not white space.
pub open spec fn words(s: Seq<char>) -> Seq<Seq<char>> {
    words_scan(s).0
}

/// The views of a list of character vectors.
pub open spec fn views(v: Seq<Vec<char>>) -> Seq<Seq<char>> {
    v.map_values(|x: Vec<char>| x@)
}

proof fn lemma_splitn_shape(s: Seq<char>, sep: char, limit: nat)
    requires
        limit >= 1,
    ensures
        1 <= splitn(s, sep, limit).len() <= limit,
        splitn(s, sep, limit).len() <= s.len() + 1,
    decreases s.len(),
{
    if s.len() > 0 {
        lemma_splitn_shape(s.drop_last(), sep, limit);
    }
}

/// The parts put together again with `sep` between them.
pub open spec fn joined(parts: Seq<Seq<char>>, sep: char) -> Seq<char>
    decreases parts.len(),
{
    if parts.len() == 0 {
        Seq::empty()
    } else if parts.len() == 1 {
        parts[0]
    } else {
        joined(parts.drop_last(), sep) + seq![sep] + parts.last()
    }
}

/// Cutting loses nothing: the parts, put together again with the
/// separator between them, are the text that was cut.
pub proof fn lemma_splitn_joins(s: Seq<char>, sep: char, limit: nat)
    requires
        limit >= 1,
    ensures
        joined(splitn(s, sep, limit), sep) == s,
    decreases s.len(),
{
    if s.len() == 0 {
        assert(joined(splitn(s, sep, limit), sep) =~= s);
    } else {
        let before = splitn(s.drop_last(), sep, limit);
        let after = splitn(s, sep, limit);
        let c = s.last();
        lemma_splitn_joins(s.drop_last(), sep, limit);
        lemma_splitn_shape(s.drop_last(), sep, limit);
        if c == sep && before.len() < limit {
            assert(after.drop_last() =~= before);
            assert(joined(after, sep) =~= s.drop_last().push(c));
        } else {
            if before.len() > 1 {
                assert(after.drop_last() =~= before.drop_last());
                assert(joined(after, sep) =~= joined(before, sep).push(c));
            } else {
                assert(joined(after, sep) =~= joined(before, sep).push(c));
            }
        }
        assert(s.drop_last().push(c) =~= s);
    }
}

/// Where the limit is out of reach, every separator cuts: no part holds
/// one, and there is one part more than there are separators.
pub proof fn lemma_split_all_parts(s: Seq<char>, sep: char, limit: nat)
    requires
        limit > s.len(),
    ensures
        forall|i: int|
            0 <= i < splitn(s, sep, limit).len() ==> !(#[trigger] splitn(s, sep, limit)[i]).contains(
                sep,
            ),
        splitn(s, sep, limit).len() == 1 + s.filter(|c: char| c == sep).len(),
    decreases s.len(),
{
    let is_sep = |c: char| c == sep;
    if s.len() == 0 {
        assert(s.filter(is_sep) =~= Seq::<char>::empty()) by {
            reveal(Seq::filter);
        }
    } else {
        let before = splitn(s.drop_last(), sep, limit);
        let after = splitn(s, sep, limit);
        let c = s.last();
        lemma_split_all_parts(s.drop_last(), sep, limit);
        lemma_splitn_shape(s.drop_last(), sep, limit);
        assert(s.filter(is_sep) == if c == sep {
            s.drop_last().filter(is_sep).push(c)
        } else {
            s.drop_last().filter(is_sep)
        }) by {
            reveal(Seq::filter);
        }
        assert forall|i: int| 0 <= i < after.len() implies !(#[trigger] after[i]).contains(sep) by {
            if c == sep {
                if i < before.len() {
                    assert(after[i] == before[i]);
                } else {
                    assert(after[i] =~= Seq::<char>::empty());
                }
            } else {
                if i < before.len() - 1 {
                    assert(after[i] == before[i]);
                } else {
                    let last = before.last();
                    assert(!last.contains(sep));
                    if after[i].contains(sep) {
                        let j = choose|j: int| 0 <= j < after[i].len() && after[i][j] == sep;
                        assert(last[j] == sep);
                    }
                }
            }
        }
    }
}

/// What is left after trimming neither starts nor ends with white space.
pub proof fn lemma_trimmed_ends(s: Seq<char>)
    ensures
        trimmed(s).len() > 0 ==> !char_is_whitespace(trimmed(s)[0]) && !char_is_whitespace(
            trimmed(s).last(),
        ),
{
    lemma_skip_ws_start(s);
    lemma_drop_ws_end_keeps_start(skip_ws(s));
}

proof fn lemma_skip_ws_start(s: Seq<char>)
    ensures
        skip_ws(s).len() > 0 ==> !char_is_whitespace(skip_ws(s)[0]),
    decreases s.len(),
{
    if s.len() > 0 && char_is_whitespace(s[0]) {
        lemma_skip_ws_start(s.drop_first());
    }
}

proof fn lemma_drop_ws_end_keeps_start(s: Seq<char>)
    ensures
        drop_ws_end(s).len() > 0 ==> !char_is_whitespace(drop_ws_end(s).last()),
        drop_ws_end(s).len() > 0 ==> drop_ws_end(s)[0] == s[0],
    decreases s.len(),
{
    if s.len() > 0 && char_is_whitespace(s.last()) {
        lemma_drop_ws_end_keeps_start(s.drop_last());
    }
}

/// Every word holds a character and none that is white space.
pub proof fn lemma_words_are_clean(s: Seq<char>)
    ensures
        forall|i: int|
            0 <= i < words(s).len() ==> (#[trigger] words(s)[i]).len() > 0 && forall|j: int|
                0 <= j < words(s)[i].len() ==> !char_is_whitespace(#[trigger] words(s)[i][j]),
        words_scan(s).1 ==> words(s).len() > 0,
    decreases s.len(),
{
    if s.len() > 0 {
        let before = words_scan(s.drop_last());
        let after = words_scan(s);
        let c = s.last();
        lemma_words_are_clean(s.drop_last());
        assert forall|i: int| 0 <= i < after.0.len() implies (#[trigger] after.0[i]).len() > 0
            && forall|j: int|
            0 <= j < after.0[i].len() ==> !char_is_whitespace(#[trigger] after.0[i][j]) by {
            if i < before.0.len() && !(before.1 && i == before.0.len() - 1 && !char_is_whitespace(
                c,
            )) {
                assert(after.0[i] == before.0[i]);
            } else if !char_is_whitespace(c) && before.1 {
                let w = before.0.last();
                assert(after.0[i] == w.push(c));
                assert(w == before.0[before.0.len() - 1]);
                assert forall|j: int| 0 <= j < after.0[i].len() implies !char_is_whitespace(
                    #[trigger] after.0[i][j],
                ) by {
                    if j < w.len() {
                        assert(after.0[i][j] == w[j]);
                    }
                }
            }
        }
    }
}

/// The limit that a request for parts stands for: the number given, or one
/// that is never reached.
pub open spec fn limit_of(limit: Option<usize>, len: nat) -> nat {
    match limit {
        Some(l) => l as nat,
        None => len + 1,
    }
}

/// Cuts `v` at `sep`, into at most `limit` parts if a limit is given.
pub fn split_at_most(v: &Vec<char>, sep: char, limit: Option<usize>) -> (r: Vec<Vec<char>>)
    requires
        limit matches Some(l) ==> l >= 1,
    ensures
        views(r@) == splitn(v@, sep, limit_of(limit, v@.len())),
        1 <= r.len(),
        limit matches Some(l) ==> r.len() <= l,
{
    let mut done: Vec<Vec<char>> = Vec::new();
    let mut cur: Vec<char> = Vec::new();
    let mut i: usize = 0;
    let ghost lim = limit_of(limit, v@.len());
    assert(v@.take(0) =~= Seq::<char>::empty());
    assert(views(done@).push(cur@) =~= splitn(v@.take(0), sep, lim));
    while i < v.len()
        invariant
            i <= v.len(),
            lim == limit_of(limit, v@.len()),
            lim >= 1,
            done.len() < lim,
            done.len() <= i,
            views(done@).push(cur@) == splitn(v@.take(i as int), sep, lim),
        decreases v.len() - i,
    {
        let c = v[i];
        proof {
            assert(v@.take(i + 1).drop_last() =~= v@.take(i as int));
            lemma_splitn_shape(v@.take(i as int), sep, lim);
        }
        let ghost before = views(done@).push(cur@);
        let room = match limit {
            Some(l) => done.len() + 1 < l,
            None => true,
        };
        if c == sep && room {
            done.push(cur);
            cur = Vec::new();
            assert(views(done@).push(cur@) =~= before.push(Seq::empty()));
        } else {
            cur.push(c);
            assert(views(done@).push(cur@) =~= before.update(
                before.len() - 1,
                before.last().push(c),
            ));
        }
        i += 1;
    }
    assert(v@.take(v.len() as int) =~= v@);
    let ghost before = views(done@).push(cur@);
    done.push(cur);
    assert(views(done@) =~= before);
    done
}

/// Cuts `v` at every `sep`.
pub fn split_every(v: &Vec<char>, sep: char) -> (r: Vec<Vec<char>>)
    ensures
        views(r@) == split_all(v@, sep),
        r.len() >= 1,
{
    split_at_most(v, sep, None)
}

/// Cuts `v` at its first `sep`.
pub fn split_first(v: &Vec<char>, sep: char) -> (r: Option<(Vec<char>, Vec<char>)>)
    ensures
        match r {
            Some((a, b)) => split_once(v@, sep) == Some((a@, b@)),
            None => split_once(v@, sep) is None,
        },
{
    let mut parts = split_at_most(v, sep, Some(2));
    if parts.len() == 2 {
        let b = parts.pop().unwrap();
        let a = parts.pop().unwrap();
        Some((a, b))
    } else {
        None
    }
}

/// The words of `v`: its maximal runs of characters that are not white space.
pub fn split_words(v: &Vec<char>) -> (r: Vec<Vec<char>>)
    ensures
        views(r@) == words(v@),
{
    let mut done: Vec<Vec<char>> = Vec::new();
    let mut cur: Vec<char> = Vec::new();
    let mut open: bool = false;
    let mut i: usize = 0;
    assert(v@.take(0) =~= Seq::<char>::empty());
    assert(views(done@) =~= Seq::<Seq<char>>::empty());
    while i < v.len()
        invariant
            i <= v.len(),
            open == words_scan(v@.take(i as int)).1,
            open ==> views(done@).push(cur@) == words_scan(v@.take(i as int)).0,
            !open ==> views(done@) == words_scan(v@.take(i as int)).0,
        decreases v.len() - i,
    {
        let c = v[i];
        proof {
            assert(v@.take(i + 1).drop_last() =~= v@.take(i as int));
        }
        let ghost before = words_scan(v@.take(i as int)).0;
        if is_whitespace(c) {
            if open {
                done.push(cur);
                cur = Vec::new();
                assert(views(done@) =~= before);
            }
            open = false;
        } else if open {
            cur.push(c);
            assert(views(done@).push(cur@) =~= before.update(
                before.len() - 1,
                before.last().push(c),
            ));
        } else {
            cur = Vec::new();
            cur.push(c);
            open = true;
            assert(cur@ =~= seq![c]);
        }
        i += 1;
    }
    assert(v@.take(v.len() as int) =~= v@);
    if open {
        let ghost before = views(done@).push(cur@);
        done.push(cur);
        assert(views(done@) =~= before);
    }
    done
}

/// Whether `v` begins with the characters of `prefix`.
pub fn starts_with(v: &Vec<char>, prefix: &str) -> (b: bool)
    ensures
        b == (prefix@.len() <= v@.len() && v@.take(prefix@.len() as int) == prefix@),
{
    let p = chars_of(prefix);
    if p.len() > v.len() {
        return false;
    }
    let mut i: usize = 0;
    while i < p.len()
        invariant
            i <= p.len() <= v.len(),
            p@ == prefix@,
            v@.take(i as int) == p@.take(i as int),
        decreases p.len() - i,
    {
        if v[i] != p[i] {
            assert(v@.take(p.len() as int)[i as int] != p@[i as int]);
            return false;
        }
        i += 1;
        assert(v@.take(i as int) =~= v@.take(i - 1).push(v@[i - 1]));
        assert(p@.take(i as int) =~= p@.take(i - 1).push(p@[i - 1]));
    }
    assert(p@.take(p.len() as int) =~= p@);
    true
}

/// Whether `v` spells exactly `word`.
pub fn spells(v: &Vec<char>, word: &str) -> (b: bool)
    ensures
        b == (v@ == word@),
{
    let p = chars_of(word);
    if p.len() != v.len() {
        return false;
    }
    let mut i: usize = 0;
    while i < p.len()
        invariant
            i <= p.len() == v.len(),
            p@ == word@,
            forall|j: int| 0 <= j < i ==> v@[j] == p@[j],
        decreases p.len() - i,
    {
        if v[i] != p[i] {
            return false;
        }
        i += 1;
    }
    assert(v@ =~= p@);
    true
}

} // verus!
