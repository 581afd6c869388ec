//! Line level scanners: white space normalisation and token extraction.
//!
//! Both treat a double quoted region as one unit. Inside such a region a
//! backslash makes the next character ordinary, so `\"` does not close it.

use vstd::prelude::*;
use crate::text::{char_is_whitespace, chars_of, is_whitespace, skip_ws, slice_of, string_of};

pub use crate::hex::{hex_from_vu8, vu8_from_hex};
pub use crate::integer::{intvalue, U8X};

verus! {

/// What the white space normaliser knows after reading a prefix of a line.
pub struct Squeeze {
    /// The normalised text produced so far.
    pub out: Seq<char>,
    /// The previous character was an escaping backslash inside quotes.
    pub esc: bool,
    /// The scanner is inside a double quoted region.
    pub quoted: bool,
    /// The last thing emitted outside quotes was the single space that
    /// stands for a run of white space.
    pub ws: bool,
}

/// The normaliser's reaction to one more character.
pub open spec fn squeeze_step(st: Squeeze, c: char) -> Squeeze {
    if char_is_whitespace(c) {
        if st.quoted {
            Squeeze { out: st.out.push(c), ..st }
        } else if !st.ws {
            Squeeze { out: st.out.push(' '), ws: true, ..st }
        } else {
            st
        }
    } else {
        let out = st.out.push(c);
        if st.esc {
            Squeeze { out, esc: false, quoted: st.quoted, ws: false }
        } else if c == '"' {
            Squeeze { out, esc: false, quoted: !st.quoted, ws: false }
        } else if c == '\\' {
            Squeeze { out, esc: st.quoted, quoted: st.quoted, ws: false }
        } else {
            Squeeze { out, esc: false, quoted: st.quoted, ws: false }
        }
    }
}

/// The normaliser's state after reading all of `s`.
pub open spec fn squeeze(s: Seq<char>) -> Squeeze
    decreases s.len(),
{
    if s.len() == 0 {
        Squeeze { out: Seq::empty(), esc: false, quoted: false, ws: false }
    } else {
        squeeze_step(squeeze(s.drop_last()), s.last())
    }
}

/// `s` with every run of white space outside double quotes replaced by one
/// space, and everything else kept.
pub open spec fn normalized(s: Seq<char>) -> Seq<char> {
    squeeze(s).out
}

/// Replaces each run of white space outside double quoted text by a single
/// space. White space between an opening and a closing double quote is kept
/// as it is; there a backslash protects the character after it.
pub fn remove_extra_whitespaces(ins: &str) -> (outs: String)
    ensures
        outs@ == normalized(ins@),
{
    let incv = chars_of(ins);
    let mut outs = String::new();
    let mut besc = false;
    let mut binquotes = false;
    let mut bwhitespace = false;
    let mut i: usize = 0;
    assert(incv@.take(0) =~= Seq::<char>::empty());
    while i < incv.len()
        invariant
            i <= incv.len(),
            squeeze(incv@.take(i as int)) == (Squeeze {
                out: outs@,
                esc: besc,
                quoted: binquotes,
                ws: bwhitespace,
            }),
        decreases incv.len() - i,
    {
        let c = incv[i];
        assert(incv@.take(i + 1).drop_last() =~= incv@.take(i as int));
        i += 1;
        if is_whitespace(c) {
            if binquotes {
                outs.push(c);
            } else if !bwhitespace {
                bwhitespace = true;
                outs.push(' ');
            }
            continue;
        }
        bwhitespace = false;
        outs.push(c);
        if besc {
            besc = false;
            continue;
        }
        if c == '"' {
            binquotes = !binquotes;
            continue;
        }
        if c == '\\' {
            besc = binquotes;
        }
    }
    assert(incv@.take(incv.len() as int) =~= incv@);
    outs
}

/// Reading the normaliser's own output reproduces it, state and all.
proof fn lemma_squeeze_fixpoint(s: Seq<char>)
    ensures
        squeeze(squeeze(s).out) == squeeze(s),
    decreases s.len(),
{
    if s.len() > 0 {
        let prev = squeeze(s.drop_last());
        let c = s.last();
        lemma_squeeze_fixpoint(s.drop_last());
        let next = squeeze_step(prev, c);
        if next.out != prev.out {
            let e = next.out.last();
            assert(next.out.drop_last() =~= prev.out);
            assert(squeeze(next.out) == squeeze_step(squeeze(prev.out), e));
        }
    }
}

/// Normalising is idempotent: a line that has been normalised is left
/// unchanged by a second pass.
pub proof fn lemma_normalized_idempotent(s: Seq<char>)
    ensures
        normalized(normalized(s)) == normalized(s),
{
    lemma_squeeze_fixpoint(s);
}

/// A character met inside a double quoted region is copied to the output
/// verbatim, be it white space, a backslash, or a quote that a backslash
/// protects.
pub proof fn lemma_normalized_keeps_quoted(s: Seq<char>, i: int)
    requires
        0 <= i < s.len(),
        squeeze(s.take(i)).quoted,
    ensures
        squeeze(s.take(i + 1)).out == squeeze(s.take(i)).out.push(s[i]),
        squeeze(s.take(i)).esc ==> squeeze(s.take(i + 1)).quoted,
{
    assert(s.take(i + 1).drop_last() =~= s.take(i));
}

/// A character that is not white space is always copied to the output,
/// inside quotes and outside.
pub proof fn lemma_normalized_keeps_visible(s: Seq<char>, i: int)
    requires
        0 <= i < s.len(),
        !char_is_whitespace(s[i]),
    ensures
        squeeze(s.take(i + 1)).out == squeeze(s.take(i)).out.push(s[i]),
{
    assert(s.take(i + 1).drop_last() =~= s.take(i));
}

/// Outside quotes a run of white space leaves exactly one space in the
/// output: the first white space character of the run emits it, the
/// others emit nothing.
pub proof fn lemma_normalized_squeezes_runs(s: Seq<char>, i: int)
    requires
        0 <= i < s.len(),
        char_is_whitespace(s[i]),
        !squeeze(s.take(i)).quoted,
    ensures
        squeeze(s.take(i + 1)).out == if squeeze(s.take(i)).ws {
            squeeze(s.take(i)).out
        } else {
            squeeze(s.take(i)).out.push(' ')
        },
        squeeze(s.take(i + 1)).ws,
        i > 0 && char_is_whitespace(s[i - 1]) && !squeeze(s.take(i - 1)).quoted ==> squeeze(
            s.take(i),
        ).ws,
{
    assert(s.take(i + 1).drop_last() =~= s.take(i));
    if i > 0 {
        assert(s.take(i).drop_last() =~= s.take(i - 1));
    }
}

/// The output grows along the input: what was emitted for a prefix stays.
pub proof fn lemma_normalized_prefix(s: Seq<char>, i: int)
    requires
        0 <= i <= s.len(),
    ensures
        squeeze(s.take(i)).out.is_prefix_of(normalized(s)),
    decreases s.len() - i,
{
    if i < s.len() {
        lemma_normalized_prefix(s, i + 1);
        assert(s.take(i + 1).drop_last() =~= s.take(i));
    } else {
        assert(s.take(i) =~= s);
    }
}

/// The index of the first `c` in `s`, or the length of `s` if there is none.
pub open spec fn find(s: Seq<char>, c: char) -> nat
    decreases s.len(),
{
    if s.len() == 0 || s[0] == c {
        0
    } else {
        1 + find(s.drop_first(), c)
    }
}

/// How many characters a quoted token takes after its opening quote: up to
/// and including the first double quote that no backslash protects, or all
/// of `s` if none closes it. `esc` says whether the first character is
/// protected.
pub open spec fn quoted_len(s: Seq<char>, esc: bool) -> nat
    decreases s.len(),
{
    if s.len() == 0 {
        0
    } else if s[0] == '"' && !esc {
        1
    } else {
        1 + quoted_len(s.drop_first(), !esc && s[0] == '\\')
    }
}

/// How many characters of `t`, which starts at a token, make up that token.
pub open spec fn token_len(t: Seq<char>) -> nat {
    if t.len() > 0 && t[0] == '"' {
        1 + quoted_len(t.drop_first(), false)
    } else {
        find(t, ' ')
    }
}

/// The first token of a line: leading white space is skipped; a token that
/// opens with a double quote runs through its closing quote, any other ends
/// before the next space.
pub open spec fn first_token(s: Seq<char>) -> Seq<char> {
    let t = skip_ws(s);
    t.take(token_len(t) as int)
}

/// What follows the first token. The space that ends a bare word is
/// consumed; nothing is consumed after a closing quote.
pub open spec fn after_first_token(s: Seq<char>) -> Seq<char> {
    let t = skip_ws(s);
    let n = token_len(t);
    if t.len() > 0 && t[0] == '"' {
        t.skip(n as int)
    } else if n < t.len() {
        t.skip(n as int + 1)
    } else {
        Seq::empty()
    }
}

proof fn lemma_find_bound(s: Seq<char>, c: char)
    ensures
        find(s, c) <= s.len(),
        find(s, c) < s.len() ==> s[find(s, c) as int] == c,
        forall|j: int| 0 <= j < find(s, c) ==> s[j] != c,
    decreases s.len(),
{
    if s.len() > 0 && s[0] != c {
        lemma_find_bound(s.drop_first(), c);
        assert forall|j: int| 0 <= j < find(s, c) implies s[j] != c by {
            if j > 0 {
                assert(s.drop_first()[j - 1] == s[j]);
            }
        }
    }
}

proof fn lemma_quoted_len_bound(s: Seq<char>, esc: bool)
    ensures
        quoted_len(s, esc) <= s.len(),
    decreases s.len(),
{
    if s.len() > 0 && !(s[0] == '"' && !esc) {
        lemma_quoted_len_bound(s.drop_first(), !esc && s[0] == '\\');
    }
}

/// A token is a piece of the line it was taken from.
pub proof fn lemma_token_len_bound(t: Seq<char>)
    ensures
        token_len(t) <= t.len(),
{
    if t.len() > 0 && t[0] == '"' {
        lemma_quoted_len_bound(t.drop_first(), false);
    } else {
        lemma_find_bound(t, ' ');
    }
}

/// Token and remainder never hold more than the line did, and where the
/// line holds a token at all the remainder is strictly shorter.
pub proof fn lemma_first_token_shrinks(s: Seq<char>)
    ensures
        first_token(s).len() + after_first_token(s).len() <= s.len(),
        first_token(s).len() > 0 ==> after_first_token(s).len() < s.len(),
        s.len() > 0 ==> after_first_token(s).len() < s.len(),
{
    crate::text::lemma_trimmed_len(s);
    lemma_token_len_bound(skip_ws(s));
    let t = skip_ws(s);
    if s.len() > 0 && t.len() == s.len() {
        if t[0] == '"' {
        } else {
            lemma_find_bound(t, ' ');
        }
    }
}

/// Token and remainder are the line after its leading white space, cut in
/// two: nothing is lost but the one space that ends a bare word.
pub proof fn lemma_token_partitions(s: Seq<char>)
    ensures
        ({
            let t = skip_ws(s);
            let tok = first_token(s);
            let rest = after_first_token(s);
            if t.len() > 0 && t[0] == '"' {
                t == tok + rest
            } else if tok.len() < t.len() {
                t == tok + seq![' '] + rest && !tok.contains(' ')
            } else {
                t == tok && rest.len() == 0 && !tok.contains(' ')
            }
        }),
{
    let t = skip_ws(s);
    let tok = first_token(s);
    let rest = after_first_token(s);
    lemma_token_len_bound(t);
    if t.len() > 0 && t[0] == '"' {
        assert(t =~= tok + rest);
    } else {
        lemma_find_bound(t, ' ');
        if tok.len() < t.len() {
            assert(t =~= tok + seq![' '] + rest);
        } else {
            assert(t =~= tok);
        }
        if tok.contains(' ') {
            let j = choose|j: int| 0 <= j < tok.len() && tok[j] == ' ';
            assert(t[j] == ' ');
        }
    }
}

/// Splits the next token off a line. The pair holds the remainder first and
/// the token second. The call always succeeds.
pub fn next_token(ins: &str) -> (r: Result<(String, String), String>)
    ensures
        r is Ok,
        r->Ok_0.0@ == after_first_token(ins@),
        r->Ok_0.1@ == first_token(ins@),
{
    let incv = chars_of(ins);
    let (rest, tok) = next_token_chars(&incv);
    Ok((string_of(&rest), string_of(&tok)))
}

/// `next_token` on characters: the remainder first, the token second.
pub fn next_token_chars(incv: &Vec<char>) -> (r: (Vec<char>, Vec<char>))
    ensures
        r.0@ == after_first_token(incv@),
        r.1@ == first_token(incv@),
{
    let n = incv.len();
    let mut a: usize = 0;
    assert(incv@.subrange(0, n as int) =~= incv@);
    while a < n && is_whitespace(incv[a])
        invariant
            a <= n == incv.len(),
            skip_ws(incv@) == skip_ws(incv@.subrange(a as int, n as int)),
        decreases n - a,
    {
        assert(incv@.subrange(a as int, n as int).drop_first() =~= incv@.subrange(
            a + 1,
            n as int,
        ));
        a += 1;
    }
    let ghost t = incv@.subrange(a as int, n as int);
    assert(skip_ws(incv@) == t);
    proof {
        lemma_token_len_bound(t);
    }
    if a < n && incv[a] == '"' {
        let mut i: usize = a + 1;
        let mut bescmode = false;
        let mut closed = false;
        assert(t.drop_first() =~= incv@.subrange(a + 1, n as int));
        while i < n && !closed
            invariant
                a < i <= n == incv.len(),
                t == incv@.subrange(a as int, n as int),
                !closed ==> quoted_len(t.drop_first(), false) == (i - a - 1) + quoted_len(
                    incv@.subrange(i as int, n as int),
                    bescmode,
                ),
                closed ==> quoted_len(t.drop_first(), false) == i - a - 1,
            decreases n - i,
        {
            let ch = incv[i];
            assert(incv@.subrange(i as int, n as int).drop_first() =~= incv@.subrange(
                i + 1,
                n as int,
            ));
            if ch == '"' && !bescmode {
                closed = true;
            } else if bescmode {
                bescmode = false;
            } else if ch == '\\' {
                bescmode = true;
            }
            i += 1;
        }
        let tok = slice_of(incv, a, i);
        let rest = slice_of(incv, i, n);
        assert(tok@ =~= t.take(token_len(t) as int));
        assert(rest@ =~= t.skip(token_len(t) as int));
        (rest, tok)
    } else {
        let mut i: usize = a;
        assert(t =~= incv@.subrange(i as int, n as int));
        while i < n && incv[i] != ' '
            invariant
                a <= i <= n == incv.len(),
                find(t, ' ') == (i - a) + find(incv@.subrange(i as int, n as int), ' '),
            decreases n - i,
        {
            assert(incv@.subrange(i as int, n as int).drop_first() =~= incv@.subrange(
                i + 1,
                n as int,
            ));
            i += 1;
        }
        let tok = slice_of(incv, a, i);
        assert(tok@ =~= t.take(token_len(t) as int));
        if i < n {
            let rest = slice_of(incv, i + 1, n);
            assert(rest@ =~= t.skip(token_len(t) as int + 1));
            (rest, tok)
        } else {
            (Vec::new(), tok)
        }
    }
}

} // verus!
