//! Properties of the scanner, proved over its state machine.
use vstd::prelude::*;

use crate::expr::{
    ident_token, kind_of, lemma_scan_kind, lexed, scan, step, terminal_char, escaped_at,
    Kind, ScanState,
};
use crate::text::whitespace;

verus! {

pub open spec fn no_space(t: Seq<char>) -> bool {
    forall|k: int| 0 <= k < t.len() ==> !whitespace(#[trigger] t[k])
}

/// Every whitespace character of `s` is classified as whitespace.
pub open spec fn spaces_classified(s: Seq<char>) -> bool {
    forall|i: int| 0 <= i < s.len() && whitespace(#[trigger] s[i]) ==> kind_of(s[i]) == Kind::Whitespace
}

pub open spec fn tokens_ok(ts: Seq<(Kind, Seq<char>)>, strict: bool) -> bool {
    forall|j: int|
        0 <= j < ts.len() ==> (#[trigger] ts[j]).0 != Kind::Whitespace && (strict && ts[j].0
            != Kind::StringLit ==> no_space(ts[j].1))
}

pub open spec fn state_ok(st: ScanState, strict: bool) -> bool {
    &&& tokens_ok(st.tokens, strict)
    &&& st.kind != Kind::Keyword
    &&& (strict && st.kind != Kind::Whitespace && st.kind != Kind::StringLit) ==> no_space(st.buf)
}

proof fn lemma_push_ok(ts: Seq<(Kind, Seq<char>)>, t: (Kind, Seq<char>), strict: bool)
    requires
        tokens_ok(ts, strict),
        t.0 != Kind::Whitespace,
        strict && t.0 != Kind::StringLit ==> no_space(t.1),
    ensures
        tokens_ok(ts.push(t), strict),
{
    assert forall|j: int| 0 <= j < ts.push(t).len() implies (#[trigger] ts.push(t)[j]).0
        != Kind::Whitespace && (strict && ts.push(t)[j].0 != Kind::StringLit ==> no_space(
        ts.push(t)[j].1,
    )) by {
        if j < ts.len() {
            assert(ts.push(t)[j] == ts[j]);
        }
    }
}

proof fn lemma_step_ok(st: ScanState, escaped: bool, c: char, strict: bool)
    requires
        state_ok(st, strict),
        strict ==> (whitespace(c) ==> kind_of(c) == Kind::Whitespace),
    ensures
        state_ok(step(st, escaped, c), strict),
{
    let next = step(st, escaped, c);
    assert(no_space(seq!['('])) by {
        assert(seq!['('][0] == '(');
    }
    assert(no_space(seq![')'])) by {
        assert(seq![')'][0] == ')');
    }
    assert(no_space(seq![c]) || !strict || kind_of(c) == Kind::Whitespace) by {
        assert(seq![c][0] == c);
    }
    if strict && st.kind != Kind::Whitespace && st.kind != Kind::StringLit && next.buf.len()
        == st.buf.len() + 1 && next.buf == st.buf.push(c) {
        if !whitespace(c) {
            assert forall|k: int| 0 <= k < next.buf.len() implies !whitespace(
                #[trigger] next.buf[k],
            ) by {
                if k < st.buf.len() {
                    assert(next.buf[k] == st.buf[k]);
                }
            }
        }
    }
    match st.kind {
        Kind::Ident => {
            if terminal_char(c) {
                lemma_push_ok(st.tokens, ident_token(st.buf), strict);
            }
        },
        Kind::Op => {
            lemma_push_ok(st.tokens, (Kind::Op, st.buf), strict);
        },
        Kind::StringLit => {
            lemma_push_ok(st.tokens, (Kind::StringLit, st.buf), strict);
        },
        Kind::IntLit => {
            lemma_push_ok(st.tokens, (Kind::IntLit, st.buf), strict);
        },
        Kind::FloatLit => {
            lemma_push_ok(st.tokens, (Kind::FloatLit, st.buf), strict);
        },
        Kind::GroupStart => {
            lemma_push_ok(st.tokens, (Kind::GroupStart, seq!['(']), strict);
        },
        Kind::GroupEnd => {
            lemma_push_ok(st.tokens, (Kind::GroupEnd, seq![')']), strict);
        },
        _ => {},
    }
}

proof fn lemma_scan_ok(s: Seq<char>, n: nat, strict: bool)
    requires
        n <= s.len(),
        strict ==> spaces_classified(s),
    ensures
        state_ok(scan(s, n), strict),
    decreases n,
{
    if n > 0 {
        lemma_scan_ok(s, (n - 1) as nat, strict);
        lemma_step_ok(scan(s, (n - 1) as nat), escaped_at(s, n - 1), s[n - 1], strict);
    }
}

/// No token is ever of kind whitespace, and no token but a string literal
/// holds a whitespace character.
pub proof fn lemma_no_whitespace_tokens(s: Seq<char>)
    ensures
        forall|j: int| 0 <= j < lexed(s).len() ==> (#[trigger] lexed(s)[j]).0 != Kind::Whitespace,
        forall|j: int|
            0 <= j < lexed(s).len() && (#[trigger] lexed(s)[j]).0 != Kind::StringLit
                ==> no_space(lexed(s)[j].1),
{
    lemma_spaces_classified(s);
    lemma_scan_ok(s, s.len(), true);
    let st = scan(s, s.len());
    if st.buf.len() > 0 && st.kind != Kind::Whitespace {
        lemma_push_ok(st.tokens, (st.kind, st.buf), true);
    }
    assert(tokens_ok(lexed(s), true));
}

/// The state after `n` characters depends on those characters alone.
pub proof fn lemma_scan_prefix(s: Seq<char>, t: Seq<char>, n: nat)
    requires
        n <= s.len(),
        n <= t.len(),
        forall|i: int| 0 <= i < n ==> s[i] == t[i],
    ensures
        scan(s, n) == scan(t, n),
    decreases n,
{
    if n > 0 {
        lemma_scan_prefix(s, t, (n - 1) as nat);
        assert(escaped_at(s, n - 1) == escaped_at(t, n - 1));
    }
}

proof fn lemma_word_steps(s: Seq<char>, w: Seq<char>, tokens: Seq<(Kind, Seq<char>)>, m: nat)
    requires
        1 <= m <= w.len(),
        w == seq!['t', 'r', 'u', 'e'] || w == seq!['f', 'a', 'l', 's', 'e'],
        scan(s + w, s.len() + 1) == (ScanState { kind: Kind::Ident, buf: seq![w[0]], tokens }),
    ensures
        scan(s + w, s.len() + m) == (ScanState { kind: Kind::Ident, buf: w.take(m as int), tokens }),
    decreases m,
{
    if m == 1 {
        assert(w.take(1) =~= seq![w[0]]);
    } else {
        let k = (m - 1) as nat;
        lemma_word_steps(s, w, tokens, k);
        assert((s + w)[s.len() + k as int] == w[k as int]);
        assert(!terminal_char(w[k as int]));
        assert(w.take(k as int).push(w[k as int]) =~= w.take(m as int));
    }
}

/// A reserved word at the very end of the input, at its start or after a
/// terminal character that stands outside any string literal, is emitted as
/// an identifier, not a keyword: the end of input does not promote reserved
/// words.
pub proof fn lemma_trailing_reserved_word(s: Seq<char>, w: Seq<char>)
    requires
        w == seq!['t', 'r', 'u', 'e'] || w == seq!['f', 'a', 'l', 's', 'e'],
        s.len() == 0 || (terminal_char(s.last()) && scan(s, (s.len() - 1) as nat).kind
            != Kind::StringLit),
    ensures
        lexed(s + w).len() > 0,
        lexed(s + w).last() == (Kind::Ident, w),
{
    let u = s + w;
    let n = s.len();
    lemma_scan_prefix(s, u, n);
    let st = scan(s, n);
    if n > 0 {
        lemma_scan_kind(s, (n - 1) as nat);
        assert(st.kind == Kind::Whitespace || st.kind == Kind::Op || st.kind == Kind::GroupStart
            || st.kind == Kind::GroupEnd);
    }
    assert(u[n as int] == w[0]);
    let next = scan(u, n + 1);
    assert(next.kind == Kind::Ident && next.buf == seq![w[0]]);
    lemma_word_steps(s, w, next.tokens, w.len());
    assert(w.take(w.len() as int) =~= w);
    assert(u.len() == n + w.len());
}

/// Every whitespace character is classified as whitespace.
pub proof fn lemma_spaces_classified(s: Seq<char>)
    ensures
        spaces_classified(s),
{
}

} // verus!
