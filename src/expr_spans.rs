//! The raw source span of every token: the scanner loses and duplicates no
//! character of its input.
use vstd::prelude::*;

use crate::expr::{
    escaped_at, ident_token, kind_of, lexed, number_char, op_char, scan, step, terminal_char,
    Kind, ScanState,
};

verus! {

/// A token as a pair of kind and text.
pub type TokenView = (Kind, Seq<char>);

/// The raw spans closed so far, each with the token it gave (or `None` where
/// it was discarded), and the raw span still open.
pub struct Trace {
    pub pieces: Seq<Seq<char>>,
    pub marks: Seq<Option<TokenView>>,
    pub raw: Seq<char>,
}

/// The tokens that the marks record, in order.
pub open spec fn emitted(marks: Seq<Option<TokenView>>) -> Seq<TokenView>
    decreases marks.len(),
{
    if marks.len() == 0 {
        seq![]
    } else {
        let before = emitted(marks.drop_last());
        match marks.last() {
            Some(t) => before.push(t),
            None => before,
        }
    }
}

/// A string literal's text is its raw span without the opening quote and
/// without the closing one, where there is one.
pub open spec fn string_span(t: Seq<char>, p: Seq<char>, q: int) -> bool {
    &&& 0 <= q <= t.len()
    &&& (p == t.take(q) + seq!['"'] + t.skip(q) || p == t.take(q) + seq!['"'] + t.skip(q)
        + seq!['"'])
}

/// How a raw span relates to what became of it.
pub open spec fn piece_ok(mark: Option<TokenView>, p: Seq<char>) -> bool {
    match mark {
        None => p == seq!['"'] || (p.len() > 0 && kind_of(p.last()) == Kind::Whitespace),
        Some(t) => if t.0 == Kind::StringLit {
            exists|q: int| #[trigger] string_span(t.1, p, q)
        } else if t.0 == Kind::GroupStart {
            p.len() > 0 && p.last() == '(' && (t.1 == seq!['('] || t.1 == p)
        } else if t.0 == Kind::GroupEnd {
            p.len() > 0 && p.last() == ')' && (t.1 == seq![')'] || t.1 == p)
        } else {
            t.1 == p
        },
    }
}

pub open spec fn close(tr: Trace, mark: Option<TokenView>, next: Seq<char>) -> Trace {
    Trace { pieces: tr.pieces.push(tr.raw), marks: tr.marks.push(mark), raw: next }
}

pub open spec fn extend(tr: Trace, c: char) -> Trace {
    Trace { raw: tr.raw.push(c), ..tr }
}

/// The trace's transition on `c`, taken beside the scanner's from `st`.
pub open spec fn trace_step(st: ScanState, tr: Trace, escaped: bool, c: char) -> Trace {
    match st.kind {
        Kind::Ident => if terminal_char(c) {
            close(tr, Some(ident_token(st.buf)), seq![c])
        } else {
            extend(tr, c)
        },
        Kind::Op => if st.buf.len() >= 2 || !op_char(c) {
            close(tr, Some((Kind::Op, st.buf)), seq![c])
        } else {
            extend(tr, c)
        },
        Kind::StringLit => if c == '"' && !escaped {
            close(extend(tr, c), Some((Kind::StringLit, st.buf)), seq![])
        } else {
            extend(tr, c)
        },
        Kind::IntLit => if number_char(c) || c == '.' {
            extend(tr, c)
        } else {
            close(tr, Some((Kind::IntLit, st.buf)), seq![c])
        },
        Kind::FloatLit => if number_char(c) {
            extend(tr, c)
        } else {
            close(tr, Some((Kind::FloatLit, st.buf)), seq![c])
        },
        Kind::GroupStart => close(tr, Some((Kind::GroupStart, seq!['('])), seq![c]),
        Kind::GroupEnd => close(tr, Some((Kind::GroupEnd, seq![')'])), seq![c]),
        Kind::Whitespace => close(tr, None, seq![c]),
        Kind::Keyword => tr,
        Kind::Unknown => extend(tr, c),
    }
}

/// The trace after the first `n` characters of `s`.
pub open spec fn trace(s: Seq<char>, n: nat) -> Trace
    decreases n,
{
    if n == 0 {
        Trace { pieces: seq![], marks: seq![], raw: seq![] }
    } else {
        trace_step(
            scan(s, (n - 1) as nat),
            trace(s, (n - 1) as nat),
            escaped_at(s, n - 1),
            s[n - 1],
        )
    }
}

/// At the end of input the open span is closed, with the token that the
/// scanner flushes, if any.
pub open spec fn trace_finish(st: ScanState, tr: Trace) -> Trace {
    if tr.raw.len() > 0 {
        close(
            tr,
            if st.buf.len() > 0 && st.kind != Kind::Whitespace {
                Some((st.kind, st.buf))
            } else {
                None
            },
            seq![],
        )
    } else {
        tr
    }
}

/// The raw spans of `s`, each with the token it gave.
pub open spec fn spans(s: Seq<char>) -> Trace {
    trace_finish(scan(s, s.len()), trace(s, s.len()))
}

/// `raw` is `buf` with a quote inserted at `q`.
pub open spec fn quoted(buf: Seq<char>, raw: Seq<char>, q: int) -> bool {
    0 <= q <= buf.len() && raw == buf.take(q) + seq!['"'] + buf.skip(q)
}

/// How the open span relates to the lexeme being accumulated.
pub open spec fn open_ok(st: ScanState, raw: Seq<char>) -> bool {
    if st.kind == Kind::StringLit {
        exists|q: int| #[trigger] quoted(st.buf, raw, q)
    } else if st.kind == Kind::GroupStart {
        raw == st.buf && raw.len() > 0 && raw.last() == '('
    } else if st.kind == Kind::GroupEnd {
        raw == st.buf && raw.len() > 0 && raw.last() == ')'
    } else if st.kind == Kind::Whitespace {
        raw == st.buf && raw.len() > 0 && kind_of(raw.last()) == Kind::Whitespace
    } else {
        raw == st.buf && st.kind != Kind::Keyword
    }
}

pub open spec fn trace_ok(st: ScanState, tr: Trace, consumed: Seq<char>) -> bool {
    &&& tr.pieces.flatten() + tr.raw == consumed
    &&& tr.pieces.len() == tr.marks.len()
    &&& emitted(tr.marks) == st.tokens
    &&& forall|i: int| 0 <= i < tr.pieces.len() ==> piece_ok(#[trigger] tr.marks[i], tr.pieces[i])
    &&& open_ok(st, tr.raw)
}

proof fn lemma_string_piece(t: Seq<char>, p: Seq<char>, q: int)
    requires
        string_span(t, p, q),
    ensures
        piece_ok(Some((Kind::StringLit, t)), p),
{
    let tv: TokenView = (Kind::StringLit, t);
    let m: Option<TokenView> = Some(tv);
    assert(m->0 == tv);
    assert(string_span(tv.1, p, q));
}

proof fn lemma_close(tr: Trace, mark: Option<TokenView>, next: Seq<char>)
    requires
        tr.pieces.len() == tr.marks.len(),
        forall|i: int| 0 <= i < tr.pieces.len() ==> piece_ok(#[trigger] tr.marks[i], tr.pieces[i]),
        piece_ok(mark, tr.raw),
    ensures
        close(tr, mark, next).pieces.flatten() + next == tr.pieces.flatten() + tr.raw + next,
        close(tr, mark, next).pieces.len() == close(tr, mark, next).marks.len(),
        emitted(close(tr, mark, next).marks) == match mark {
            Some(t) => emitted(tr.marks).push(t),
            None => emitted(tr.marks),
        },
        forall|i: int|
            0 <= i < close(tr, mark, next).pieces.len() ==> piece_ok(
                #[trigger] close(tr, mark, next).marks[i],
                close(tr, mark, next).pieces[i],
            ),
{
    let c = close(tr, mark, next);
    tr.pieces.lemma_flatten_push(tr.raw);
    assert(c.marks.drop_last() =~= tr.marks);
    assert forall|i: int| 0 <= i < c.pieces.len() implies piece_ok(
        #[trigger] c.marks[i],
        c.pieces[i],
    ) by {
        if i < tr.pieces.len() {
            assert(c.marks[i] == tr.marks[i]);
            assert(c.pieces[i] == tr.pieces[i]);
        }
    }
}

proof fn lemma_string_open(st: ScanState, raw: Seq<char>, q: int)
    requires
        st.kind == Kind::StringLit,
        quoted(st.buf, raw, q),
    ensures
        open_ok(st, raw),
{
}

proof fn lemma_restart_open(tokens: Seq<TokenView>, c: char)
    ensures
        open_ok(crate::expr::restart(tokens, c), seq![c]),
{
    let st = crate::expr::restart(tokens, c);
    if st.kind == Kind::StringLit {
        assert(seq![c] =~= st.buf.take(0) + seq!['"'] + st.buf.skip(0));
        lemma_string_open(st, seq![c], 0);
    }
}

proof fn lemma_extend_open(st: ScanState, tr: Trace, c: char, next: ScanState)
    requires
        open_ok(st, tr.raw),
        st.kind != Kind::Unknown,
        next.kind == st.kind || (st.kind == Kind::IntLit && next.kind == Kind::FloatLit),
        next.buf == st.buf.push(c),
        st.kind != Kind::GroupStart && st.kind != Kind::GroupEnd && st.kind != Kind::Whitespace,
    ensures
        open_ok(next, tr.raw.push(c)),
{
    if st.kind == Kind::StringLit {
        let q = choose|q: int|
            quoted(st.buf, tr.raw, q);
        assert(tr.raw.push(c) =~= next.buf.take(q) + seq!['"'] + next.buf.skip(q));
        lemma_string_open(next, tr.raw.push(c), q);
    }
}

proof fn lemma_trace_step(st: ScanState, tr: Trace, escaped: bool, c: char, consumed: Seq<char>)
    requires
        trace_ok(st, tr, consumed),
    ensures
        trace_ok(step(st, escaped, c), trace_step(st, tr, escaped, c), consumed.push(c)),
{
    let next = step(st, escaped, c);
    let nt = trace_step(st, tr, escaped, c);
    assert(tr.pieces.flatten() + tr.raw.push(c) =~= consumed.push(c));
    assert(tr.pieces.flatten() + tr.raw + seq![c] =~= consumed.push(c));
    match st.kind {
        Kind::Ident => {
            if terminal_char(c) {
                lemma_close(tr, Some(ident_token(st.buf)), seq![c]);
                lemma_restart_open(st.tokens.push(ident_token(st.buf)), c);
            } else {
                lemma_extend_open(st, tr, c, next);
            }
        },
        Kind::Op => {
            if st.buf.len() >= 2 || !op_char(c) {
                lemma_close(tr, Some((Kind::Op, st.buf)), seq![c]);
                lemma_restart_open(st.tokens.push((Kind::Op, st.buf)), c);
            } else {
                lemma_extend_open(st, tr, c, next);
            }
        },
        Kind::StringLit => {
            if c == '"' && !escaped {
                let q = choose|q: int|
                    quoted(st.buf, tr.raw, q);
                let e = extend(tr, c);
                assert(string_span(st.buf, e.raw, q)) by {
                    assert(e.raw =~= st.buf.take(q) + seq!['"'] + st.buf.skip(q) + seq!['"']);
                }
                lemma_string_piece(st.buf, e.raw, q);
                lemma_close(e, Some((Kind::StringLit, st.buf)), seq![]);
                assert(nt.pieces.flatten() + nt.raw =~= consumed.push(c));
            } else {
                lemma_extend_open(st, tr, c, next);
            }
        },
        Kind::IntLit => {
            if number_char(c) || c == '.' {
                lemma_extend_open(st, tr, c, next);
            } else {
                lemma_close(tr, Some((Kind::IntLit, st.buf)), seq![c]);
                lemma_restart_open(st.tokens.push((Kind::IntLit, st.buf)), c);
            }
        },
        Kind::FloatLit => {
            if number_char(c) {
                lemma_extend_open(st, tr, c, next);
            } else {
                lemma_close(tr, Some((Kind::FloatLit, st.buf)), seq![c]);
                lemma_restart_open(st.tokens.push((Kind::FloatLit, st.buf)), c);
            }
        },
        Kind::GroupStart => {
            lemma_close(tr, Some((Kind::GroupStart, seq!['('])), seq![c]);
            lemma_restart_open(st.tokens.push((Kind::GroupStart, seq!['('])), c);
        },
        Kind::GroupEnd => {
            lemma_close(tr, Some((Kind::GroupEnd, seq![')'])), seq![c]);
            lemma_restart_open(st.tokens.push((Kind::GroupEnd, seq![')'])), c);
        },
        Kind::Whitespace => {
            lemma_close(tr, None, seq![c]);
            lemma_restart_open(st.tokens, c);
        },
        Kind::Keyword => {},
        Kind::Unknown => {
            if kind_of(c) == Kind::StringLit {
                assert(tr.raw.push(c) =~= st.buf.take(st.buf.len() as int) + seq!['"'] + st.buf.skip(
                    st.buf.len() as int,
                ));
                lemma_string_open(next, tr.raw.push(c), st.buf.len() as int);
            }
        },
    }
}

proof fn lemma_trace(s: Seq<char>, n: nat)
    requires
        n <= s.len(),
    ensures
        trace_ok(scan(s, n), trace(s, n), s.take(n as int)),
    decreases n,
{
    if n == 0 {
        assert(s.take(0) =~= seq![]);
        assert(emitted(seq![]) == Seq::<TokenView>::empty());
        assert(Seq::<Seq<char>>::empty().flatten() + Seq::<char>::empty() =~= s.take(0));
    } else {
        let m = (n - 1) as nat;
        lemma_trace(s, m);
        lemma_trace_step(scan(s, m), trace(s, m), escaped_at(s, m as int), s[m as int], s.take(m as int));
        assert(s.take(m as int).push(s[m as int]) =~= s.take(n as int));
    }
}

/// The input is the concatenation of its raw spans, in order, so no
/// character is lost or duplicated. Each span either gave one token, the
/// tokens coming out in the order of their spans, or was discarded: then it
/// ends in a whitespace character or is a lone opening quote at the end. A
/// token's text is its span, but for a string literal, whose text lacks the
/// delimiting quotes, and a bracket, whose text is the bracket alone.
pub proof fn lemma_spans_rebuild_input(s: Seq<char>)
    ensures
        spans(s).pieces.flatten() == s,
        spans(s).pieces.len() == spans(s).marks.len(),
        emitted(spans(s).marks) == lexed(s),
        forall|i: int|
            0 <= i < spans(s).pieces.len() ==> piece_ok(
                #[trigger] spans(s).marks[i],
                spans(s).pieces[i],
            ),
{
    let n = s.len();
    lemma_trace(s, n);
    assert(s.take(n as int) =~= s);
    let st = scan(s, n);
    let tr = trace(s, n);
    if tr.raw.len() > 0 {
        let mark = if st.buf.len() > 0 && st.kind != Kind::Whitespace {
            Some((st.kind, st.buf))
        } else {
            None
        };
        if st.kind == Kind::StringLit {
            let q = choose|q: int|
                quoted(st.buf, tr.raw, q);
            lemma_string_piece(st.buf, tr.raw, q);
            if st.buf.len() == 0 {
                assert(tr.raw =~= seq!['"']);
            }
        }
        assert(piece_ok(mark, tr.raw));
        lemma_close(tr, mark, seq![]);
        assert(spans(s).pieces.flatten() =~= spans(s).pieces.flatten() + Seq::<char>::empty());
        assert(tr.pieces.flatten() + tr.raw =~= tr.pieces.flatten() + tr.raw + Seq::<char>::empty());
    } else {
        assert(tr.pieces.flatten() =~= tr.pieces.flatten() + tr.raw);
        if st.kind == Kind::StringLit {
            let q = choose|q: int|
                quoted(st.buf, tr.raw, q);
            assert((st.buf.take(q) + seq!['"'] + st.buf.skip(q)).len() > 0);
        }
    }
}

} // verus!
