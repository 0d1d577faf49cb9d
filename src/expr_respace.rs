//! Re-spacing: lexing the texts of plain tokens joined by single spaces
//! gives the same tokens back.
use vstd::prelude::*;

use crate::expr::{
    ident_token, kind_of, lexed, number_char, op_char, scan, step,
    terminal_char, escaped_at, Kind, ScanState,
};
use crate::expr_laws::lemma_scan_prefix;

verus! {

/// Identifiers, keywords, operators and number literals.
pub open spec fn plain_kind(k: Kind) -> bool {
    k == Kind::Ident || k == Kind::Keyword || k == Kind::Op || k == Kind::IntLit || k
        == Kind::FloatLit
}

/// The shape of a plain token's text: `a` characters that start nothing,
/// then the lexeme proper; `d` is the position of a float's dot.
pub open spec fn body_ok(k: Kind, t: Seq<char>, a: int, d: int) -> bool {
    &&& 0 <= a < t.len()
    &&& forall|i: int| 0 <= i < a ==> kind_of(#[trigger] t[i]) == Kind::Unknown
    &&& if k == Kind::Ident || k == Kind::Keyword {
        kind_of(t[a]) == Kind::Ident && forall|i: int| a < i < t.len() ==> !terminal_char(
            #[trigger] t[i],
        )
    } else if k == Kind::Op {
        (forall|i: int| a <= i < t.len() ==> op_char(#[trigger] t[i])) && (t.len() == a + 1 || (
        t.len() == 2 && a == 0))
    } else if k == Kind::IntLit {
        kind_of(t[a]) == Kind::IntLit && forall|i: int| a < i < t.len() ==> number_char(
            #[trigger] t[i],
        )
    } else if k == Kind::FloatLit {
        &&& a < d < t.len()
        &&& t[d] == '.'
        &&& kind_of(t[a]) == Kind::IntLit
        &&& forall|i: int| a < i < t.len() && i != d ==> number_char(#[trigger] t[i])
    } else {
        false
    }
}

pub open spec fn tok_ok(k: Kind, t: Seq<char>) -> bool {
    exists|a: int, d: int| #[trigger] body_ok(k, t, a, d)
}

/// Every quote inside a string literal's text follows a backslash.
pub open spec fn quote_ok(t: Seq<char>) -> bool {
    forall|i: int| 0 <= i < t.len() && #[trigger] t[i] == '"' ==> i > 0 && t[i - 1] == '\\'
}

/// The text does not end in a backslash, which would escape a closing quote.
pub open spec fn ends_clean(t: Seq<char>) -> bool {
    t.len() == 0 || t.last() != '\\'
}

/// The kinds whose texts can be lexed again.
pub open spec fn respace_kind(k: Kind) -> bool {
    plain_kind(k) || k == Kind::StringLit
}

pub open spec fn lexeme_ok(k: Kind, t: Seq<char>) -> bool {
    if k == Kind::StringLit {
        quote_ok(t)
    } else {
        tok_ok(k, t)
    }
}

/// A token's text as source: a string literal within quotes.
pub open spec fn source_text(t: (Kind, Seq<char>)) -> Seq<char> {
    if t.0 == Kind::StringLit {
        seq!['"'] + t.1 + seq!['"']
    } else {
        t.1
    }
}

/// A token emitted before the end of input is a keyword exactly when its
/// text is a reserved word.
pub open spec fn closed_kind_ok(k: Kind, t: Seq<char>) -> bool {
    (k == Kind::Ident || k == Kind::Keyword) ==> k == ident_token(t).0
}

/// The source texts of `ts`, each followed by a space.
pub open spec fn spaced(ts: Seq<(Kind, Seq<char>)>) -> Seq<char>
    decreases ts.len(),
{
    if ts.len() == 0 {
        seq![]
    } else {
        spaced(ts.drop_last()) + source_text(ts.last()) + seq![' ']
    }
}

/// The source texts of `ts` joined by single spaces.
pub open spec fn respaced(ts: Seq<(Kind, Seq<char>)>) -> Seq<char> {
    if ts.len() == 0 {
        seq![]
    } else {
        spaced(ts.drop_last()) + source_text(ts.last())
    }
}

/// Between two lexemes: after a space, or at the start.
pub open spec fn ready(st: ScanState) -> bool {
    st.kind == Kind::Whitespace || (st.kind == Kind::Unknown && st.buf.len() == 0)
}

pub open spec fn phase(k: Kind, a: int, d: int, j: int) -> Kind {
    if j <= a {
        Kind::Unknown
    } else if k == Kind::Keyword || k == Kind::Ident {
        Kind::Ident
    } else if k == Kind::FloatLit {
        if j <= d {
            Kind::IntLit
        } else {
            Kind::FloatLit
        }
    } else {
        k
    }
}

/// Feeding the first `j` characters of a plain token's text from a ready state.
proof fn lemma_feed(s: Seq<char>, n: nat, k: Kind, t: Seq<char>, a: int, d: int, j: nat)
    requires
        ready(scan(s, n)),
        body_ok(k, t, a, d),
        n + t.len() <= s.len(),
        forall|i: int| 0 <= i < t.len() ==> s[n + i] == #[trigger] t[i],
        1 <= j <= t.len(),
    ensures
        scan(s, n + j) == (ScanState {
            kind: phase(k, a, d, j as int),
            buf: t.take(j as int),
            tokens: scan(s, n).tokens,
        }),
    decreases j,
{
    let st0 = scan(s, n);
    let c = t[j - 1];
    assert(s[n + j - 1] == c);
    if j == 1 {
        assert(t.take(1) =~= seq![c]);
        if st0.kind == Kind::Unknown {
            assert(st0.buf.push(c) =~= seq![c]);
        }
    } else {
        lemma_feed(s, n, k, t, a, d, (j - 1) as nat);
        assert(t.take(j - 1).push(c) =~= t.take(j as int));
        if k == Kind::Op {
            assert(op_char(t[a]));
        }
    }
}

/// A plain token's text followed by a space, from a ready state, emits that
/// token and leaves the scanner ready.
proof fn lemma_token_then_space(s: Seq<char>, n: nat, k: Kind, t: Seq<char>)
    requires
        ready(scan(s, n)),
        tok_ok(k, t),
        closed_kind_ok(k, t),
        n + t.len() + 1 <= s.len(),
        forall|i: int| 0 <= i < t.len() ==> s[n + i] == #[trigger] t[i],
        s[n + t.len() as int] == ' ',
    ensures
        ready(scan(s, n + t.len() + 1)),
        scan(s, n + t.len() + 1).tokens == scan(s, n).tokens.push((k, t)),
{
    let (a, d) = choose|a: int, d: int| #[trigger] body_ok(k, t, a, d);
    lemma_feed(s, n, k, t, a, d, t.len());
    assert(t.take(t.len() as int) =~= t);
    assert(!op_char(' ') && !number_char(' ') && terminal_char(' '));
}

/// A plain token's text at the end of input, from a ready state.
proof fn lemma_token_at_end(s: Seq<char>, n: nat, k: Kind, t: Seq<char>)
    requires
        ready(scan(s, n)),
        tok_ok(k, t),
        k != Kind::Keyword,
        n + t.len() == s.len(),
        forall|i: int| 0 <= i < t.len() ==> s[n + i] == #[trigger] t[i],
    ensures
        lexed(s) == scan(s, n).tokens.push((k, t)),
{
    let (a, d) = choose|a: int, d: int| #[trigger] body_ok(k, t, a, d);
    lemma_feed(s, n, k, t, a, d, t.len());
    assert(t.take(t.len() as int) =~= t);
}

/// Feeding a quote and the first `j` characters of a string literal's text
/// from a ready state.
proof fn lemma_string_feed(s: Seq<char>, n: nat, t: Seq<char>, j: nat)
    requires
        ready(scan(s, n)),
        quote_ok(t),
        n + 1 + t.len() <= s.len(),
        s[n as int] == '"',
        forall|i: int| 0 <= i < t.len() ==> s[n + 1 + i] == #[trigger] t[i],
        j <= t.len(),
    ensures
        scan(s, n + 1 + j) == (ScanState {
            kind: Kind::StringLit,
            buf: t.take(j as int),
            tokens: scan(s, n).tokens,
        }),
    decreases j,
{
    if j == 0 {
        assert(t.take(0) =~= Seq::<char>::empty());
    } else {
        let k = (j - 1) as nat;
        lemma_string_feed(s, n, t, k);
        let c = t[k as int];
        assert(s[n + 1 + k as int] == c);
        if k > 0 {
            assert(s[n + k as int] == t[k - 1]);
        }
        assert(t.take(k as int).push(c) =~= t.take(j as int));
    }
}

/// A string literal's source text from a ready state emits the literal and
/// leaves the scanner ready.
proof fn lemma_string_source(s: Seq<char>, n: nat, t: Seq<char>)
    requires
        ready(scan(s, n)),
        quote_ok(t),
        ends_clean(t),
        n + t.len() + 2 <= s.len(),
        forall|i: int| 0 <= i < t.len() + 2 ==> s[n + i] == #[trigger] source_text((Kind::StringLit, t))[i],
    ensures
        ready(scan(s, n + t.len() + 2)),
        scan(s, n + t.len() + 2).tokens == scan(s, n).tokens.push((Kind::StringLit, t)),
{
    let src = source_text((Kind::StringLit, t));
    assert(s[n as int] == src[0]);
    assert forall|i: int| 0 <= i < t.len() implies s[n + 1 + i] == #[trigger] t[i] by {
        assert(s[n + (1 + i)] == src[1 + i]);
    }
    lemma_string_feed(s, n, t, t.len());
    assert(t.take(t.len() as int) =~= t);
    assert(s[n + 1 + t.len() as int] == src[t.len() as int + 1]);
    if t.len() > 0 {
        assert(s[n + t.len() as int] == src[t.len() as int]);
    }
}

pub open spec fn all_ok(ts: Seq<(Kind, Seq<char>)>) -> bool {
    forall|j: int|
        0 <= j < ts.len() ==> respace_kind((#[trigger] ts[j]).0) && lexeme_ok(ts[j].0, ts[j].1)
            && closed_kind_ok(ts[j].0, ts[j].1) && (ts[j].0 == Kind::StringLit ==> ends_clean(
            ts[j].1,
        ))
}

proof fn lemma_spaced(ts: Seq<(Kind, Seq<char>)>)
    requires
        all_ok(ts),
    ensures
        ready(scan(spaced(ts), spaced(ts).len())),
        scan(spaced(ts), spaced(ts).len()).tokens == ts,
    decreases ts.len(),
{
    if ts.len() == 0 {
        assert(scan(spaced(ts), 0).tokens =~= ts);
    } else {
        let init = ts.drop_last();
        let t = ts.last();
        assert(all_ok(init)) by {
            assert forall|j: int| 0 <= j < init.len() implies respace_kind((#[trigger] init[j]).0)
                && lexeme_ok(init[j].0, init[j].1) && closed_kind_ok(init[j].0, init[j].1) && (
            init[j].0 == Kind::StringLit ==> ends_clean(init[j].1)) by {
                assert(init[j] == ts[j]);
            }
        }
        assert(respace_kind(ts[ts.len() - 1].0));
        lemma_spaced(init);
        let s = spaced(ts);
        let p = spaced(init);
        let n = p.len();
        assert(s == p + source_text(t) + seq![' ']);
        lemma_scan_prefix(p, s, n);
        if t.0 == Kind::StringLit {
            assert forall|i: int| 0 <= i < t.1.len() + 2 implies s[n + i] == #[trigger] source_text(
                (Kind::StringLit, t.1),
            )[i] by {
                assert(s[n + i] == source_text(t)[i]);
            }
            lemma_string_source(s, n, t.1);
            let m = n + t.1.len() + 2;
            assert(s[m as int] == ' ');
        } else {
            lemma_token_then_space(s, n, t.0, t.1);
        }
        assert(init.push(t) =~= ts);
    }
}

/// Lexing the texts of plain tokens joined by single spaces gives the same
/// tokens back, where each token but the last was emitted before the end of
/// input and the last is no keyword.
proof fn lemma_respaced(ts: Seq<(Kind, Seq<char>)>)
    requires
        ts.len() > 0 ==> all_ok(ts.drop_last()),
        ts.len() > 0 ==> respace_kind(ts.last().0) && lexeme_ok(ts.last().0, ts.last().1)
            && ts.last().0 != Kind::Keyword && (ts.last().0 == Kind::StringLit ==> ends_clean(
            ts.last().1,
        )),
    ensures
        lexed(respaced(ts)) == ts,
{
    if ts.len() == 0 {
        assert(lexed(respaced(ts)) =~= ts);
    } else {
        let init = ts.drop_last();
        let t = ts.last();
        lemma_spaced(init);
        let s = respaced(ts);
        let p = spaced(init);
        let n = p.len();
        lemma_scan_prefix(p, s, n);
        if t.0 == Kind::StringLit {
            assert forall|i: int| 0 <= i < t.1.len() + 2 implies s[n + i] == #[trigger] source_text(
                (Kind::StringLit, t.1),
            )[i] by {
                assert(s[n + i] == source_text(t)[i]);
            }
            lemma_string_source(s, n, t.1);
            assert(s.len() == n + t.1.len() + 2);
        } else {
            lemma_token_at_end(s, n, t.0, t.1);
        }
        assert(init.push(t) =~= ts);
    }
}

pub open spec fn emitted_ok(ts: Seq<(Kind, Seq<char>)>) -> bool {
    forall|j: int|
        0 <= j < ts.len() && respace_kind((#[trigger] ts[j]).0) ==> lexeme_ok(ts[j].0, ts[j].1)
            && closed_kind_ok(ts[j].0, ts[j].1)
}

pub open spec fn shape_ok(st: ScanState) -> bool {
    &&& emitted_ok(st.tokens)
    &&& st.kind != Kind::Keyword
    &&& st.kind == Kind::Unknown ==> forall|i: int|
        0 <= i < st.buf.len() ==> kind_of(#[trigger] st.buf[i]) == Kind::Unknown
    &&& (st.kind == Kind::Ident || st.kind == Kind::Op || st.kind == Kind::IntLit || st.kind
        == Kind::FloatLit) ==> tok_ok(st.kind, st.buf)
    &&& st.kind == Kind::StringLit ==> quote_ok(st.buf)
}

proof fn lemma_emit_ok(ts: Seq<(Kind, Seq<char>)>, t: (Kind, Seq<char>))
    requires
        emitted_ok(ts),
        respace_kind(t.0) ==> lexeme_ok(t.0, t.1) && closed_kind_ok(t.0, t.1),
    ensures
        emitted_ok(ts.push(t)),
{
    assert forall|j: int| 0 <= j < ts.push(t).len() && respace_kind((#[trigger] ts.push(t)[j]).0)
        implies lexeme_ok(ts.push(t)[j].0, ts.push(t)[j].1) && closed_kind_ok(
        ts.push(t)[j].0,
        ts.push(t)[j].1,
    ) by {
        if j < ts.len() {
            assert(ts.push(t)[j] == ts[j]);
        }
    }
}

/// A lexeme starting after `b`, all of whose characters start nothing, at `c`.
proof fn lemma_start_shape(b: Seq<char>, c: char)
    requires
        forall|i: int| 0 <= i < b.len() ==> kind_of(#[trigger] b[i]) == Kind::Unknown,
    ensures
        kind_of(c) == Kind::Unknown ==> forall|i: int|
            0 <= i < b.push(c).len() ==> kind_of(#[trigger] b.push(c)[i]) == Kind::Unknown,
        (kind_of(c) == Kind::Ident || kind_of(c) == Kind::Op || kind_of(c) == Kind::IntLit)
            ==> tok_ok(kind_of(c), b.push(c)),
{
    let n = b.push(c);
    assert forall|i: int| 0 <= i < b.len() implies kind_of(#[trigger] n[i]) == Kind::Unknown by {
        assert(n[i] == b[i]);
    }
    if kind_of(c) == Kind::Ident || kind_of(c) == Kind::Op || kind_of(c) == Kind::IntLit {
        assert(body_ok(kind_of(c), n, b.len() as int, 0));
    }
}

proof fn lemma_step_shape(st: ScanState, escaped: bool, c: char)
    requires
        shape_ok(st),
        st.kind == Kind::StringLit && escaped ==> st.buf.len() > 0 && st.buf.last() == '\\',
    ensures
        shape_ok(step(st, escaped, c)),
        step(st, escaped, c).kind == Kind::StringLit && c == '\\' ==> step(st, escaped, c).buf.len()
            > 0 && step(st, escaped, c).buf.last() == '\\',
{
    let next = step(st, escaped, c);
    lemma_start_shape(seq![], c);
    assert(Seq::<char>::empty().push(c) =~= seq![c]);
    match st.kind {
        Kind::Unknown => {
            lemma_start_shape(st.buf, c);
            assert forall|i: int| 0 <= i < st.buf.len() implies #[trigger] st.buf[i] != '"' by {
                assert(kind_of(st.buf[i]) == Kind::Unknown);
            }
        },
        Kind::Ident => {
            let (a, d) = choose|a: int, d: int| #[trigger] body_ok(st.kind, st.buf, a, d);
            if terminal_char(c) {
                assert(body_ok(ident_token(st.buf).0, st.buf, a, d));
                lemma_emit_ok(st.tokens, ident_token(st.buf));
            } else {
                assert(body_ok(next.kind, next.buf, a, d));
            }
        },
        Kind::Op => {
            let (a, d) = choose|a: int, d: int| #[trigger] body_ok(st.kind, st.buf, a, d);
            if st.buf.len() >= 2 || !op_char(c) {
                lemma_emit_ok(st.tokens, (Kind::Op, st.buf));
            } else {
                assert(body_ok(next.kind, next.buf, a, d));
            }
        },
        Kind::IntLit => {
            let (a, d) = choose|a: int, d: int| #[trigger] body_ok(st.kind, st.buf, a, d);
            if number_char(c) {
                assert(body_ok(next.kind, next.buf, a, d));
            } else if c == '.' {
                assert(body_ok(next.kind, next.buf, a, st.buf.len() as int));
            } else {
                lemma_emit_ok(st.tokens, (Kind::IntLit, st.buf));
            }
        },
        Kind::FloatLit => {
            let (a, d) = choose|a: int, d: int| #[trigger] body_ok(st.kind, st.buf, a, d);
            if number_char(c) {
                assert(body_ok(next.kind, next.buf, a, d));
            } else {
                lemma_emit_ok(st.tokens, (Kind::FloatLit, st.buf));
            }
        },
        Kind::StringLit => {
            if c == '"' && !escaped {
                lemma_emit_ok(st.tokens, (Kind::StringLit, st.buf));
            } else {
                assert forall|i: int| 0 <= i < next.buf.len() && #[trigger] next.buf[i] == '"'
                    implies i > 0 && next.buf[i - 1] == '\\' by {
                    if i < st.buf.len() {
                        assert(next.buf[i] == st.buf[i]);
                        assert(next.buf[i - 1] == st.buf[i - 1]);
                    } else {
                        assert(next.buf[i - 1] == st.buf.last());
                    }
                }
            }
        },
        Kind::GroupStart => {
            lemma_emit_ok(st.tokens, (Kind::GroupStart, seq!['(']));
        },
        Kind::GroupEnd => {
            lemma_emit_ok(st.tokens, (Kind::GroupEnd, seq![')']));
        },
        _ => {},
    }
}

proof fn lemma_scan_shape(s: Seq<char>, n: nat)
    requires
        n <= s.len(),
    ensures
        shape_ok(scan(s, n)),
        scan(s, n).kind == Kind::StringLit && escaped_at(s, n as int) ==> scan(s, n).buf.len() > 0
            && scan(s, n).buf.last() == '\\',
    decreases n,
{
    if n > 0 {
        lemma_scan_shape(s, (n - 1) as nat);
        lemma_step_shape(scan(s, (n - 1) as nat), escaped_at(s, n - 1), s[n - 1]);
    }
}

/// Where every token of `s` is an identifier, a keyword, an operator, a
/// number or a string literal, lexing their source texts (a string literal
/// within quotes) joined by single spaces gives the same tokens back, kinds
/// and texts. Left out are a last token that is a keyword, which comes back
/// as an identifier since a reserved word at the end of input is not
/// promoted, and a string literal whose text ends in a backslash, which
/// would escape the closing quote.
pub proof fn lemma_respacing_keeps_tokens(s: Seq<char>)
    requires
        forall|j: int| 0 <= j < lexed(s).len() ==> respace_kind((#[trigger] lexed(s)[j]).0),
        forall|j: int|
            0 <= j < lexed(s).len() && (#[trigger] lexed(s)[j]).0 == Kind::StringLit ==> ends_clean(
                lexed(s)[j].1,
            ),
        lexed(s).len() > 0 ==> lexed(s).last().0 != Kind::Keyword,
    ensures
        lexed(respaced(lexed(s))) == lexed(s),
{
    let ts = lexed(s);
    let st = scan(s, s.len());
    lemma_scan_shape(s, s.len());
    if ts.len() > 0 {
        let init = ts.drop_last();
        assert forall|j: int| 0 <= j < init.len() implies respace_kind((#[trigger] init[j]).0)
            && lexeme_ok(init[j].0, init[j].1) && closed_kind_ok(init[j].0, init[j].1) && (init[j].0
            == Kind::StringLit ==> ends_clean(init[j].1)) by {
            assert(init[j] == ts[j]);
            assert(ts[j] == st.tokens[j]);
        }
        assert(respace_kind(ts[ts.len() - 1].0));
        assert(ts.last().0 == Kind::StringLit ==> ends_clean(ts[ts.len() - 1].1));
    }
    lemma_respaced(ts);
}

} // verus!
