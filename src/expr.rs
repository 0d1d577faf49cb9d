//! A single-pass scanner that turns rule-expression text into tokens.
use vstd::prelude::*;

use crate::text::{
    alphabetic, char_is_alphabetic, is_digit,
    char_is_whitespace, chars_of, numeric, same_chars, string_of, whitespace,
};

verus! {

/// The category of a token, or of the lexeme being accumulated.
#[derive(Debug, Clone, Copy, PartialEq, Eq, Structural)]
pub enum Kind {
    Ident,
    Keyword,
    StringLit,
    IntLit,
    FloatLit,
    Op,
    GroupStart,
    GroupEnd,
    Whitespace,
    Unknown,
}

/// A lexeme together with its kind.
#[derive(Debug)]
pub struct Token {
    pub kind: Kind,
    pub val: String,
}

impl View for Token {
    type V = (Kind, Seq<char>);

    open spec fn view(&self) -> (Kind, Seq<char>) {
        (self.kind, self.val@)
    }
}

impl Token {
    pub fn new(kind: Kind, val: String) -> (r: Token)
        ensures
            r.kind == kind,
            r.val@ == val@,
    {
        Token { kind, val }
    }
}

/// The views of a sequence of tokens.
pub open spec fn token_views(ts: Seq<Token>) -> Seq<(Kind, Seq<char>)> {
    ts.map_values(|t: Token| t@)
}

// ----- character classes -----

pub open spec fn ident_char(c: char, is_start: bool) -> bool {
    if is_start {
        alphabetic(c) || c == '_'
    } else {
        alphabetic(c) || numeric(c) || c == '_'
    }
}

pub open spec fn op_char(c: char) -> bool {
    c == '=' || c == '!' || c == '&' || c == '|' || c == '>' || c == '<'
}

/// A character that ends an identifier or a number.
pub open spec fn terminal_char(c: char) -> bool {
    whitespace(c) || op_char(c) || c == '(' || c == ')'
}

/// A character that continues a number.
pub open spec fn number_char(c: char) -> bool {
    numeric(c) || c == '_'
}

/// The kind that a character starts, first match wins.
pub open spec fn kind_of(c: char) -> Kind {
    if ident_char(c, true) {
        Kind::Ident
    } else if c == '"' {
        Kind::StringLit
    } else if numeric(c) {
        Kind::IntLit
    } else if op_char(c) {
        Kind::Op
    } else if c == '(' {
        Kind::GroupStart
    } else if c == ')' {
        Kind::GroupEnd
    } else if whitespace(c) {
        Kind::Whitespace
    } else {
        Kind::Unknown
    }
}

pub open spec fn keyword_text(s: Seq<char>) -> bool {
    s == seq!['t', 'r', 'u', 'e'] || s == seq!['f', 'a', 'l', 's', 'e']
}

fn is_allowed_ident(ch: char, is_start: bool) -> (r: bool)
    ensures
        r == ident_char(ch, is_start),
{
    if is_start {
        char_is_alphabetic(ch) || ch == '_'
    } else {
        char_is_alphabetic(ch) || is_digit(ch) || ch == '_'
    }
}

fn is_terminal(ch: char) -> (r: bool)
    ensures
        r == terminal_char(ch),
        r == (kind_of(ch) == Kind::Op || kind_of(ch) == Kind::GroupStart || kind_of(ch)
            == Kind::GroupEnd || kind_of(ch) == Kind::Whitespace),
{
    char_is_whitespace(ch) || is_op(ch) || ch == '(' || ch == ')'
}

fn is_op(ch: char) -> (r: bool)
    ensures
        r == op_char(ch),
{
    match ch {
        '=' => true,
        '!' => true,
        '&' => true,
        '|' => true,
        '>' => true,
        '<' => true,
        _ => false,
    }
}

fn get_kind(ch: char) -> (r: Kind)
    ensures
        r == kind_of(ch),
{
    if is_allowed_ident(ch, true) {
        return Kind::Ident;
    }
    if ch == '"' {
        return Kind::StringLit;
    }
    if is_digit(ch) {
        return Kind::IntLit;
    }
    if is_op(ch) {
        return Kind::Op;
    }
    if ch == '(' {
        return Kind::GroupStart;
    }
    if ch == ')' {
        return Kind::GroupEnd;
    }
    if char_is_whitespace(ch) {
        return Kind::Whitespace;
    }
    Kind::Unknown
}

fn is_keyword(word: &Vec<char>) -> (r: bool)
    ensures
        r == keyword_text(word@),
{
    let t = vec!['t', 'r', 'u', 'e'];
    let f = vec!['f', 'a', 'l', 's', 'e'];
    same_chars(word, &t) || same_chars(word, &f)
}

fn is_number(ch: char) -> (r: bool)
    ensures
        r == number_char(ch),
{
    is_digit(ch) || ch == '_'
}

// ----- the scanner as a state machine -----

/// What the scanner holds between two characters.
pub struct ScanState {
    /// The kind of the lexeme being accumulated.
    pub kind: Kind,
    /// The lexeme accumulated so far.
    pub buf: Seq<char>,
    /// The tokens emitted so far.
    pub tokens: Seq<(Kind, Seq<char>)>,
}

pub open spec fn initial_state() -> ScanState {
    ScanState { kind: Kind::Unknown, buf: seq![], tokens: seq![] }
}

/// Starts a new lexeme at `c`; the opening quote of a string is not kept.
pub open spec fn restart(tokens: Seq<(Kind, Seq<char>)>, c: char) -> ScanState {
    let k = kind_of(c);
    ScanState { kind: k, buf: if k == Kind::StringLit { seq![] } else { seq![c] }, tokens }
}

/// An identifier lexeme that is a reserved word becomes a keyword.
pub open spec fn ident_token(buf: Seq<char>) -> (Kind, Seq<char>) {
    (if keyword_text(buf) { Kind::Keyword } else { Kind::Ident }, buf)
}

/// One transition on character `c`; `escaped` tells whether the character
/// before `c` is a backslash.
pub open spec fn step(st: ScanState, escaped: bool, c: char) -> ScanState {
    match st.kind {
        Kind::Ident => if terminal_char(c) {
            restart(st.tokens.push(ident_token(st.buf)), c)
        } else {
            ScanState { buf: st.buf.push(c), ..st }
        },
        Kind::Op => if st.buf.len() >= 2 || !op_char(c) {
            restart(st.tokens.push((Kind::Op, st.buf)), c)
        } else {
            ScanState { buf: st.buf.push(c), ..st }
        },
        Kind::StringLit => if c == '"' && !escaped {
            ScanState {
                kind: Kind::Unknown,
                buf: seq![],
                tokens: st.tokens.push((Kind::StringLit, st.buf)),
            }
        } else {
            ScanState { buf: st.buf.push(c), ..st }
        },
        Kind::IntLit => if number_char(c) {
            ScanState { buf: st.buf.push(c), ..st }
        } else if c == '.' {
            ScanState { kind: Kind::FloatLit, buf: st.buf.push(c), ..st }
        } else {
            restart(st.tokens.push((Kind::IntLit, st.buf)), c)
        },
        Kind::FloatLit => if number_char(c) {
            ScanState { buf: st.buf.push(c), ..st }
        } else {
            restart(st.tokens.push((Kind::FloatLit, st.buf)), c)
        },
        Kind::GroupStart => restart(st.tokens.push((Kind::GroupStart, seq!['('])), c),
        Kind::GroupEnd => restart(st.tokens.push((Kind::GroupEnd, seq![')'])), c),
        Kind::Whitespace => restart(st.tokens, c),
        Kind::Keyword => st,
        Kind::Unknown => {
            let k = kind_of(c);
            ScanState { kind: k, buf: if k == Kind::StringLit { st.buf } else { st.buf.push(c) }, ..st }
        },
    }
}

/// Whether the character at `i` follows a backslash.
pub open spec fn escaped_at(s: Seq<char>, i: int) -> bool {
    i > 0 && s[i - 1] == '\\'
}

/// The state after the first `n` characters of `s`.
pub open spec fn scan(s: Seq<char>, n: nat) -> ScanState
    decreases n,
{
    if n == 0 {
        initial_state()
    } else {
        step(scan(s, (n - 1) as nat), escaped_at(s, n - 1), s[n - 1])
    }
}

/// At the end of input a non-empty lexeme is emitted with the kind it has,
/// with no keyword promotion; accumulated whitespace is dropped.
pub open spec fn finish(st: ScanState) -> Seq<(Kind, Seq<char>)> {
    if st.buf.len() > 0 && st.kind != Kind::Whitespace {
        st.tokens.push((st.kind, st.buf))
    } else {
        st.tokens
    }
}

/// The tokens of `s`.
pub open spec fn lexed(s: Seq<char>) -> Seq<(Kind, Seq<char>)> {
    finish(scan(s, s.len()))
}

/// The scanner never rests in the keyword state.
pub proof fn lemma_scan_kind(s: Seq<char>, n: nat)
    requires
        n <= s.len(),
    ensures
        scan(s, n).kind != Kind::Keyword,
    decreases n,
{
    if n > 0 {
        lemma_scan_kind(s, (n - 1) as nat);
    }
}

// ----- the scanner -----

/// Appends a token holding a copy of `text`.
fn emit(tokens: &mut Vec<Token>, kind: Kind, text: &Vec<char>)
    ensures
        token_views(final(tokens)@) == token_views(old(tokens)@).push((kind, text@)),
{
    let t = Token::new(kind, string_of(text));
    tokens.push(t);
    assert(token_views(tokens@) =~= token_views(old(tokens)@).push((kind, text@)));
}

/// The kind and the lexeme that a new lexeme starting at `ch` begins with.
fn start_at(ch: char) -> (r: (Kind, Vec<char>))
    ensures
        r.0 == restart(seq![], ch).kind,
        r.1@ == restart(seq![], ch).buf,
{
    let kind = get_kind(ch);
    let mut buf: Vec<char> = Vec::new();
    if kind != Kind::StringLit {
        buf.push(ch);
    }
    (kind, buf)
}

/// Splits `input` into tokens, in the order of their lexemes. Whitespace is
/// dropped; a string literal's text leaves out its quotes and keeps any
/// backslash; a reserved word is a keyword only where a character after it
/// closes it, not at the end of input.
pub fn lex(input: &str) -> (tokens: Vec<Token>)
    ensures
        token_views(tokens@) == lexed(input@),
{
    let chars = chars_of(input);
    let mut tokens: Vec<Token> = Vec::new();
    let mut kind = Kind::Unknown;
    let mut buf: Vec<char> = Vec::new();
    let mut last: char = ' ';
    let mut i: usize = 0;
    assert(token_views(tokens@) =~= seq![]);
    while i < chars.len()
        invariant
            chars@ == input@,
            i <= chars@.len(),
            kind == scan(input@, i as nat).kind,
            buf@ == scan(input@, i as nat).buf,
            token_views(tokens@) == scan(input@, i as nat).tokens,
            i > 0 ==> last == input@[i - 1],
        decreases chars@.len() - i,
    {
        let ch = chars[i];
        let escaped = i > 0 && last == '\\';
        proof {
            lemma_scan_kind(input@, i as nat);
        }
        match kind {
            Kind::Ident => {
                if is_terminal(ch) {
                    let k = if is_keyword(&buf) {
                        Kind::Keyword
                    } else {
                        Kind::Ident
                    };
                    emit(&mut tokens, k, &buf);
                    let (k, b) = start_at(ch);
                    kind = k;
                    buf = b;
                } else {
                    buf.push(ch);
                }
            },
            Kind::Op => {
                if buf.len() >= 2 || !is_op(ch) {
                    emit(&mut tokens, kind, &buf);
                    let (k, b) = start_at(ch);
                    kind = k;
                    buf = b;
                } else {
                    buf.push(ch);
                }
            },
            Kind::StringLit => {
                if ch == '"' && !escaped {
                    emit(&mut tokens, kind, &buf);
                    buf = Vec::new();
                    kind = Kind::Unknown;
                } else {
                    buf.push(ch);
                }
            },
            Kind::IntLit => {
                if is_number(ch) {
                    buf.push(ch);
                } else if ch == '.' {
                    kind = Kind::FloatLit;
                    buf.push(ch);
                } else {
                    emit(&mut tokens, kind, &buf);
                    let (k, b) = start_at(ch);
                    kind = k;
                    buf = b;
                }
            },
            Kind::FloatLit => {
                if is_number(ch) {
                    buf.push(ch);
                } else {
                    emit(&mut tokens, kind, &buf);
                    let (k, b) = start_at(ch);
                    kind = k;
                    buf = b;
                }
            },
            Kind::GroupStart => {
                let bracket = vec!['('];
                assert(bracket@ =~= seq!['(']);
                emit(&mut tokens, kind, &bracket);
                let (k, b) = start_at(ch);
                kind = k;
                buf = b;
            },
            Kind::GroupEnd => {
                let bracket = vec![')'];
                assert(bracket@ =~= seq![')']);
                emit(&mut tokens, kind, &bracket);
                let (k, b) = start_at(ch);
                kind = k;
                buf = b;
            },
            Kind::Whitespace => {
                let (k, b) = start_at(ch);
                kind = k;
                buf = b;
            },
            Kind::Keyword => {
                proof {
                    assert(false);
                }
            },
            Kind::Unknown => {
                kind = get_kind(ch);
                if kind != Kind::StringLit {
                    buf.push(ch);
                }
            },
        }
        last = ch;
        i = i + 1;
        proof {
            assert(input@[i - 1] == ch);
        }
    }
    if buf.len() > 0 && kind != Kind::Whitespace {
        emit(&mut tokens, kind, &buf);
    }
    tokens
}

} // verus!
