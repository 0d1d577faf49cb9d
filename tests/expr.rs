use togglr::expr::{lex, Kind, Token};

fn pairs(tokens: &[Token]) -> Vec<(Kind, String)> {
    tokens.iter().map(|t| (t.kind, t.val.clone())).collect()
}

fn tok(kind: Kind, val: &str) -> (Kind, String) {
    (kind, String::from(val))
}

#[test]
fn lex_simple_expr() {
    let input = "userType == \"admin\"";
    let tokens = lex(&input);

    assert!(tokens.len() == 3);
    assert!(matches!(tokens[0].kind, Kind::Ident));
    assert!(matches!(tokens[1].kind, Kind::Op));
    assert!(matches!(tokens[2].kind, Kind::StringLit));
}

#[test]
fn lex_numbers() {
    let input = "age > 18 && bill < 1_000.25";
    let tokens = lex(&input);
    let expected_kinds = vec![
        Kind::Ident,
        Kind::Op,
        Kind::IntLit,
        Kind::Op,
        Kind::Ident,
        Kind::Op,
        Kind::FloatLit,
    ];

    assert!(tokens.len() == expected_kinds.len());

    for (idx, expected) in expected_kinds.into_iter().enumerate() {
        assert_eq!(tokens[idx].kind, expected);
    }
}

#[test]
fn lex_group_expr() {
    let input = "userType == \"admin\" && (flag == true || otherFlag == false)";
    let tokens = lex(&input);
    println!("Tokens: {:?}", tokens);
    let expected_kinds = vec![
        Kind::Ident,      // userType
        Kind::Op,         // ==
        Kind::StringLit,  // admin
        Kind::Op,         // &&
        Kind::GroupStart, // (
        Kind::Ident,      // flag
        Kind::Op,         // ==
        Kind::Keyword,    // true
        Kind::Op,         // ||
        Kind::Ident,      // otherFlag
        Kind::Op,         // ==
        Kind::Keyword,    // false
        Kind::GroupEnd,   // )
    ];

    for (idx, expected) in expected_kinds.into_iter().enumerate() {
        assert_eq!(tokens[idx].kind, expected);
    }
}

#[test]
fn empty_input_gives_no_tokens() {
    assert!(lex("").is_empty());
}

#[test]
fn simple_expr_texts() {
    let tokens = lex("userType == \"admin\"");
    assert_eq!(
        pairs(&tokens),
        vec![
            tok(Kind::Ident, "userType"),
            tok(Kind::Op, "=="),
            tok(Kind::StringLit, "admin"),
        ]
    );
}

#[test]
fn numbers_texts() {
    let tokens = lex("age > 18 && bill < 1_000.25");
    assert_eq!(
        pairs(&tokens),
        vec![
            tok(Kind::Ident, "age"),
            tok(Kind::Op, ">"),
            tok(Kind::IntLit, "18"),
            tok(Kind::Op, "&&"),
            tok(Kind::Ident, "bill"),
            tok(Kind::Op, "<"),
            tok(Kind::FloatLit, "1_000.25"),
        ]
    );
}

#[test]
fn group_texts() {
    let tokens = lex("(flag == true)");
    assert_eq!(
        pairs(&tokens),
        vec![
            tok(Kind::GroupStart, "("),
            tok(Kind::Ident, "flag"),
            tok(Kind::Op, "=="),
            tok(Kind::Keyword, "true"),
            tok(Kind::GroupEnd, ")"),
        ]
    );
}

#[test]
fn escaped_quote_does_not_end_string() {
    let tokens = lex("\"a\\\"b\"");
    assert_eq!(pairs(&tokens), vec![tok(Kind::StringLit, "a\\\"b")]);
}

#[test]
fn unterminated_string_is_flushed() {
    let tokens = lex("x == \"ab c");
    assert_eq!(
        pairs(&tokens),
        vec![tok(Kind::Ident, "x"), tok(Kind::Op, "=="), tok(Kind::StringLit, "ab c")]
    );
}

#[test]
fn string_right_after_operator_drops_quote() {
    let tokens = lex("a==\"b\"");
    assert_eq!(
        pairs(&tokens),
        vec![tok(Kind::Ident, "a"), tok(Kind::Op, "=="), tok(Kind::StringLit, "b")]
    );
}

#[test]
fn trailing_reserved_word_stays_identifier() {
    let tokens = lex("flag == true");
    assert_eq!(
        pairs(&tokens),
        vec![tok(Kind::Ident, "flag"), tok(Kind::Op, "=="), tok(Kind::Ident, "true")]
    );
    assert_eq!(pairs(&lex("false")), vec![tok(Kind::Ident, "false")]);
}

#[test]
fn reserved_word_before_terminal_is_keyword() {
    assert_eq!(pairs(&lex("false ")), vec![tok(Kind::Keyword, "false")]);
    assert_eq!(pairs(&lex("true)")), vec![tok(Kind::Keyword, "true"), tok(Kind::GroupEnd, ")")]);
    assert_eq!(pairs(&lex("True ")), vec![tok(Kind::Ident, "True")]);
}

#[test]
fn operators_combine_two_at_most() {
    assert_eq!(
        pairs(&lex("a===b")),
        vec![
            tok(Kind::Ident, "a"),
            tok(Kind::Op, "=="),
            tok(Kind::Op, "="),
            tok(Kind::Ident, "b"),
        ]
    );
    assert_eq!(pairs(&lex("!x")), vec![tok(Kind::Op, "!"), tok(Kind::Ident, "x")]);
    assert_eq!(pairs(&lex("<|")), vec![tok(Kind::Op, "<|")]);
}

#[test]
fn whitespace_is_never_a_token() {
    let tokens = lex("  a \t\n b   ");
    assert_eq!(pairs(&tokens), vec![tok(Kind::Ident, "a"), tok(Kind::Ident, "b")]);
    assert!(lex(" \t ").is_empty());
    for t in lex("x  ==  ( 1.5 ) && y ") {
        assert_ne!(t.kind, Kind::Whitespace);
        assert!(!t.val.chars().any(|c| c.is_whitespace()));
    }
}

#[test]
fn whitespace_inside_string_is_kept() {
    assert_eq!(pairs(&lex("\"a b\" ")), vec![tok(Kind::StringLit, "a b")]);
}

#[test]
fn integer_becomes_float_at_dot() {
    assert_eq!(
        pairs(&lex("1_0 2.5_0 3.")),
        vec![tok(Kind::IntLit, "1_0"), tok(Kind::FloatLit, "2.5_0"), tok(Kind::FloatLit, "3.")]
    );
    assert_eq!(pairs(&lex("7)")), vec![tok(Kind::IntLit, "7"), tok(Kind::GroupEnd, ")")]);
}

#[test]
fn unknown_character_joins_next_lexeme() {
    assert_eq!(pairs(&lex("#a b")), vec![tok(Kind::Ident, "#a"), tok(Kind::Ident, "b")]);
    assert_eq!(pairs(&lex("#")), vec![tok(Kind::Unknown, "#")]);
    assert!(lex("# ").is_empty());
}

#[test]
fn letters_and_whitespace_beyond_ascii() {
    assert_eq!(pairs(&lex("été\u{3000}x")), vec![tok(Kind::Ident, "été"), tok(Kind::Ident, "x")]);
}

#[test]
fn only_decimal_digits_start_or_continue_numbers() {
    assert_eq!(pairs(&lex("x=٣")), vec![tok(Kind::Ident, "x"), tok(Kind::Op, "="), tok(Kind::Unknown, "٣")]);
    assert_eq!(pairs(&lex("1²")), vec![tok(Kind::IntLit, "1"), tok(Kind::Unknown, "²")]);
    assert_eq!(pairs(&lex("2.5½")), vec![tok(Kind::FloatLit, "2.5"), tok(Kind::Unknown, "½")]);
    assert!(lex("² ").is_empty());
}

#[test]
fn respacing_keeps_kinds() {
    let input = "age>18&&bill<=1_000.25||x!=y";
    let tokens = lex(input);
    let joined: Vec<String> = tokens.iter().map(|t| t.val.clone()).collect();
    let again = lex(&joined.join(" "));
    let kinds: Vec<Kind> = tokens.iter().map(|t| t.kind).collect();
    let kinds_again: Vec<Kind> = again.iter().map(|t| t.kind).collect();
    assert_eq!(kinds, kinds_again);
    assert_eq!(kinds.len(), 11);
}

#[test]
fn token_new_keeps_fields() {
    let t = Token::new(Kind::Op, String::from("!="));
    assert_eq!(t.kind, Kind::Op);
    assert_eq!(t.val, "!=");
}

#[test]
fn raw_spans_rebuild_input() {
    let input = "a == \"b c\" && (d >= 1.5)";
    let mut rebuilt = String::new();
    for t in lex(input) {
        if t.kind == Kind::StringLit {
            rebuilt.push('"');
            rebuilt.push_str(&t.val);
            rebuilt.push('"');
        } else {
            rebuilt.push_str(&t.val);
        }
    }
    assert_eq!(rebuilt, "a==\"b c\"&&(d>=1.5)");
}

#[test]
fn respacing_keeps_string_literals() {
    let input = "name==\"a b\"&&x!=\"q\\\"r\"";
    let tokens = lex(input);
    let joined: Vec<String> = tokens
        .iter()
        .map(|t| if t.kind == Kind::StringLit { format!("\"{}\"", t.val) } else { t.val.clone() })
        .collect();
    assert_eq!(pairs(&lex(&joined.join(" "))), pairs(&tokens));
    assert_eq!(tokens.len(), 7);
}

#[test]
fn reserved_word_at_end_after_operator_or_bracket() {
    assert_eq!(
        pairs(&lex("x==true")),
        vec![tok(Kind::Ident, "x"), tok(Kind::Op, "=="), tok(Kind::Ident, "true")]
    );
    assert_eq!(
        pairs(&lex("(\"s\")false")),
        vec![
            tok(Kind::GroupStart, "("),
            tok(Kind::StringLit, "s"),
            tok(Kind::GroupEnd, ")"),
            tok(Kind::Ident, "false"),
        ]
    );
}

#[test]
fn respacing_trailing_keyword_becomes_identifier() {
    assert_eq!(pairs(&lex("true ")), vec![tok(Kind::Keyword, "true")]);
    assert_eq!(pairs(&lex("true")), vec![tok(Kind::Ident, "true")]);
}
