use polish::error::Error;
use polish::span::Span;
use polish::tokenizer::{tokenize, Token, TokenKind};

fn kinds(src: &str) -> Vec<TokenKind> {
    tokenize(src).unwrap().iter().map(|t| t.kind()).collect()
}

fn spans(src: &str) -> Vec<Span> {
    tokenize(src).unwrap().iter().map(|t| t.span()).collect()
}

fn text(token: &Token) -> String {
    match token {
        Token::Decl(s, _) | Token::Name(s, _) | Token::String(s, _) => s.clone(),
        Token::Num(n, _) => n.to_string(),
        Token::Arrow(_) => "->".to_string(),
    }
}

fn texts(src: &str) -> Vec<String> {
    tokenize(src).unwrap().iter().map(text).collect()
}

#[test]
fn declaration_is_split_into_its_parts() {
    let src = "\\fac n -> if = n 0 1 * n fac - n 1";
    assert_eq!(
        kinds(src),
        vec![
            TokenKind::Decl,
            TokenKind::Name,
            TokenKind::Arrow,
            TokenKind::Name,
            TokenKind::Name,
            TokenKind::Name,
            TokenKind::Num,
            TokenKind::Num,
            TokenKind::Name,
            TokenKind::Name,
            TokenKind::Name,
            TokenKind::Name,
            TokenKind::Name,
            TokenKind::Num,
        ]
    );
    assert_eq!(
        texts(src),
        vec!["fac", "n", "->", "if", "=", "n", "0", "1", "*", "n", "fac", "-", "n", "1"]
    );
}

#[test]
fn spans_are_byte_ranges() {
    assert_eq!(
        spans("\\f x -> 12"),
        vec![Span(1, 2), Span(3, 4), Span(5, 7), Span(8, 10)]
    );
    assert_eq!(spans("  ab\n\tcd"), vec![Span(2, 4), Span(6, 8)]);
}

#[test]
fn spans_count_bytes_not_characters() {
    let tokens = tokenize("é λx \"ü\" 7").unwrap();
    assert_eq!(tokens[0].span(), Span(0, 2));
    assert_eq!(tokens[1].span(), Span(3, 6));
    assert_eq!(tokens[2].span(), Span(7, 11));
    assert_eq!(tokens[3].span(), Span(12, 13));
    assert_eq!(text(&tokens[1]), "λx");
    assert_eq!(text(&tokens[2]), "ü");
}

#[test]
fn empty_and_blank_sources_have_no_tokens() {
    assert!(tokenize("").unwrap().is_empty());
    assert!(tokenize(" \t\r\n ").unwrap().is_empty());
    assert!(tokenize("# only a comment").unwrap().is_empty());
}

#[test]
fn comment_runs_to_the_end_of_the_line() {
    assert_eq!(texts("1 # two 3\n4"), vec!["1", "4"]);
    assert_eq!(texts("a#b c"), vec!["a#b", "c"]);
}

#[test]
fn minus_alone_is_a_name_and_with_bracket_an_arrow() {
    let tokens = tokenize("- 3 -> x").unwrap();
    assert!(matches!(&tokens[0], Token::Name(s, Span(0, 1)) if s == "-"));
    assert!(matches!(&tokens[1], Token::Num(3, Span(2, 3))));
    assert!(matches!(&tokens[2], Token::Arrow(Span(4, 6))));
    assert_eq!(texts("a->b"), vec!["a->b"]);
}

#[test]
fn minus_before_anything_else_is_an_error() {
    for src in ["-", "x -", "-5", "--"] {
        let err = tokenize(src).unwrap_err();
        assert_eq!(err.message(), "expected '>' or whitespace after '-'");
    }
    let err = tokenize("ab -5").unwrap_err();
    assert_eq!(err.span(), Some(Span(3, 4)));
}

#[test]
fn numbers() {
    let tokens = tokenize("0 007 18446744073709551615").unwrap();
    assert!(matches!(tokens[0], Token::Num(0, _)));
    assert!(matches!(tokens[1], Token::Num(7, Span(2, 5))));
    assert!(matches!(tokens[2], Token::Num(18446744073709551615, _)));
}

#[test]
fn invalid_number_literals() {
    for src in ["12x", "1_000", "18446744073709551616", "99999999999999999999999", "1.5"] {
        let err = tokenize(src).unwrap_err();
        assert_eq!(err.message(), "invalid number literal");
        assert_eq!(err.span(), Some(Span(0, src.len())));
    }
    let err = tokenize("ok 3a").unwrap_err();
    assert!(matches!(err, Error::Spanned(_, Span(3, 5))));
}

#[test]
fn text_literals_resolve_their_escapes() {
    let tokens = tokenize("\"a b\" \"x\\ny\\t\\\"q\\\"\\\\\"").unwrap();
    assert!(matches!(&tokens[0], Token::String(s, Span(0, 5)) if s == "a b"));
    assert!(matches!(&tokens[1], Token::String(s, Span(6, 21)) if s == "x\ny\t\"q\"\\"));
    let tokens = tokenize("\"\"").unwrap();
    assert!(matches!(&tokens[0], Token::String(s, Span(0, 2)) if s.is_empty()));
    assert_eq!(texts("\"a # b\" c"), vec!["a # b", "c"]);
}

#[test]
fn text_literal_without_closing_quote_runs_to_the_end() {
    let tokens = tokenize("1 \"abc").unwrap();
    assert_eq!(tokens.len(), 2);
    assert!(matches!(&tokens[1], Token::String(s, Span(2, 6)) if s == "abc"));
}

#[test]
fn escape_errors() {
    let err = tokenize("1 \"a\\qb\"").unwrap_err();
    assert_eq!(err.message(), "invalid escape sequence");
    assert_eq!(err.span(), Some(Span(2, 4)));
    let err = tokenize("\"ab\\").unwrap_err();
    assert_eq!(err.message(), "unfinished escape sequence");
    assert_eq!(err.span(), Some(Span(0, 1)));
}

#[test]
fn declaration_name_excludes_the_backslash() {
    let tokens = tokenize("\\main ->").unwrap();
    assert!(matches!(&tokens[0], Token::Decl(s, Span(1, 5)) if s == "main"));
    let tokens = tokenize("\\").unwrap();
    assert!(matches!(&tokens[0], Token::Decl(s, Span(1, 1)) if s.is_empty()));
}

#[test]
fn names_run_to_the_next_whitespace() {
    assert_eq!(texts("a\"b c\\d\te"), vec!["a\"b", "c\\d", "e"]);
}

#[test]
fn other_whitespace_ends_a_name_and_starts_the_next() {
    assert_eq!(texts("ab\u{2003}cd e"), vec!["ab", "\u{2003}cd", "e"]);
    assert_eq!(spans("ab\u{2003}cd e"), vec![Span(0, 2), Span(2, 7), Span(8, 9)]);
}

#[test]
fn first_error_wins() {
    let err = tokenize("12x \"a\\q\"").unwrap_err();
    assert_eq!(err.message(), "invalid number literal");
    let err = tokenize("\"a\\q\" 12x").unwrap_err();
    assert_eq!(err.message(), "invalid escape sequence");
}

#[test]
fn token_kind_names() {
    assert_eq!(TokenKind::Decl.to_string(), "declaration");
    assert_eq!(TokenKind::Name.to_string(), "name");
    assert_eq!(TokenKind::String.to_string(), "string");
    assert_eq!(TokenKind::Num.to_string(), "num");
    assert_eq!(TokenKind::Arrow.to_string(), "<arrow>");
    assert_eq!(TokenKind::Arrow.as_str(), "<arrow>");
}

#[test]
fn token_kind_from_token() {
    let tokens = tokenize("\\f a -> \"s\" 1").unwrap();
    let kinds: Vec<TokenKind> = tokens.iter().map(TokenKind::from).collect();
    assert_eq!(
        kinds,
        vec![
            TokenKind::Decl,
            TokenKind::Name,
            TokenKind::Arrow,
            TokenKind::String,
            TokenKind::Num
        ]
    );
}

#[test]
fn token_clone_keeps_everything() {
    let tokens = tokenize("\\f a -> \"s\" 1").unwrap();
    for token in &tokens {
        let copy = token.clone();
        assert_eq!(copy.kind(), token.kind());
        assert_eq!(copy.span(), token.span());
        assert_eq!(text(&copy), text(token));
    }
}
