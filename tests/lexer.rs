use benchpress_sys::lexer::{lex, lex_block, lex_expression, StringSlicer};
use benchpress_sys::token::{Token, TokenPos};

fn to_tokens(from: Option<Vec<TokenPos>>) -> Vec<Token> {
    from.unwrap().into_iter().map(|TokenPos { tok, .. }| tok).collect()
}

fn expression(input: &str) -> Option<Vec<TokenPos>> {
    let src: Vec<char> = input.chars().collect();
    lex_expression(&mut StringSlicer::new(), &src)
}

fn block(input: &str) -> Option<Vec<TokenPos>> {
    let src: Vec<char> = input.chars().collect();
    lex_block(&mut StringSlicer::new(), &src)
}

fn ident(s: &str) -> Token {
    Token::Identifier(s.to_string())
}

#[test]
fn string_lit() {
    assert_eq!(
        to_tokens(expression("\"\\\\ \\ \"")),
        vec![Token::StringLiteral(r"\\ \ ".to_string())]
    );

    assert_eq!(
        to_tokens(expression("\"help me to save myself\"")),
        vec![Token::StringLiteral("help me to save myself".to_string())]
    );

    assert_eq!(
        to_tokens(expression("function.caps, \"help me to save myself\"")),
        vec![
            Token::LegacyHelper,
            ident("caps"),
            Token::Comma,
            Token::StringLiteral("help me to save myself".to_string())
        ]
    );
}

#[test]
fn bang() {
    assert_eq!(to_tokens(expression("!name_of")), vec![Token::Bang, ident("name_of")]);
    assert_eq!(to_tokens(expression("!name_of extra stuff")), vec![Token::Bang, ident("name_of")]);
    assert_eq!(to_tokens(expression(" ! rooms.private")), vec![Token::Bang, ident("rooms.private")]);
}

#[test]
fn identifier() {
    assert_eq!(to_tokens(expression("name_of")), vec![ident("name_of")]);
}

#[test]
fn legacy_helper() {
    assert_eq!(
        to_tokens(expression("function.helper_name , arg1, arg2")),
        vec![
            Token::LegacyHelper,
            ident("helper_name"),
            Token::Comma,
            ident("arg1"),
            Token::Comma,
            ident("arg2"),
        ]
    );
}

#[test]
fn modern_helper() {
    assert_eq!(
        to_tokens(expression("helper_name(arg1, arg2 , )")),
        vec![
            ident("helper_name"),
            Token::LeftParen,
            ident("arg1"),
            Token::Comma,
            ident("arg2"),
            Token::Comma,
            Token::RightParen,
        ]
    );

    assert_eq!(
        to_tokens(expression("helper_name() after stuff")),
        vec![ident("helper_name"), Token::LeftParen, Token::RightParen]
    );
}

#[test]
fn if_block() {
    assert_eq!(to_tokens(block("if abc")), vec![Token::If, ident("abc")]);
    assert_eq!(to_tokens(block("IF foo.bar")), vec![Token::If, ident("foo.bar")]);
    assert_eq!(
        to_tokens(block("if !valid(stuff)")),
        vec![Token::If, Token::Bang, ident("valid"), Token::LeftParen, ident("stuff"), Token::RightParen]
    );
    assert_eq!(to_tokens(block("IF foo.bar extra stuff")), vec![Token::If, ident("foo.bar")]);
}

#[test]
fn iter_block() {
    assert_eq!(to_tokens(block("each abc")), vec![Token::Iter, ident("abc")]);
    assert_eq!(to_tokens(block("BEGIN foo.bar")), vec![Token::Iter, ident("foo.bar")]);
    assert_eq!(
        to_tokens(block("each valid(stuff)")),
        vec![Token::Iter, ident("valid"), Token::LeftParen, ident("stuff"), Token::RightParen]
    );
    assert_eq!(to_tokens(block("BEGIN foo.bar extra stuff")), vec![Token::Iter, ident("foo.bar")]);
}

#[test]
fn end_block() {
    assert_eq!(to_tokens(block("end abc")), vec![Token::End, ident("abc")]);
    assert_eq!(to_tokens(block("ENDIF foo.bar")), vec![Token::End, ident("foo.bar")]);
    assert_eq!(
        to_tokens(block("END valid(stuff)")),
        vec![Token::End, ident("valid"), Token::LeftParen, ident("stuff"), Token::RightParen]
    );
    assert_eq!(to_tokens(block("ENDIF foo.bar extra stuff")), vec![Token::End, ident("foo.bar")]);
}

#[test]
fn else_block_and_failures() {
    assert_eq!(to_tokens(block("else")), vec![Token::Else]);
    assert_eq!(to_tokens(block("ELSE")), vec![Token::Else]);
    assert!(block("each").is_none());
    assert!(block("if -x").is_none());
    assert!(block("foo").is_none());
    assert!(expression("-abc").is_none());
    assert!(expression("name(").is_none());
    assert!(expression("\"open").is_none());
}

#[test]
fn identifier_with_letters_beyond_ascii() {
    assert_eq!(to_tokens(expression("héllo wörld")), vec![ident("héllo")]);
    assert_eq!(to_tokens(expression("item٣")), vec![ident("item٣")]);
    assert_eq!(to_tokens(expression("a+b")), vec![ident("a")]);
}

fn spans(tokens: &[TokenPos]) -> Vec<(usize, usize, Token)> {
    tokens.iter().map(|t| (t.start, t.end, t.tok.clone())).collect()
}

#[test]
fn lex_plain_text_is_one_token() {
    assert_eq!(spans(&lex("hello world")), vec![(0, 11, Token::Text("hello world".to_string()))]);
    assert!(lex("").is_empty());
}

#[test]
fn lex_interpolations_and_blocks() {
    assert_eq!(
        spans(&lex("a{b}c")),
        vec![
            (0, 1, Token::Text("a".to_string())),
            (1, 2, Token::EscapedOpen),
            (2, 3, ident("b")),
            (3, 4, Token::EscapedClose),
            (4, 5, Token::Text("c".to_string())),
        ]
    );
    assert_eq!(
        spans(&lex("{{x}}")),
        vec![(0, 2, Token::RawOpen), (2, 3, ident("x")), (3, 5, Token::RawClose)]
    );
    assert_eq!(
        spans(&lex("<!-- IF x -->y<!-- ENDIF x -->")),
        vec![
            (0, 4, Token::BlockOpen),
            (5, 7, Token::If),
            (8, 9, ident("x")),
            (10, 13, Token::BlockClose),
            (13, 14, Token::Text("y".to_string())),
            (14, 18, Token::BlockOpen),
            (19, 24, Token::End),
            (25, 26, ident("x")),
            (27, 30, Token::BlockClose),
        ]
    );
}

#[test]
fn lex_escapes_and_failed_openers() {
    let toks: Vec<Token> = lex("\\{x} and \\<!-- y").into_iter().map(|t| t.tok).collect();
    assert_eq!(toks, vec![Token::Text("{x} and <!-- y".to_string())]);
    let toks: Vec<Token> = lex("{ not closed").into_iter().map(|t| t.tok).collect();
    assert_eq!(toks, vec![Token::Text("{ not closed".to_string())]);
    let toks: Vec<Token> = lex("<!-- nothing -->").into_iter().map(|t| t.tok).collect();
    assert_eq!(toks, vec![Token::Text("<!-- nothing -->".to_string())]);
}

#[test]
fn token_listing_text() {
    assert_eq!(Token::StringLiteral("a b".to_string()).to_string(), "\"a b\"");
    assert_eq!(Token::Identifier("x.y".to_string()).to_string(), "x.y");
    assert_eq!(Token::LegacyHelper.to_string(), "function.");
    assert_eq!(Token::RawOpen.to_string(), "{{");
    assert_eq!(Token::EscapedClose.to_string(), "}");
    assert_eq!(Token::If.to_string(), "");
    assert_eq!(Token::BlockOpen.to_string(), "");
}

#[test]
fn lex_spans_count_bytes() {
    assert_eq!(spans(&lex("é")), vec![(0, 2, Token::Text("é".to_string()))]);
    assert_eq!(
        spans(&lex("é{x}ü")),
        vec![
            (0, 2, Token::Text("é".to_string())),
            (2, 3, Token::EscapedOpen),
            (3, 4, ident("x")),
            (4, 5, Token::EscapedClose),
            (5, 7, Token::Text("ü".to_string())),
        ]
    );
}
