use sgeme::token::{LexError, Token};

fn lex(src: &str) -> Vec<Token> {
    Token::really_lex(src.to_string()).unwrap()
}

#[test]
fn module_test() {}

#[test]
fn lex_numbers() {
    assert_eq!(
        lex("1 42 -7"),
        vec![Token::Fixnum(1), Token::Fixnum(42), Token::Fixnum(-7), Token::Eof]
    );
}

#[test]
fn lex_number_extremes() {
    assert_eq!(
        lex("2147483647 -2147483648"),
        vec![Token::Fixnum(2147483647), Token::Fixnum(-2147483648), Token::Eof]
    );
}

#[test]
fn lex_number_overflow_is_fatal() {
    assert_eq!(
        Token::really_lex("2147483648".to_string()),
        Err(LexError::FixnumOverflow)
    );
    assert_eq!(
        Token::really_lex("-2147483649".to_string()),
        Err(LexError::FixnumOverflow)
    );
}

#[test]
fn lex_leading_zeros() {
    assert_eq!(lex("000000000000042"), vec![Token::Fixnum(42), Token::Eof]);
}

#[test]
fn lex_string_literal() {
    assert_eq!(
        lex("\"hello there\""),
        vec![Token::Str("hello there".to_string()), Token::Eof]
    );
}

#[test]
fn lex_unterminated_string_is_fatal() {
    assert_eq!(
        Token::really_lex("\"oops".to_string()),
        Err(LexError::Unrecognized('"'))
    );
}

#[test]
fn lex_identifiers_and_prims() {
    assert_eq!(
        lex("foo set! a->b + <"),
        vec![
            Token::Ident("foo".to_string()),
            Token::Ident("set!".to_string()),
            Token::Ident("a->b".to_string()),
            Token::Prim("+".to_string()),
            Token::Ident("<".to_string()),
            Token::Eof
        ]
    );
}

#[test]
fn lex_quote_word_is_an_identifier() {
    assert_eq!(
        lex("quote 'x"),
        vec![
            Token::Ident("quote".to_string()),
            Token::Quote,
            Token::Ident("x".to_string()),
            Token::Eof
        ]
    );
}

#[test]
fn lex_chars_and_bools() {
    assert_eq!(
        lex("#\\newline #\\space #\\a #t #f"),
        vec![
            Token::Char('\n'),
            Token::Char(' '),
            Token::Char('a'),
            Token::Bool(true),
            Token::Bool(false),
            Token::Eof
        ]
    );
}

#[test]
fn lex_structural_tokens() {
    assert_eq!(
        lex("( ) [ ] #( #[ #u8( ' ` , ,@ # . ..."),
        vec![
            Token::LParen,
            Token::RParen,
            Token::LBracket,
            Token::RBracket,
            Token::VecLParen,
            Token::BrackVecLParen,
            Token::ByteVecLParen,
            Token::Quote,
            Token::Quasi,
            Token::Comma,
            Token::CommaAt,
            Token::Hash,
            Token::Dot,
            Token::Ellipses,
            Token::Eof
        ]
    );
}

#[test]
fn lex_comments_are_dropped() {
    assert_eq!(
        lex("1 ; the rest of this line vanishes\n2"),
        vec![Token::Fixnum(1), Token::Fixnum(2), Token::Eof]
    );
}

#[test]
fn lex_comment_at_end_without_newline() {
    assert_eq!(lex("1 ; trailing"), vec![Token::Fixnum(1), Token::Eof]);
}

#[test]
fn lex_unrecognized_is_fatal() {
    assert_eq!(
        Token::really_lex("1 @ 2".to_string()),
        Err(LexError::Unrecognized('@'))
    );
}

#[test]
fn lex_empty_input_is_just_eof() {
    assert_eq!(lex(""), vec![Token::Eof]);
    assert_eq!(lex("   \t\r\n "), vec![Token::Eof]);
}
