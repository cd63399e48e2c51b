use sgeme::datum::{AbbrevPrefix, Datum};
use sgeme::read::{ReadError, Reader};
use sgeme::token::Token;

fn read_str(src: &str, ci: bool, bp: bool) -> Result<Datum, ReadError> {
    let tokens = Token::really_lex(src.to_string()).unwrap();
    let mut reader = Reader::init(ci, bp, tokens);
    reader.read()
}

fn read_one(src: &str) -> Datum {
    match read_str(src, false, true).unwrap() {
        Datum::List(mut ds) => {
            assert_eq!(ds.len(), 1);
            ds.remove(0)
        }
        other => panic!("expected an outer list, got {:?}", other),
    }
}

#[test]
fn read_atoms() {
    assert_eq!(read_one("42"), Datum::Fixnum(42));
    assert_eq!(read_one("#t"), Datum::Bool(true));
    assert_eq!(read_one("#\\a"), Datum::Char('a'));
    assert_eq!(read_one("\"hi\""), Datum::Str("hi".to_string()));
    assert_eq!(read_one("foo"), Datum::Symbol("foo".to_string()));
}

#[test]
fn read_proper_list() {
    assert_eq!(
        read_one("(1 2 3)"),
        Datum::List(vec![Datum::Fixnum(1), Datum::Fixnum(2), Datum::Fixnum(3)])
    );
}

#[test]
fn read_nested_list() {
    assert_eq!(
        read_one("(1 (2 3))"),
        Datum::List(vec![
            Datum::Fixnum(1),
            Datum::List(vec![Datum::Fixnum(2), Datum::Fixnum(3)])
        ])
    );
}

#[test]
fn read_dotted_pair() {
    assert_eq!(
        read_one("(1 . 2)"),
        Datum::DottedList(vec![Datum::Fixnum(1)], Box::new(Datum::Fixnum(2)))
    );
}

#[test]
fn read_dotted_list_two_heads() {
    assert_eq!(
        read_one("(1 2 . 3)"),
        Datum::DottedList(
            vec![Datum::Fixnum(1), Datum::Fixnum(2)],
            Box::new(Datum::Fixnum(3))
        )
    );
}

#[test]
fn read_dotted_tail_must_close() {
    assert_eq!(
        read_str("(1 . 2 3)", false, true),
        Err(ReadError::ExpectedListTerminator(Token::Fixnum(3)))
    );
}

#[test]
fn read_mixed_terminators_are_rejected() {
    assert_eq!(
        read_str("(1 . 2]", false, true),
        Err(ReadError::ExpectedListTerminator(Token::RBracket))
    );
}

#[test]
fn read_quote_abbreviation() {
    assert_eq!(
        read_one("'x"),
        Datum::Quote(
            AbbrevPrefix::Quote,
            Box::new(Datum::Symbol("x".to_string()))
        )
    );
}

#[test]
fn read_other_abbreviations() {
    assert_eq!(
        read_one("`x"),
        Datum::Quote(
            AbbrevPrefix::Quasi,
            Box::new(Datum::Symbol("x".to_string()))
        )
    );
    assert_eq!(
        read_one(",x"),
        Datum::Quote(
            AbbrevPrefix::Comma,
            Box::new(Datum::Symbol("x".to_string()))
        )
    );
    assert_eq!(
        read_one(",@x"),
        Datum::Quote(
            AbbrevPrefix::CommaAt,
            Box::new(Datum::Symbol("x".to_string()))
        )
    );
}

#[test]
fn read_unhandled_quote() {
    assert_eq!(read_str("'", false, true), Err(ReadError::UnhandledQuote));
}

#[test]
fn read_vector() {
    assert_eq!(
        read_one("#(1 2)"),
        Datum::Vector(vec![Datum::Fixnum(1), Datum::Fixnum(2)])
    );
}

#[test]
fn read_bracket_vector() {
    assert_eq!(
        read_one("#[1 2]"),
        Datum::Vector(vec![Datum::Fixnum(1), Datum::Fixnum(2)])
    );
}

#[test]
fn read_brackets_as_parens() {
    assert_eq!(
        read_one("[1 2]"),
        Datum::List(vec![Datum::Fixnum(1), Datum::Fixnum(2)])
    );
}

#[test]
fn read_brackets_refused_without_option() {
    assert_eq!(
        read_str("[1]", false, false),
        Err(ReadError::UnknownSymbol(Token::LBracket))
    );
}

#[test]
fn read_unexpected_terminator() {
    assert_eq!(
        read_str(")", false, true),
        Err(ReadError::UnexpectedListTerminator(Token::RParen))
    );
}

#[test]
fn read_bytevector_is_not_supported() {
    assert_eq!(
        read_str("#u8(1 2)", false, true),
        Err(ReadError::UnknownSymbol(Token::ByteVecLParen))
    );
}

#[test]
fn read_empty_list() {
    assert_eq!(read_one("()"), Datum::List(vec![]));
}

#[test]
fn read_several_top_level_forms() {
    assert_eq!(
        read_str("1 2", false, true).unwrap(),
        Datum::List(vec![Datum::Fixnum(1), Datum::Fixnum(2)])
    );
}

#[test]
fn read_no_tokens_yields_eof() {
    let mut reader = Reader::init(false, true, Vec::new());
    assert_eq!(reader.read(), Ok(Datum::Eof));
}

#[test]
fn read_case_folding_makes_identical_symbols() {
    let upper = read_str("FOO", true, true).unwrap();
    let lower = read_str("foo", true, true).unwrap();
    assert_eq!(upper, Datum::List(vec![Datum::Symbol("foo".to_string())]));
    assert_eq!(upper, lower);
    let repeated = read_str("FOO Foo foo", true, true).unwrap();
    assert_eq!(
        repeated,
        Datum::List(vec![
            Datum::Symbol("foo".to_string()),
            Datum::Symbol("foo".to_string()),
            Datum::Symbol("foo".to_string())
        ])
    );
}

#[test]
fn read_without_case_folding_keeps_case() {
    assert_eq!(
        read_str("FOO", false, true).unwrap(),
        Datum::List(vec![Datum::Symbol("FOO".to_string())])
    );
}

#[test]
fn datum_predicates() {
    let l = Datum::List(vec![]);
    assert!(l.is_list());
    assert!(!l.is_symbol());
    let s = Datum::Str("abc".to_string());
    assert!(s.is_string());
    assert_eq!(s.get_string(), "abc".to_string());
    let y = Datum::Symbol("y".to_string());
    assert!(y.is_symbol());
    assert_eq!(y.get_symbol_name(), "y".to_string());
}

#[test]
fn print_atoms() {
    assert_eq!(Datum::Fixnum(-42).print(), "-42".to_string());
    assert_eq!(Datum::Bool(true).print(), "#t".to_string());
    assert_eq!(Datum::Char('\n').print(), "#\\newline".to_string());
    assert_eq!(Datum::Str("hi".to_string()).print(), "\"hi\"".to_string());
    assert_eq!(Datum::Symbol("foo".to_string()).print(), "foo".to_string());
}

#[test]
fn print_compound() {
    let d = Datum::List(vec![
        Datum::Fixnum(1),
        Datum::Vector(vec![Datum::Fixnum(2), Datum::Bool(false)]),
    ]);
    assert_eq!(d.print(), "(1 #(2 #f))".to_string());
    let p = Datum::DottedList(vec![Datum::Fixnum(1)], Box::new(Datum::Fixnum(2)));
    assert_eq!(p.print(), "(1 . 2)".to_string());
}

#[test]
fn print_then_read_round_trips() {
    let samples = vec![
        Datum::Fixnum(0),
        Datum::Fixnum(-2147483648),
        Datum::Bool(false),
        Datum::Char('z'),
        Datum::Char(' '),
        Datum::Str("spaced out".to_string()),
        Datum::Symbol("a->b!".to_string()),
        Datum::List(vec![]),
        Datum::List(vec![Datum::Fixnum(1), Datum::Symbol("x".to_string())]),
        Datum::DottedList(
            vec![Datum::Fixnum(1), Datum::Fixnum(2)],
            Box::new(Datum::Fixnum(3)),
        ),
        Datum::Vector(vec![Datum::List(vec![Datum::Bool(true)]), Datum::Fixnum(5)]),
        Datum::Ellipses,
    ];
    for d in samples {
        let text = d.print();
        let back = read_str(&text, false, true).unwrap();
        assert_eq!(back, Datum::List(vec![d]), "round trip of {}", text);
    }
}
