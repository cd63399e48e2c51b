//! The round-trip law: reading the canonical rendering of a well-formed
//! literal datum reproduces exactly the same tree.

use vstd::prelude::*;

use crate::datum::DatumV;
use crate::read::{
    spec_read, spec_read_elems, spec_read_expr, spec_read_program, spec_read_sexpr,
    spec_read_vector, tok_at, ReadErrV,
};
use crate::datum::{data_text, datum_text, dec_digits, digit_char};
use crate::token::{
    digit_run, digits_val, find_char, ident_run, is_digit, is_ident_cont, is_ident_start,
    is_ws, lemma_digits_val_push, spec_lex, spec_lex_from, spec_token, LexError, TokenV,
};

verus! {

/// A well-formed literal datum: one with a canonical surface syntax that
/// contains no quotation form. Symbols must be valid identifiers, string
/// contents must not hold a quote mark, numbers must fit the fixnum range,
/// and a dotted list needs at least one leading element.
pub open spec fn printable(d: DatumV) -> bool
    decreases d, 1int,
{
    match d {
        DatumV::Bool(_) => true,
        DatumV::Fixnum(n) => i32::MIN <= n <= i32::MAX,
        DatumV::Char(_) => true,
        DatumV::Str(s) => forall|i: int| 0 <= i < s.len() ==> #[trigger] s[i] != '"',
        DatumV::Symbol(s) => s.len() >= 1 && is_ident_start(s[0]) && forall|i: int|
            0 <= i < s.len() ==> is_ident_cont(#[trigger] s[i]),
        DatumV::List(es) => all_printable(es),
        DatumV::DottedList(es, t) => es.len() >= 1 && all_printable(es) && printable(*t),
        DatumV::Vector(es) => all_printable(es),
        DatumV::Ellipses => true,
        _ => false,
    }
}

/// Whether every datum of the sequence is printable.
pub open spec fn all_printable(es: Seq<DatumV>) -> bool
    decreases es, 2int,
{
    forall|i: int| 0 <= i < es.len() ==> printable(#[trigger] es[i])
}

/// The canonical token rendering of a printable datum.
pub open spec fn datum_tokens(d: DatumV) -> Seq<TokenV>
    decreases d, 1int,
{
    match d {
        DatumV::Bool(b) => seq![TokenV::Bool(b)],
        DatumV::Fixnum(n) => seq![TokenV::Fixnum(n)],
        DatumV::Char(c) => seq![TokenV::Char(c)],
        DatumV::Str(s) => seq![TokenV::Str(s)],
        DatumV::Symbol(s) => seq![TokenV::Ident(s)],
        DatumV::List(es) => seq![TokenV::LParen] + data_tokens(es) + seq![TokenV::RParen],
        DatumV::DottedList(es, t) => seq![TokenV::LParen] + data_tokens(es) + seq![
            TokenV::Dot,
        ] + datum_tokens(*t) + seq![TokenV::RParen],
        DatumV::Vector(es) => seq![TokenV::VecLParen] + data_tokens(es) + seq![
            TokenV::RParen,
        ],
        DatumV::Ellipses => seq![TokenV::Ellipses],
        _ => Seq::empty(),
    }
}

/// The concatenated token renderings of a sequence of datums.
pub open spec fn data_tokens(es: Seq<DatumV>) -> Seq<TokenV>
    decreases es, 2int,
{
    if es.len() == 0 {
        Seq::empty()
    } else {
        datum_tokens(es[0]) + data_tokens(es.drop_first())
    }
}

/// A printable datum renders to at least one token, and its first token
/// can neither close a list, nor dot one, nor end the input.
proof fn lemma_datum_tokens_head(d: DatumV)
    requires
        printable(d),
    ensures
        datum_tokens(d).len() >= 1,
        !(datum_tokens(d)[0] is RParen),
        !(datum_tokens(d)[0] is RBracket),
        !(datum_tokens(d)[0] is Dot),
        !(datum_tokens(d)[0] is Eof),
{
}

/// Reading tokens embedded in a larger sequence: if the rendering of `d`
/// sits at position `i`, one expression read from `i` yields exactly `d`
/// and stops right after it.
#[verifier::rlimit(100)]
#[verifier::spinoff_prover]
proof fn lemma_parse_datum(s: Seq<TokenV>, bp: bool, i: int, d: DatumV)
    requires
        printable(d),
        0 <= i,
        i + datum_tokens(d).len() <= s.len(),
        s.subrange(i, i + datum_tokens(d).len()) == datum_tokens(d),
    ensures
        spec_read_expr(s, false, bp, i) == Ok::<(DatumV, int), ReadErrV>((
            d,
            i + datum_tokens(d).len(),
        )),
    decreases d, 0int,
{
    let toks = datum_tokens(d);
    let ll = toks.len() as int;
    let sub = s.subrange(i, i + ll);
    assert(s[i] == sub[0]);
    match d {
        DatumV::Bool(_) => {},
        DatumV::Fixnum(_) => {},
        DatumV::Char(_) => {},
        DatumV::Str(_) => {},
        DatumV::Symbol(_) => {},
        DatumV::Ellipses => {},
        DatumV::List(es) => {
            let le = data_tokens(es).len() as int;
            assert(sub[0] == TokenV::LParen);
            let j = i + 1;
            assert(s.subrange(j, j + le) =~= sub.subrange(1, 1 + le));
            assert(sub.subrange(1, 1 + le) =~= data_tokens(es));
            assert(s[j + le] == sub[1 + le]);
            assert(sub[1 + le] == TokenV::RParen);
            if es.len() > 0 {
                assert(all_printable(es));
                assert(printable(es[0]));
                lemma_datum_tokens_head(es[0]);
                assert(s[j] == sub[1]);
                assert(sub[1] == data_tokens(es)[0]);
                assert(data_tokens(es)[0] == datum_tokens(es[0])[0]);
                assert(tok_at(s, j) == datum_tokens(es[0])[0]);
            } else {
                assert(tok_at(s, j) == TokenV::RParen);
            }
            lemma_parse_elems(s, bp, j, es, Seq::empty());
            assert(Seq::<DatumV>::empty() + es =~= es);
            assert(spec_read_sexpr(s, false, bp, j, TokenV::LParen) == Ok::<
                (DatumV, int),
                ReadErrV,
            >((DatumV::List(es), j + le + 1)));
        },
        DatumV::Vector(es) => {
            let le = data_tokens(es).len() as int;
            assert(sub[0] == TokenV::VecLParen);
            let j = i + 1;
            assert(s.subrange(j, j + le) =~= sub.subrange(1, 1 + le));
            assert(sub.subrange(1, 1 + le) =~= data_tokens(es));
            assert(s[j + le] == sub[1 + le]);
            assert(sub[1 + le] == TokenV::RParen);
            if es.len() > 0 {
                assert(all_printable(es));
                assert(printable(es[0]));
                lemma_datum_tokens_head(es[0]);
                assert(s[j] == sub[1]);
                assert(sub[1] == data_tokens(es)[0]);
                assert(data_tokens(es)[0] == datum_tokens(es[0])[0]);
                assert(tok_at(s, j) == datum_tokens(es[0])[0]);
            } else {
                assert(tok_at(s, j) == TokenV::RParen);
            }
            lemma_parse_elems(s, bp, j, es, Seq::empty());
            assert(Seq::<DatumV>::empty() + es =~= es);
            assert(spec_read_sexpr(s, false, bp, j, TokenV::LParen) == Ok::<
                (DatumV, int),
                ReadErrV,
            >((DatumV::List(es), j + le + 1)));
            assert(spec_read_vector(s, false, bp, j, TokenV::LParen) == Ok::<
                (DatumV, int),
                ReadErrV,
            >((DatumV::Vector(es), j + le + 1)));
        },
        DatumV::DottedList(es, t) => {
            let le = data_tokens(es).len() as int;
            let lt = datum_tokens(*t).len() as int;
            assert(sub[0] == TokenV::LParen);
            let j = i + 1;
            assert(s.subrange(j, j + le) =~= sub.subrange(1, 1 + le));
            assert(sub.subrange(1, 1 + le) =~= data_tokens(es));
            assert(s[j + le] == sub[1 + le]);
            assert(sub[1 + le] == TokenV::Dot);
            assert(s.subrange(j + le + 1, j + le + 1 + lt) =~= sub.subrange(
                2 + le,
                2 + le + lt,
            ));
            assert(sub.subrange(2 + le, 2 + le + lt) =~= datum_tokens(*t));
            assert(s[j + le + 1 + lt] == sub[2 + le + lt]);
            assert(sub[2 + le + lt] == TokenV::RParen);
            lemma_parse_datum(s, bp, j + le + 1, *t);
            assert(all_printable(es));
            assert(printable(es[0]));
            lemma_datum_tokens_head(es[0]);
            assert(s[j] == sub[1]);
            assert(sub[1] == data_tokens(es)[0]);
            assert(data_tokens(es)[0] == datum_tokens(es[0])[0]);
            assert(tok_at(s, j) == datum_tokens(es[0])[0]);
            lemma_parse_elems_dotted(s, bp, j, es, *t, Seq::empty());
            assert(Seq::<DatumV>::empty() + es =~= es);
            assert(spec_read_sexpr(s, false, bp, j, TokenV::LParen) == Ok::<
                (DatumV, int),
                ReadErrV,
            >((DatumV::DottedList(es, t), j + le + 1 + lt + 1)));
        },
        _ => {},
    }
}

/// Reading list elements embedded in a larger sequence: the renderings of
/// `es` from position `j`, closed by a terminator, extend the accumulator
/// with exactly `es`.
proof fn lemma_parse_elems(s: Seq<TokenV>, bp: bool, j: int, es: Seq<DatumV>, acc: Seq<DatumV>)
    requires
        all_printable(es),
        0 <= j,
        j + data_tokens(es).len() + 1 <= s.len(),
        s.subrange(j, j + data_tokens(es).len()) == data_tokens(es),
        s[j + data_tokens(es).len()] == TokenV::RParen,
    ensures
        spec_read_elems(s, false, bp, j, TokenV::RParen, acc) == Ok::<
            (DatumV, int),
            ReadErrV,
        >((DatumV::List(acc + es), j + data_tokens(es).len() + 1)),
    decreases es, 1int,
{
    let le = data_tokens(es).len() as int;
    let sub = s.subrange(j, j + le);
    if es.len() == 0 {
        assert(tok_at(s, j) == TokenV::RParen);
        assert(acc + es =~= acc);
    } else {
        let d0 = es[0];
        assert(printable(d0));
        lemma_datum_tokens_head(d0);
        let l0 = datum_tokens(d0).len() as int;
        let rest = es.drop_first();
        let lr = data_tokens(rest).len() as int;
        assert(data_tokens(es) == datum_tokens(d0) + data_tokens(rest));
        assert(le == l0 + lr);
        assert(s.subrange(j, j + l0) =~= sub.subrange(0, l0));
        assert(sub.subrange(0, l0) =~= datum_tokens(d0));
        assert(s[j] == sub[0]);
        assert(sub[0] == datum_tokens(d0)[0]);
        assert(tok_at(s, j) == datum_tokens(d0)[0]);
        lemma_parse_datum(s, bp, j, d0);
        assert(d0 != DatumV::Eof);
        let j2 = j + l0;
        assert(s.subrange(j2, j2 + lr) =~= sub.subrange(l0, l0 + lr));
        assert(sub.subrange(l0, l0 + lr) =~= data_tokens(rest));
        assert(s[j2 + lr] == TokenV::RParen);
        lemma_parse_elems(s, bp, j2, rest, acc.push(d0));
        assert(acc.push(d0) + rest =~= acc + es);
    }
}

/// As `lemma_parse_elems`, but for a dotted list: after the elements come
/// the dot, the rendering of the tail, and the terminator.
proof fn lemma_parse_elems_dotted(
    s: Seq<TokenV>,
    bp: bool,
    j: int,
    es: Seq<DatumV>,
    t: DatumV,
    acc: Seq<DatumV>,
)
    requires
        all_printable(es),
        printable(t),
        0 <= j,
        j + data_tokens(es).len() + 1 + datum_tokens(t).len() + 1 <= s.len(),
        s.subrange(j, j + data_tokens(es).len()) == data_tokens(es),
        s[j + data_tokens(es).len()] == TokenV::Dot,
        spec_read_expr(s, false, bp, j + data_tokens(es).len() + 1) == Ok::<
            (DatumV, int),
            ReadErrV,
        >((t, j + data_tokens(es).len() + 1 + datum_tokens(t).len())),
        s[j + data_tokens(es).len() + 1 + datum_tokens(t).len()] == TokenV::RParen,
    ensures
        spec_read_elems(s, false, bp, j, TokenV::RParen, acc) == Ok::<
            (DatumV, int),
            ReadErrV,
        >((
            DatumV::DottedList(acc + es, Box::new(t)),
            j + data_tokens(es).len() + 1 + datum_tokens(t).len() + 1,
        )),
    decreases es, 1int,
{
    let le = data_tokens(es).len() as int;
    let lt = datum_tokens(t).len() as int;
    let sub = s.subrange(j, j + le);
    if es.len() == 0 {
        assert(tok_at(s, j) == TokenV::Dot);
        assert(tok_at(s, j + 1 + lt) == TokenV::RParen);
        assert(acc + es =~= acc);
    } else {
        let d0 = es[0];
        assert(printable(d0));
        lemma_datum_tokens_head(d0);
        let l0 = datum_tokens(d0).len() as int;
        let rest = es.drop_first();
        let lr = data_tokens(rest).len() as int;
        assert(data_tokens(es) == datum_tokens(d0) + data_tokens(rest));
        assert(le == l0 + lr);
        assert(s.subrange(j, j + l0) =~= sub.subrange(0, l0));
        assert(sub.subrange(0, l0) =~= datum_tokens(d0));
        assert(s[j] == sub[0]);
        assert(sub[0] == datum_tokens(d0)[0]);
        assert(tok_at(s, j) == datum_tokens(d0)[0]);
        lemma_parse_datum(s, bp, j, d0);
        assert(d0 != DatumV::Eof);
        let j2 = j + l0;
        assert(s.subrange(j2, j2 + lr) =~= sub.subrange(l0, l0 + lr));
        assert(sub.subrange(l0, l0 + lr) =~= data_tokens(rest));
        assert(s[j2 + lr] == TokenV::Dot);
        lemma_parse_elems_dotted(s, bp, j2, rest, t, acc.push(d0));
        assert(acc.push(d0) + rest =~= acc + es);
    }
}

/// Round trip at the token level: reading the canonical token rendering of
/// a well-formed literal datum — followed by the end-of-input token —
/// succeeds and reproduces exactly that datum as the sole top-level form.
pub proof fn lemma_read_datum_tokens(d: DatumV, bp: bool)
    requires
        printable(d),
    ensures
        spec_read(datum_tokens(d).push(TokenV::Eof), false, bp, 0) == Ok::<
            DatumV,
            ReadErrV,
        >(DatumV::List(seq![d])),
{
    let s = datum_tokens(d).push(TokenV::Eof);
    let l = datum_tokens(d).len() as int;
    lemma_datum_tokens_head(d);
    assert(s.subrange(0, l) =~= datum_tokens(d));
    lemma_parse_datum(s, bp, 0, d);
    assert(d != DatumV::Eof);
    assert(s[l] == TokenV::Eof);
    assert(spec_read_expr(s, false, bp, l) == Ok::<(DatumV, int), ReadErrV>((
        DatumV::Eof,
        l + 1,
    )));
    assert(spec_read_program(s, false, bp, l, seq![d]) == Ok::<DatumV, ReadErrV>(
        DatumV::List(seq![d]),
    ));
    assert(Seq::<DatumV>::empty().push(d) =~= seq![d]);
}

/// What lexing yields when the tokens `ts` come first and the rest of the
/// input lexes to `r`.
pub open spec fn lex_cons(ts: Seq<TokenV>, r: Result<Seq<TokenV>, LexError>) -> Result<
    Seq<TokenV>,
    LexError,
> {
    match r {
        Ok(tr) => Ok(ts + tr),
        Err(e) => Err(e),
    }
}

/// Text that may follow a rendered datum: nothing, a separating space, or
/// a closing parenthesis.
pub open spec fn boundary(rest: Seq<char>) -> bool {
    rest.len() == 0 || rest[0] == ' ' || rest[0] == ')'
}

/// A maximal digit run followed by a boundary pins `digit_run` on the
/// concatenation.
proof fn lemma_digit_run_concat(t: Seq<char>, rest: Seq<char>)
    requires
        forall|i: int| 0 <= i < t.len() ==> is_digit(#[trigger] t[i]),
        rest.len() == 0 || !is_digit(rest[0]),
    ensures
        digit_run(t + rest) == t.len(),
    decreases t.len(),
{
    if t.len() == 0 {
        assert(t + rest =~= rest);
    } else {
        assert((t + rest)[0] == t[0]);
        lemma_digit_run_concat(t.drop_first(), rest);
        assert((t + rest).drop_first() =~= t.drop_first() + rest);
    }
}

/// A maximal identifier run followed by a boundary pins `ident_run` on the
/// concatenation.
proof fn lemma_ident_run_concat(t: Seq<char>, rest: Seq<char>)
    requires
        forall|i: int| 0 <= i < t.len() ==> is_ident_cont(#[trigger] t[i]),
        rest.len() == 0 || !is_ident_cont(rest[0]),
    ensures
        ident_run(t + rest) == t.len(),
    decreases t.len(),
{
    if t.len() == 0 {
        assert(t + rest =~= rest);
    } else {
        assert((t + rest)[0] == t[0]);
        lemma_ident_run_concat(t.drop_first(), rest);
        assert((t + rest).drop_first() =~= t.drop_first() + rest);
    }
}

/// The first quote mark after quote-free text is found exactly there.
proof fn lemma_find_quote_concat(t: Seq<char>, rest: Seq<char>)
    requires
        forall|i: int| 0 <= i < t.len() ==> #[trigger] t[i] != '"',
    ensures
        find_char(t + seq!['"'] + rest, '"') == Some(t.len() as int),
    decreases t.len(),
{
    if t.len() == 0 {
        assert((t + seq!['"'] + rest)[0] == '"');
    } else {
        assert((t + seq!['"'] + rest)[0] == t[0]);
        lemma_find_quote_concat(t.drop_first(), rest);
        assert((t + seq!['"'] + rest).drop_first() =~= t.drop_first() + seq!['"'] + rest);
    }
}

/// The decimal digits of a non-negative number are digits, and they are
/// worth exactly that number.
proof fn lemma_dec_digits(n: int)
    requires
        n >= 0,
    ensures
        dec_digits(n).len() >= 1,
        forall|i: int| 0 <= i < dec_digits(n).len() ==> is_digit(#[trigger] dec_digits(n)[i]),
        digits_val(dec_digits(n)) == n,
    decreases n,
{
    if n < 10 {
        assert(dec_digits(n) == seq![digit_char(n)]);
        assert(((48 + n) as u8) as char as u32 == 48 + n);
        assert(is_digit(digit_char(n)));
        assert(dec_digits(n).drop_last() =~= Seq::<char>::empty());
        assert(digits_val(Seq::<char>::empty()) == 0);
        assert(dec_digits(n).last() == digit_char(n));
        assert(digits_val(dec_digits(n)) == digits_val(dec_digits(n).drop_last()) * 10 + (
        dec_digits(n).last() as u32 - 48));
        assert(digit_char(n) as u32 == 48 + n);
        assert(digits_val(dec_digits(n)) == n);
    } else {
        lemma_dec_digits(n / 10);
        lemma_digits_val_push(dec_digits(n / 10), digit_char(n % 10));
        assert(((48 + n % 10) as u8) as char as u32 == 48 + n % 10);
        assert(is_digit(digit_char(n % 10)));
        assert(digits_val(dec_digits(n)) == (n / 10) * 10 + (n % 10));
        assert(forall|i: int|
            0 <= i < dec_digits(n).len() ==> is_digit(#[trigger] dec_digits(n)[i])) by {
            assert(forall|i: int|
                0 <= i < dec_digits(n / 10).len() ==> dec_digits(n)[i] == #[trigger]
                dec_digits(n / 10)[i]);
            assert(dec_digits(n).last() == digit_char(n % 10));
        }
    }
}

/// One token at the head of the input, then the rest: what `spec_lex_from`
/// makes of it.
proof fn lemma_lex_step(s: Seq<char>, tv: TokenV, k: int, rest: Seq<char>)
    requires
        s.len() > 0,
        !is_ws(s[0]),
        s[0] != ';',
        spec_token(s) == Ok::<(TokenV, int), LexError>((tv, k)),
        1 <= k <= s.len(),
        rest == s.skip(k),
    ensures
        spec_lex_from(s) == lex_cons(seq![tv], spec_lex_from(rest)),
{
}

/// A space before the input changes nothing of its token sequence.
proof fn lemma_lex_space(s: Seq<char>)
    ensures
        spec_lex_from(seq![' '] + s) == spec_lex_from(s),
{
    assert((seq![' '] + s)[0] == ' ');
    assert((seq![' '] + s).drop_first() =~= s);
}


/// Lexing the rendering of one printable datum followed by boundary text:
/// the datum's tokens come first, then whatever the boundary text lexes to.
#[verifier::rlimit(100)]
#[verifier::spinoff_prover]
proof fn lemma_lex_datum(d: DatumV, rest: Seq<char>)
    requires
        printable(d),
        boundary(rest),
    ensures
        spec_lex_from(datum_text(d) + rest) == lex_cons(datum_tokens(d), spec_lex_from(rest)),
    decreases d, 0int,
{
    let text = datum_text(d);
    let s = text + rest;
    match d {
        DatumV::Bool(b) => {
            assert(s[0] == '#');
            assert(s[1] == (if b { 't' } else { 'f' }));
            assert(spec_token(s) == Ok::<(TokenV, int), LexError>((TokenV::Bool(b), 2)));
            assert(s.skip(2) =~= rest);
            lemma_lex_step(s, TokenV::Bool(b), 2, rest);
        },
        DatumV::Fixnum(n) => {
            if n >= 0 {
                lemma_dec_digits(n);
                assert(text == dec_digits(n));
                assert(s[0] == text[0]);
                assert(is_digit(s[0]));
                lemma_digit_run_concat(text, rest);
                assert(s.take(text.len() as int) =~= text);
                assert(digits_val(s.take(digit_run(s))) == n);
                assert(spec_token(s) == Ok::<(TokenV, int), LexError>((
                    TokenV::Fixnum(n),
                    text.len() as int,
                )));
                assert(s.skip(text.len() as int) =~= rest);
                lemma_lex_step(s, TokenV::Fixnum(n), text.len() as int, rest);
            } else {
                lemma_dec_digits(-n);
                assert(text == seq!['-'] + dec_digits(-n));
                assert(s[0] == '-');
                assert(!is_digit('-'));
                assert(s[1] == dec_digits(-n)[0]);
                assert(is_digit(s[1]));
                assert(s.drop_first() =~= dec_digits(-n) + rest);
                lemma_digit_run_concat(dec_digits(-n), rest);
                let rn = digit_run(s.drop_first());
                assert(rn == dec_digits(-n).len());
                assert(s.subrange(1, 1 + rn) =~= dec_digits(-n));
                assert(digits_val(s.subrange(1, 1 + rn)) == -n);
                assert(-n <= -(i32::MIN as int));
                assert(spec_token(s) == Ok::<(TokenV, int), LexError>((
                    TokenV::Fixnum(n),
                    text.len() as int,
                )));
                assert(s.skip(text.len() as int) =~= rest);
                lemma_lex_step(s, TokenV::Fixnum(n), text.len() as int, rest);
            }
        },
        DatumV::Char(c) => {
            assert(s[0] == '#');
            assert(s[1] == '\\');
            if c == '\n' {
                assert(s[2] == 'n' && s[3] == 'e' && s[4] == 'w' && s[5] == 'l' && s[6]
                    == 'i' && s[7] == 'n' && s[8] == 'e');
                assert(spec_token(s) == Ok::<(TokenV, int), LexError>((TokenV::Char(c), 9)));
                assert(s.skip(9) =~= rest);
                lemma_lex_step(s, TokenV::Char(c), 9, rest);
            } else if c == ' ' {
                assert(s[2] == 's' && s[3] == 'p' && s[4] == 'a' && s[5] == 'c' && s[6]
                    == 'e');
                assert(spec_token(s) == Ok::<(TokenV, int), LexError>((TokenV::Char(c), 7)));
                assert(s.skip(7) =~= rest);
                lemma_lex_step(s, TokenV::Char(c), 7, rest);
            } else {
                assert(s[2] == c);
                if rest.len() > 0 {
                    assert(s[3] == rest[0]);
                    assert(s[3] != 'e' && s[3] != 'p');
                } else {
                    assert(s.len() == 3);
                }
                assert(spec_token(s) == Ok::<(TokenV, int), LexError>((TokenV::Char(c), 3)));
                assert(s.skip(3) =~= rest);
                lemma_lex_step(s, TokenV::Char(c), 3, rest);
            }
        },
        DatumV::Str(content) => {
            assert(s[0] == '"');
            assert(s.drop_first() =~= content + seq!['"'] + rest);
            lemma_find_quote_concat(content, rest);
            let i0 = content.len() as int;
            assert(s.subrange(1, 1 + i0) =~= content);
            assert(spec_token(s) == Ok::<(TokenV, int), LexError>((
                TokenV::Str(content),
                i0 + 2,
            )));
            assert(s.skip(i0 + 2) =~= rest);
            lemma_lex_step(s, TokenV::Str(content), i0 + 2, rest);
        },
        DatumV::Symbol(name) => {
            assert(s[0] == name[0]);
            assert(is_ident_start(s[0]));
            assert(!is_digit(s[0]));
            assert(s[0] != '-' && s[0] != '"');
            lemma_ident_run_concat(name, rest);
            assert(name + rest == s);
            assert(ident_run(s) == name.len());
            assert(s.take(name.len() as int) =~= name);
            assert(spec_token(s) == Ok::<(TokenV, int), LexError>((
                TokenV::Ident(name),
                name.len() as int,
            )));
            assert(s.skip(name.len() as int) =~= rest);
            lemma_lex_step(s, TokenV::Ident(name), name.len() as int, rest);
        },
        DatumV::Ellipses => {
            assert(s[0] == '.' && s[1] == '.' && s[2] == '.');
            assert(spec_token(s) == Ok::<(TokenV, int), LexError>((TokenV::Ellipses, 3)));
            assert(s.skip(3) =~= rest);
            lemma_lex_step(s, TokenV::Ellipses, 3, rest);
        },
        DatumV::List(es) => {
            assert(s[0] == '(');
            assert(spec_token(s) == Ok::<(TokenV, int), LexError>((TokenV::LParen, 1)));
            let inner = data_text(es) + (seq![')'] + rest);
            assert(s.skip(1) =~= inner);
            lemma_lex_step(s, TokenV::LParen, 1, inner);
            lemma_lex_data(es, seq![')'] + rest);
            let s2 = seq![')'] + rest;
            assert(s2[0] == ')');
            assert(spec_token(s2) == Ok::<(TokenV, int), LexError>((TokenV::RParen, 1)));
            assert(s2.skip(1) =~= rest);
            lemma_lex_step(s2, TokenV::RParen, 1, rest);
            let r = spec_lex_from(rest);
            if r is Ok {
                let tr = r->Ok_0;
                assert(seq![TokenV::LParen] + (data_tokens(es) + (seq![TokenV::RParen]
                    + tr)) =~= (seq![TokenV::LParen] + data_tokens(es) + seq![
                    TokenV::RParen,
                ]) + tr);
            }
        },
        DatumV::Vector(es) => {
            assert(s[0] == '#');
            assert(s[1] == '(');
            assert(spec_token(s) == Ok::<(TokenV, int), LexError>((TokenV::VecLParen, 2)));
            let inner = data_text(es) + (seq![')'] + rest);
            assert(s.skip(2) =~= inner);
            lemma_lex_step(s, TokenV::VecLParen, 2, inner);
            lemma_lex_data(es, seq![')'] + rest);
            let s2 = seq![')'] + rest;
            assert(s2[0] == ')');
            assert(spec_token(s2) == Ok::<(TokenV, int), LexError>((TokenV::RParen, 1)));
            assert(s2.skip(1) =~= rest);
            lemma_lex_step(s2, TokenV::RParen, 1, rest);
            let r = spec_lex_from(rest);
            if r is Ok {
                let tr = r->Ok_0;
                assert(seq![TokenV::VecLParen] + (data_tokens(es) + (seq![TokenV::RParen]
                    + tr)) =~= (seq![TokenV::VecLParen] + data_tokens(es) + seq![
                    TokenV::RParen,
                ]) + tr);
            }
        },
        DatumV::DottedList(es, t) => {
            assert(s[0] == '(');
            assert(spec_token(s) == Ok::<(TokenV, int), LexError>((TokenV::LParen, 1)));
            let after_dot = datum_text(*t) + (seq![')'] + rest);
            let dot_part = seq![' ', '.', ' '] + after_dot;
            let inner = data_text(es) + dot_part;
            assert(s.skip(1) =~= inner);
            lemma_lex_step(s, TokenV::LParen, 1, inner);
            assert(boundary(dot_part));
            lemma_lex_data(es, dot_part);
            assert(dot_part.drop_first() =~= seq!['.', ' '] + after_dot);
            assert(dot_part[0] == ' ');
            let s3 = seq!['.', ' '] + after_dot;
            assert(spec_lex_from(dot_part) == spec_lex_from(s3)) by {
                assert(dot_part =~= seq![' '] + s3);
                lemma_lex_space(s3);
            }
            assert(s3[0] == '.');
            assert(s3[1] == ' ');
            assert(spec_token(s3) == Ok::<(TokenV, int), LexError>((TokenV::Dot, 1)));
            assert(s3.skip(1) =~= seq![' '] + after_dot);
            lemma_lex_step(s3, TokenV::Dot, 1, seq![' '] + after_dot);
            lemma_lex_space(after_dot);
            lemma_lex_datum(*t, seq![')'] + rest);
            let s2 = seq![')'] + rest;
            assert(s2[0] == ')');
            assert(spec_token(s2) == Ok::<(TokenV, int), LexError>((TokenV::RParen, 1)));
            assert(s2.skip(1) =~= rest);
            lemma_lex_step(s2, TokenV::RParen, 1, rest);
            let r = spec_lex_from(rest);
            if r is Ok {
                let tr = r->Ok_0;
                assert(seq![TokenV::LParen] + (data_tokens(es) + (seq![TokenV::Dot] + (
                datum_tokens(*t) + (seq![TokenV::RParen] + tr)))) =~= (seq![TokenV::LParen]
                    + data_tokens(es) + seq![TokenV::Dot] + datum_tokens(*t) + seq![
                    TokenV::RParen,
                ]) + tr);
            }
        },
        _ => {},
    }
}

/// Lexing the renderings of a sequence of printable datums, space
/// separated, followed by boundary text.
proof fn lemma_lex_data(es: Seq<DatumV>, rest: Seq<char>)
    requires
        all_printable(es),
        boundary(rest),
    ensures
        spec_lex_from(data_text(es) + rest) == lex_cons(data_tokens(es), spec_lex_from(rest)),
    decreases es, 1int,
{
    if es.len() == 0 {
        assert(data_text(es) + rest =~= rest);
        let r = spec_lex_from(rest);
        if r is Ok {
            let tr = r->Ok_0;
            assert(Seq::<TokenV>::empty() + tr =~= tr);
        }
    } else if es.len() == 1 {
        assert(printable(es[0]));
        lemma_lex_datum(es[0], rest);
        assert(data_text(es) == datum_text(es[0]));
        assert(data_tokens(es) == datum_tokens(es[0]) + data_tokens(es.drop_first()));
        let r = spec_lex_from(rest);
        if r is Ok {
            let tr = r->Ok_0;
            assert(datum_tokens(es[0]) + tr =~= (datum_tokens(es[0]) + data_tokens(
                es.drop_first(),
            )) + tr);
        }
    } else {
        assert(printable(es[0]));
        let tail_text = data_text(es.drop_first()) + rest;
        let sep_text = seq![' '] + tail_text;
        lemma_lex_datum(es[0], sep_text);
        assert(datum_text(es[0]) + sep_text =~= data_text(es) + rest);
        lemma_lex_space(tail_text);
        assert(forall|i: int|
            0 <= i < es.drop_first().len() ==> printable(#[trigger] es.drop_first()[i]));
        lemma_lex_data(es.drop_first(), rest);
        let r = spec_lex_from(rest);
        if r is Ok {
            let tr = r->Ok_0;
            assert(datum_tokens(es[0]) + (data_tokens(es.drop_first()) + tr) =~= (
            datum_tokens(es[0]) + data_tokens(es.drop_first())) + tr);
        }
    }
}

/// The full round-trip law: lexing the canonical rendering of a
/// well-formed literal datum yields exactly its token rendering closed by
/// the end-of-input token, and reading those tokens reproduces exactly the
/// datum as the sole top-level form.
pub proof fn lemma_print_read_round_trip(d: DatumV, bp: bool)
    requires
        printable(d),
    ensures
        spec_lex(datum_text(d)) == Ok::<Seq<TokenV>, LexError>(
            datum_tokens(d).push(TokenV::Eof),
        ),
        spec_read(datum_tokens(d).push(TokenV::Eof), false, bp, 0) == Ok::<
            DatumV,
            ReadErrV,
        >(DatumV::List(seq![d])),
{
    lemma_lex_datum(d, Seq::empty());
    assert(datum_text(d) + Seq::<char>::empty() =~= datum_text(d));
    assert(spec_lex_from(Seq::<char>::empty()) == Ok::<Seq<TokenV>, LexError>(seq![
        TokenV::Eof,
    ]));
    assert(datum_tokens(d) + seq![TokenV::Eof] =~= datum_tokens(d).push(TokenV::Eof));
    lemma_read_datum_tokens(d, bp);
}

} // verus!
