//! Lexical analysis: the acceptable tokens and the lexer that turns raw
//! source text into an ordered token sequence ending in a single `Eof`.

use vstd::prelude::*;

verus! {

/// A lexical token.
#[derive(Debug, Clone, PartialEq, Eq)]
pub enum Token {
    Fixnum(i32),
    Str(String),
    Ident(String),
    Prim(String),
    Char(char),
    Bool(bool),
    LBracket,
    RBracket,
    LParen,
    RParen,
    VecLParen,
    BrackVecLParen,
    ByteVecLParen,
    Quote,
    Quasi,
    Comma,
    CommaAt,
    Hash,
    Dot,
    Ellipses,
    Comment(String),
    Eof,
}

/// Mathematical model of a token: string payloads become character
/// sequences, integer payloads become unbounded integers.
pub enum TokenV {
    Fixnum(int),
    Str(Seq<char>),
    Ident(Seq<char>),
    Prim(Seq<char>),
    Char(char),
    Bool(bool),
    LBracket,
    RBracket,
    LParen,
    RParen,
    VecLParen,
    BrackVecLParen,
    ByteVecLParen,
    Quote,
    Quasi,
    Comma,
    CommaAt,
    Hash,
    Dot,
    Ellipses,
    Comment(Seq<char>),
    Eof,
}

/// The model of a token.
pub open spec fn token_v(t: Token) -> TokenV {
    match t {
        Token::Fixnum(n) => TokenV::Fixnum(n as int),
        Token::Str(s) => TokenV::Str(s@),
        Token::Ident(s) => TokenV::Ident(s@),
        Token::Prim(s) => TokenV::Prim(s@),
        Token::Char(c) => TokenV::Char(c),
        Token::Bool(b) => TokenV::Bool(b),
        Token::LBracket => TokenV::LBracket,
        Token::RBracket => TokenV::RBracket,
        Token::LParen => TokenV::LParen,
        Token::RParen => TokenV::RParen,
        Token::VecLParen => TokenV::VecLParen,
        Token::BrackVecLParen => TokenV::BrackVecLParen,
        Token::ByteVecLParen => TokenV::ByteVecLParen,
        Token::Quote => TokenV::Quote,
        Token::Quasi => TokenV::Quasi,
        Token::Comma => TokenV::Comma,
        Token::CommaAt => TokenV::CommaAt,
        Token::Hash => TokenV::Hash,
        Token::Dot => TokenV::Dot,
        Token::Ellipses => TokenV::Ellipses,
        Token::Comment(s) => TokenV::Comment(s@),
        Token::Eof => TokenV::Eof,
    }
}

impl View for Token {
    type V = TokenV;

    open spec fn view(&self) -> TokenV {
        token_v(*self)
    }
}

impl DeepView for Token {
    type V = TokenV;

    open spec fn deep_view(&self) -> TokenV {
        token_v(*self)
    }
}

/// A fatal lexical error: the tokenizer does not attempt recovery.
#[derive(Debug, Clone, Copy, PartialEq, Eq, Structural)]
pub enum LexError {
    /// An input character that starts no recognized token.
    Unrecognized(char),
    /// A numeric literal that does not fit a 32-bit signed integer.
    FixnumOverflow,
}

/// Whitespace is skipped between tokens and never tokenized.
pub open spec fn is_ws(c: char) -> bool {
    c == ' ' || c == '\t' || c == '\n' || c == '\r'
}

pub open spec fn is_digit(c: char) -> bool {
    48 <= c as u32 <= 57
}

pub open spec fn is_letter(c: char) -> bool {
    (65 <= c as u32 <= 90) || (97 <= c as u32 <= 122)
}

/// The extended identifier character class: letters plus
/// symbol-constituent punctuation.
pub open spec fn is_ident_start(c: char) -> bool {
    is_letter(c) || c == '!' || c == '$' || c == '%' || c == '&' || c == '*' || c == '/'
        || c == ':' || c == '<' || c == '=' || c == '>' || c == '?' || c == '~' || c == '_'
        || c == '^'
}

/// Characters that may continue an identifier.
pub open spec fn is_ident_cont(c: char) -> bool {
    is_ident_start(c) || is_digit(c) || c == '.' || c == '+' || c == '-'
}

/// Length of the maximal prefix of `s` made of decimal digits.
pub open spec fn digit_run(s: Seq<char>) -> int
    decreases s.len(),
{
    if s.len() == 0 || !is_digit(s[0]) {
        0
    } else {
        1 + digit_run(s.drop_first())
    }
}

/// Length of the maximal prefix of `s` made of identifier characters.
pub open spec fn ident_run(s: Seq<char>) -> int
    decreases s.len(),
{
    if s.len() == 0 || !is_ident_cont(s[0]) {
        0
    } else {
        1 + ident_run(s.drop_first())
    }
}

/// Index of the first occurrence of `c` in `s`, if any.
pub open spec fn find_char(s: Seq<char>, c: char) -> Option<int>
    decreases s.len(),
{
    if s.len() == 0 {
        None
    } else if s[0] == c {
        Some(0int)
    } else {
        match find_char(s.drop_first(), c) {
            Some(i) => Some(i + 1),
            None => None,
        }
    }
}

/// The value of a run of decimal digits, most significant first.
pub open spec fn digits_val(s: Seq<char>) -> int
    decreases s.len(),
{
    if s.len() == 0 {
        0
    } else {
        digits_val(s.drop_last()) * 10 + (s.last() as u32 - 48)
    }
}

/// Whether `s` continues, after `#\`, with the word `newline`.
pub open spec fn names_newline(s: Seq<char>) -> bool {
    s.len() >= 9 && s[2] == 'n' && s[3] == 'e' && s[4] == 'w' && s[5] == 'l' && s[6] == 'i'
        && s[7] == 'n' && s[8] == 'e'
}

/// Whether `s` continues, after `#\`, with the word `space`.
pub open spec fn names_space(s: Seq<char>) -> bool {
    s.len() >= 7 && s[2] == 's' && s[3] == 'p' && s[4] == 'a' && s[5] == 'c' && s[6] == 'e'
}

/// The longest-match token starting at the head of `s`, with the number of
/// characters it consumes. `s` must be non-empty and start with neither
/// whitespace nor a comment.
pub open spec fn spec_token(s: Seq<char>) -> Result<(TokenV, int), LexError> {
    let c = s[0];
    if is_digit(c) {
        let n = digit_run(s);
        let v = digits_val(s.take(n));
        if v <= i32::MAX as int {
            Ok((TokenV::Fixnum(v), n))
        } else {
            Err(LexError::FixnumOverflow)
        }
    } else if c == '-' && s.len() >= 2 && is_digit(s[1]) {
        let n = digit_run(s.drop_first());
        let v = digits_val(s.subrange(1, 1 + n));
        if v <= -(i32::MIN as int) {
            Ok((TokenV::Fixnum(-v), n + 1))
        } else {
            Err(LexError::FixnumOverflow)
        }
    } else if c == '"' {
        match find_char(s.drop_first(), '"') {
            Some(i) => Ok((TokenV::Str(s.subrange(1, 1 + i)), i + 2)),
            None => Err(LexError::Unrecognized('"')),
        }
    } else if is_ident_start(c) {
        let n = ident_run(s);
        Ok((TokenV::Ident(s.take(n)), n))
    } else if c == '+' || c == '*' || c == '/' || c == '-' {
        Ok((TokenV::Prim(seq![c]), 1))
    } else if c == '#' {
        if s.len() >= 4 && s[1] == 'u' && s[2] == '8' && s[3] == '(' {
            Ok((TokenV::ByteVecLParen, 4))
        } else if s.len() >= 2 && s[1] == '\\' {
            if names_newline(s) {
                Ok((TokenV::Char('\n'), 9))
            } else if names_space(s) {
                Ok((TokenV::Char(' '), 7))
            } else if s.len() >= 3 {
                Ok((TokenV::Char(s[2]), 3))
            } else {
                Ok((TokenV::Hash, 1))
            }
        } else if s.len() >= 2 && s[1] == '(' {
            Ok((TokenV::VecLParen, 2))
        } else if s.len() >= 2 && s[1] == '[' {
            Ok((TokenV::BrackVecLParen, 2))
        } else if s.len() >= 2 && s[1] == 't' {
            Ok((TokenV::Bool(true), 2))
        } else if s.len() >= 2 && s[1] == 'f' {
            Ok((TokenV::Bool(false), 2))
        } else {
            Ok((TokenV::Hash, 1))
        }
    } else if c == '(' {
        Ok((TokenV::LParen, 1))
    } else if c == ')' {
        Ok((TokenV::RParen, 1))
    } else if c == '[' {
        Ok((TokenV::LBracket, 1))
    } else if c == ']' {
        Ok((TokenV::RBracket, 1))
    } else if c == '\'' {
        Ok((TokenV::Quote, 1))
    } else if c == '`' {
        Ok((TokenV::Quasi, 1))
    } else if c == ',' {
        if s.len() >= 2 && s[1] == '@' {
            Ok((TokenV::CommaAt, 2))
        } else {
            Ok((TokenV::Comma, 1))
        }
    } else if c == '.' {
        if s.len() >= 3 && s[1] == '.' && s[2] == '.' {
            Ok((TokenV::Ellipses, 3))
        } else {
            Ok((TokenV::Dot, 1))
        }
    } else {
        Err(LexError::Unrecognized(c))
    }
}

/// How many characters a comment starting at the head of `s` occupies: up
/// to and including the next newline, or the rest of the input.
pub open spec fn comment_skip(s: Seq<char>) -> int {
    match find_char(s.drop_first(), '\n') {
        Some(i) => if i + 2 <= s.len() {
            i + 2
        } else {
            s.len() as int
        },
        None => s.len() as int,
    }
}

/// The token sequence of the suffix `s` of the input: whitespace skipped,
/// comments dropped, and a final `Eof` token appended.
pub open spec fn spec_lex_from(s: Seq<char>) -> Result<Seq<TokenV>, LexError>
    decreases s.len(),
{
    if s.len() == 0 {
        Ok(seq![TokenV::Eof])
    } else if is_ws(s[0]) {
        spec_lex_from(s.drop_first())
    } else if s[0] == ';' {
        spec_lex_from(s.skip(if 1 <= comment_skip(s) <= s.len() {
            comment_skip(s)
        } else {
            1
        }))
    } else {
        match spec_token(s) {
            Err(e) => Err(e),
            Ok((t, n)) => match spec_lex_from(s.skip(if 1 <= n <= s.len() {
                n
            } else {
                1
            })) {
                Err(e) => Err(e),
                Ok(rest) => Ok(seq![t] + rest),
            },
        }
    }
}

/// The token sequence of the whole input.
pub open spec fn spec_lex(s: Seq<char>) -> Result<Seq<TokenV>, LexError> {
    spec_lex_from(s)
}

/// A run of `k` digits followed by a non-digit (or the end) pins `digit_run`.
proof fn lemma_digit_run_is(s: Seq<char>, k: int)
    requires
        0 <= k <= s.len(),
        forall|i: int| 0 <= i < k ==> is_digit(#[trigger] s[i]),
        k < s.len() ==> !is_digit(s[k]),
    ensures
        digit_run(s) == k,
    decreases k,
{
    if k == 0 {
    } else {
        assert(is_digit(s[0]));
        lemma_digit_run_is(s.drop_first(), k - 1);
    }
}

/// A run of `k` identifier characters followed by a non-identifier
/// character (or the end) pins `ident_run`.
proof fn lemma_ident_run_is(s: Seq<char>, k: int)
    requires
        0 <= k <= s.len(),
        forall|i: int| 0 <= i < k ==> is_ident_cont(#[trigger] s[i]),
        k < s.len() ==> !is_ident_cont(s[k]),
    ensures
        ident_run(s) == k,
    decreases k,
{
    if k == 0 {
    } else {
        assert(is_ident_cont(s[0]));
        lemma_ident_run_is(s.drop_first(), k - 1);
    }
}

/// `k` misses followed by a hit (or the end) pin `find_char`.
proof fn lemma_find_char_is(s: Seq<char>, c: char, k: int)
    requires
        0 <= k <= s.len(),
        forall|i: int| 0 <= i < k ==> #[trigger] s[i] != c,
        k < s.len() ==> s[k] == c,
    ensures
        find_char(s, c) == if k < s.len() {
            Some(k)
        } else {
            None::<int>
        },
    decreases k,
{
    if k == 0 {
    } else {
        assert(s[0] != c);
        lemma_find_char_is(s.drop_first(), c, k - 1);
    }
}

/// Appending a digit multiplies the value by ten and adds the digit.
pub proof fn lemma_digits_val_push(s: Seq<char>, d: char)
    ensures
        digits_val(s.push(d)) == digits_val(s) * 10 + (d as u32 - 48),
{
    assert(s.push(d).drop_last() =~= s);
    assert(s.push(d).last() == d);
}

/// A digit run is never negative in length.
proof fn lemma_digit_run_nonneg(s: Seq<char>)
    ensures
        digit_run(s) >= 0,
    decreases s.len(),
{
    if s.len() != 0 && is_digit(s[0]) {
        lemma_digit_run_nonneg(s.drop_first());
    }
}

/// An identifier run is never negative in length.
proof fn lemma_ident_run_nonneg(s: Seq<char>)
    ensures
        ident_run(s) >= 0,
    decreases s.len(),
{
    if s.len() != 0 && is_ident_cont(s[0]) {
        lemma_ident_run_nonneg(s.drop_first());
    }
}

/// The value of an all-digit run is never negative.
proof fn lemma_digits_val_nonneg(s: Seq<char>)
    requires
        forall|i: int| 0 <= i < s.len() ==> is_digit(#[trigger] s[i]),
    ensures
        digits_val(s) >= 0,
    decreases s.len(),
{
    if s.len() > 0 {
        assert(forall|i: int|
            0 <= i < s.drop_last().len() ==> is_digit(#[trigger] s.drop_last()[i]));
        lemma_digits_val_nonneg(s.drop_last());
        assert(is_digit(s.last()));
    }
}

/// Converts a run of characters to an owned string.
///
/// Relies on `<String as FromIterator<char>>::from_iter` (through
/// `Iterator::collect`): the collected string holds exactly the iterated
/// characters in order. vstd offers no character-level string builder.
#[verifier::external_body]
pub(crate) fn chars_to_string(cs: &Vec<char>, from: usize, to: usize) -> (r: String)
    requires
        from <= to <= cs@.len(),
    ensures
        r@ == cs@.subrange(from as int, to as int),
{
    cs[from..to].iter().collect()
}

fn is_digit_x(c: char) -> (b: bool)
    ensures
        b == is_digit(c),
{
    let n = c as u32;
    48 <= n && n <= 57
}

fn is_ident_start_x(c: char) -> (b: bool)
    ensures
        b == is_ident_start(c),
{
    let n = c as u32;
    (65 <= n && n <= 90) || (97 <= n && n <= 122) || c == '!' || c == '$' || c == '%'
        || c == '&' || c == '*' || c == '/' || c == ':' || c == '<' || c == '=' || c == '>'
        || c == '?' || c == '~' || c == '_' || c == '^'
}

fn is_ident_cont_x(c: char) -> (b: bool)
    ensures
        b == is_ident_cont(c),
{
    is_ident_start_x(c) || is_digit_x(c) || c == '.' || c == '+' || c == '-'
}

/// Length of the digit run of `cs` starting at `from`.
fn scan_digits(cs: &Vec<char>, from: usize) -> (n: usize)
    requires
        from <= cs@.len(),
    ensures
        from + n <= cs@.len(),
        n as int == digit_run(cs@.skip(from as int)),
        forall|i: int| from <= i < from + n ==> is_digit(#[trigger] cs@[i]),
{
    let mut j = from;
    while j < cs.len() && is_digit_x(cs[j])
        invariant
            from <= j <= cs@.len(),
            forall|i: int| from <= i < j ==> is_digit(#[trigger] cs@[i]),
        decreases cs@.len() - j,
    {
        j = j + 1;
    }
    proof {
        let s = cs@.skip(from as int);
        assert(forall|i: int| 0 <= i < s.len() ==> s[i] == cs@[from + i]);
        lemma_digit_run_is(s, j - from);
    }
    j - from
}

/// Length of the identifier run of `cs` starting at `from`.
fn scan_ident(cs: &Vec<char>, from: usize) -> (n: usize)
    requires
        from <= cs@.len(),
    ensures
        from + n <= cs@.len(),
        n as int == ident_run(cs@.skip(from as int)),
{
    let mut j = from;
    while j < cs.len() && is_ident_cont_x(cs[j])
        invariant
            from <= j <= cs@.len(),
            forall|i: int| from <= i < j ==> is_ident_cont(#[trigger] cs@[i]),
        decreases cs@.len() - j,
    {
        j = j + 1;
    }
    proof {
        let s = cs@.skip(from as int);
        assert(forall|i: int| 0 <= i < s.len() ==> s[i] == cs@[from + i]);
        lemma_ident_run_is(s, j - from);
    }
    j - from
}

/// First position of `c` in `cs` at or after `from`, if any.
fn scan_find(cs: &Vec<char>, from: usize, c: char) -> (r: Option<usize>)
    requires
        from <= cs@.len(),
    ensures
        match find_char(cs@.skip(from as int), c) {
            Some(i) => 0 <= i && from + i < cs@.len() && r == Some((from + i) as usize),
            None => r is None,
        },
{
    let mut j = from;
    while j < cs.len()
        invariant
            from <= j <= cs@.len(),
            forall|i: int| from <= i < j ==> #[trigger] cs@[i] != c,
        decreases cs@.len() - j,
    {
        if cs[j] == c {
            proof {
                let s = cs@.skip(from as int);
                assert(forall|i: int| 0 <= i < s.len() ==> s[i] == cs@[from + i]);
                lemma_find_char_is(s, c, j - from);
            }
            return Some(j);
        }
        j = j + 1;
    }
    proof {
        let s = cs@.skip(from as int);
        assert(forall|i: int| 0 <= i < s.len() ==> s[i] == cs@[from + i]);
        lemma_find_char_is(s, c, s.len() as int);
    }
    None
}

/// Value of the digit run `cs[from..from + n]`, saturating well above the
/// 32-bit range so overflow can still be told apart exactly.
fn parse_digits(cs: &Vec<char>, from: usize, n: usize) -> (r: u64)
    requires
        from + n <= cs@.len(),
        forall|i: int| from <= i < from + n ==> is_digit(#[trigger] cs@[i]),
    ensures
        ({
            let v = digits_val(cs@.subrange(from as int, from + n));
            &&& (v < 3000000000 ==> r == v)
            &&& (v >= 3000000000 ==> r >= 3000000000)
        }),
{
    let len = cs.len();
    let end = from + n;
    let mut acc: u64 = 0;
    let mut j = from;
    while j < end
        invariant
            end == from + n,
            from <= j <= from + n,
            from + n <= cs@.len(),
            forall|i: int| from <= i < from + n ==> is_digit(#[trigger] cs@[i]),
            ({
                let v = digits_val(cs@.subrange(from as int, j as int));
                &&& (v < 3000000000 ==> acc == v)
                &&& (v >= 3000000000 ==> acc >= 3000000000)
                &&& acc <= 30000000000
            }),
        decreases from + n - j,
    {
        let d = (cs[j] as u32 - 48) as u64;
        proof {
            let pre = cs@.subrange(from as int, j as int);
            assert(cs@.subrange(from as int, j + 1) =~= pre.push(cs@[j as int]));
            lemma_digits_val_push(pre, cs@[j as int]);
        }
        if acc >= 3000000000 {
            acc = 3000000000;
        } else {
            acc = acc * 10 + d;
        }
        j = j + 1;
    }
    acc
}

/// Reads the single longest-match token starting at `pos`, which must sit
/// on neither whitespace nor a comment, and says where the next one starts.
#[verifier::rlimit(100)]
fn lex_token(cs: &Vec<char>, pos: usize) -> (r: Result<(Token, usize), LexError>)
    requires
        pos < cs@.len(),
        !is_ws(cs@[pos as int]),
        cs@[pos as int] != ';',
    ensures
        match r {
            Ok(p) => spec_token(cs@.skip(pos as int)) == Ok::<(TokenV, int), LexError>((
                p.0.deep_view(),
                p.1 - pos,
            )) && pos < p.1 <= cs@.len(),
            Err(e) => spec_token(cs@.skip(pos as int)) == Err::<(TokenV, int), LexError>(e),
        },
{
    let ghost su = cs@.skip(pos as int);
    proof {
        assert(su.len() == cs@.len() - pos);
        assert(forall|k: int| 0 <= k < su.len() ==> su[k] == cs@[pos + k]);
    }
    let clen = cs.len();
    let c = cs[pos];
    let tok: Token;
    let newpos: usize;
    if is_digit_x(c) {
        let rn = scan_digits(&cs, pos);
        proof {
            assert(su.take(digit_run(su)) =~= cs@.subrange(pos as int, pos + rn));
            lemma_digit_run_nonneg(su.drop_first());
            lemma_digits_val_nonneg(cs@.subrange(pos as int, pos + rn));
        }
        let v = parse_digits(&cs, pos, rn);
        if v <= 2147483647 {
            tok = Token::Fixnum(v as i32);
            newpos = pos + rn;
            proof {
                assert(spec_token(su) == Ok::<(TokenV, int), LexError>((
                    tok.deep_view(),
                    newpos - pos,
                )));
            }
        } else {
            proof {
                assert(spec_token(su) == Err::<(TokenV, int), LexError>(
                    LexError::FixnumOverflow,
                ));
            }
            return Err(LexError::FixnumOverflow);
        }
    } else if c == '-' && pos + 1 < clen && is_digit_x(cs[pos + 1]) {
        let ghost sd = su.drop_first();
        proof {
            assert(sd =~= cs@.skip(pos + 1));
        }
        let rn = scan_digits(&cs, pos + 1);
        proof {
            assert(su.subrange(1, 1 + digit_run(sd)) =~= cs@.subrange(
                pos + 1,
                pos + 1 + rn,
            ));
            lemma_digit_run_nonneg(sd.drop_first());
            lemma_digits_val_nonneg(cs@.subrange(pos + 1, pos + 1 + rn));
        }
        let v = parse_digits(&cs, pos + 1, rn);
        if v <= 2147483648 {
            tok = Token::Fixnum((0i64 - v as i64) as i32);
            newpos = pos + 1 + rn;
            proof {
                assert(spec_token(su) == Ok::<(TokenV, int), LexError>((
                    tok.deep_view(),
                    newpos - pos,
                )));
            }
        } else {
            proof {
                assert(spec_token(su) == Err::<(TokenV, int), LexError>(
                    LexError::FixnumOverflow,
                ));
            }
            return Err(LexError::FixnumOverflow);
        }
    } else if c == '"' {
        proof {
            assert(su.drop_first() =~= cs@.skip(pos + 1));
        }
        match scan_find(&cs, pos + 1, '"') {
            Some(j) => {
                proof {
                    let i0 = j - (pos + 1);
                    assert(su.subrange(1, 1 + i0) =~= cs@.subrange(
                        pos + 1,
                        j as int,
                    ));
                }
                tok = Token::Str(chars_to_string(&cs, pos + 1, j));
                newpos = j + 1;
                proof {
                    assert(spec_token(su) == Ok::<(TokenV, int), LexError>((
                        tok.deep_view(),
                        newpos - pos,
                    )));
                }
            },
            None => {
                proof {
                    assert(spec_token(su) == Err::<(TokenV, int), LexError>(
                        LexError::Unrecognized('"'),
                    ));
                }
                return Err(LexError::Unrecognized('"'));
            },
        }
    } else if is_ident_start_x(c) {
        let rn = scan_ident(&cs, pos);
        proof {
            assert(su.take(ident_run(su)) =~= cs@.subrange(pos as int, pos + rn));
            lemma_ident_run_nonneg(su.drop_first());
            assert(rn >= 1);
        }
        tok = Token::Ident(chars_to_string(&cs, pos, pos + rn));
        newpos = pos + rn;
        proof {
            assert(spec_token(su) == Ok::<(TokenV, int), LexError>((
                tok.deep_view(),
                newpos - pos,
            )));
        }
    } else if c == '+' || c == '*' || c == '/' || c == '-' {
        proof {
            assert(cs@.subrange(pos as int, pos + 1) =~= seq![su[0]]);
        }
        tok = Token::Prim(chars_to_string(&cs, pos, pos + 1));
        newpos = pos + 1;
    } else if c == '#' {
        if clen - pos > 3 && cs[pos + 1] == 'u' && cs[pos + 2] == '8'
            && cs[pos + 3] == '(' {
            tok = Token::ByteVecLParen;
            newpos = pos + 4;
        } else if pos + 1 < clen && cs[pos + 1] == '\\' {
            if clen - pos > 8 && cs[pos + 2] == 'n' && cs[pos + 3] == 'e'
                && cs[pos + 4] == 'w' && cs[pos + 5] == 'l' && cs[pos + 6] == 'i'
                && cs[pos + 7] == 'n' && cs[pos + 8] == 'e' {
                tok = Token::Char('\n');
                newpos = pos + 9;
            } else if clen - pos > 6 && cs[pos + 2] == 's' && cs[pos + 3] == 'p'
                && cs[pos + 4] == 'a' && cs[pos + 5] == 'c' && cs[pos + 6] == 'e' {
                tok = Token::Char(' ');
                newpos = pos + 7;
            } else if clen - pos > 2 {
                tok = Token::Char(cs[pos + 2]);
                newpos = pos + 3;
            } else {
                tok = Token::Hash;
                newpos = pos + 1;
            }
        } else if pos + 1 < clen && cs[pos + 1] == '(' {
            tok = Token::VecLParen;
            newpos = pos + 2;
        } else if pos + 1 < clen && cs[pos + 1] == '[' {
            tok = Token::BrackVecLParen;
            newpos = pos + 2;
        } else if pos + 1 < clen && cs[pos + 1] == 't' {
            tok = Token::Bool(true);
            newpos = pos + 2;
        } else if pos + 1 < clen && cs[pos + 1] == 'f' {
            tok = Token::Bool(false);
            newpos = pos + 2;
        } else {
            tok = Token::Hash;
            newpos = pos + 1;
        }
    } else if c == '(' {
        tok = Token::LParen;
        newpos = pos + 1;
    } else if c == ')' {
        tok = Token::RParen;
        newpos = pos + 1;
    } else if c == '[' {
        tok = Token::LBracket;
        newpos = pos + 1;
    } else if c == ']' {
        tok = Token::RBracket;
        newpos = pos + 1;
    } else if c == '\'' {
        tok = Token::Quote;
        newpos = pos + 1;
    } else if c == '`' {
        tok = Token::Quasi;
        newpos = pos + 1;
    } else if c == ',' {
        if pos + 1 < clen && cs[pos + 1] == '@' {
            tok = Token::CommaAt;
            newpos = pos + 2;
        } else {
            tok = Token::Comma;
            newpos = pos + 1;
        }
    } else if c == '.' {
        if clen - pos > 2 && cs[pos + 1] == '.' && cs[pos + 2] == '.' {
            tok = Token::Ellipses;
            newpos = pos + 3;
        } else {
            tok = Token::Dot;
            newpos = pos + 1;
        }
    } else {
        return Err(LexError::Unrecognized(c));
    }
    Ok((tok, newpos))
}

impl Token {
    /// Lexes the source text into its full token sequence, ending in `Eof`,
    /// with comments and whitespace dropped. Unrecognized input and numeric
    /// overflow are fatal lexical errors.
    #[verifier::rlimit(100)]
    pub fn really_lex(src: String) -> (r: Result<Vec<Token>, LexError>)
        ensures
            match r {
                Ok(toks) => spec_lex(src@) == Ok::<Seq<TokenV>, LexError>(toks.deep_view()),
                Err(e) => spec_lex(src@) == Err::<Seq<TokenV>, LexError>(e),
            },
    {
        let s = src.as_str();
        let n = s.unicode_len();
        let mut cs: Vec<char> = Vec::new();
        let mut i: usize = 0;
        while i < n
            invariant
                i <= n,
                n == src@.len(),
                s@ == src@,
                cs@ == src@.take(i as int),
            decreases n - i,
        {
            cs.push(s.get_char(i));
            proof {
                assert(cs@ =~= src@.take(i + 1));
            }
            i = i + 1;
        }
        proof {
            assert(cs@ =~= src@);
        }

        let mut toks: Vec<Token> = Vec::new();
        let mut pos: usize = 0;
        while pos < cs.len()
            invariant
                pos <= cs@.len(),
                cs@ == src@,
                match spec_lex_from(src@.skip(pos as int)) {
                    Ok(rest) => spec_lex(src@) == Ok::<Seq<TokenV>, LexError>(
                        toks.deep_view() + rest,
                    ),
                    Err(e) => spec_lex(src@) == Err::<Seq<TokenV>, LexError>(e),
                },
            decreases cs@.len() - pos,
        {
            let ghost su = src@.skip(pos as int);
            proof {
                assert(su.len() == src@.len() - pos);
                assert(forall|k: int| 0 <= k < su.len() ==> su[k] == src@[pos + k]);
            }
            let c = cs[pos];
            if c == ' ' || c == '\t' || c == '\n' || c == '\r' {
                proof {
                    assert(su.drop_first() =~= src@.skip(pos + 1));
                }
                pos = pos + 1;
            } else if c == ';' {
                proof {
                    assert(su.drop_first() =~= src@.skip(pos + 1));
                }
                let newpos = match scan_find(&cs, pos + 1, '\n') {
                    Some(j) => j + 1,
                    None => cs.len(),
                };
                proof {
                    let csk = comment_skip(su);
                    assert(1 <= csk <= su.len());
                    assert(su.skip(csk) =~= src@.skip(pos + csk));
                    assert(newpos == pos + csk);
                }
                pos = newpos;
            } else {
                match lex_token(&cs, pos) {
                    Ok((tok, newpos)) => {
                        proof {
                            assert(su.skip(newpos - pos) =~= src@.skip(newpos as int));
                        }
                        let ghost old_toks = toks.deep_view();
                        let ghost tv = tok.deep_view();
                        toks.push(tok);
                        proof {
                            assert(toks.deep_view() =~= old_toks + seq![tv]);
                            let r2 = spec_lex_from(src@.skip(newpos as int));
                            if r2 is Ok {
                                let rest = r2->Ok_0;
                                assert((old_toks + seq![tv]) + rest =~= old_toks + (seq![tv]
                                    + rest));
                            }
                        }
                        pos = newpos;
                    },
                    Err(e) => {
                        return Err(e);
                    },
                }
            }
        }
        proof {
            assert(src@.skip(pos as int) =~= Seq::<char>::empty());
            assert(src@.skip(pos as int).len() == 0);
        }
        let ghost old_toks = toks.deep_view();
        toks.push(Token::Eof);
        proof {
            assert(toks.deep_view() =~= old_toks + seq![TokenV::Eof]);
        }
        Ok(toks)
    }

}

} // verus!
