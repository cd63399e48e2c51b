//! The datum reader: a one-token-lookahead recursive-descent parser over an
//! owned token buffer with an explicit cursor, producing a `Datum` tree.

use vstd::prelude::*;

use crate::datum::{data_v, datum_v, lemma_data_v_push, AbbrevPrefix, Datum, DatumV};
use crate::expander::ExpanderError;
use crate::token::{Token, TokenV};

verus! {

/// A classified read-level error.
#[derive(Debug, PartialEq)]
pub enum ReadError {
    /// A token that cannot start an expression here.
    UnknownSymbol(Token),
    /// A list terminator where an expression was expected.
    UnexpectedListTerminator(Token),
    /// A dotted-pair tail not followed by the matching terminator.
    ExpectedListTerminator(Token),
    /// An abbreviation prefix immediately followed by end of input.
    UnhandledQuote,
    /// An error passed through from embedded expansion logic.
    ExpandError(ExpanderError),
    /// The catch-all: input ended inside a compound form.
    Nothing,
}

/// Mathematical model of a read-level error.
pub enum ReadErrV {
    UnknownSymbol(TokenV),
    UnexpectedListTerminator(TokenV),
    ExpectedListTerminator(TokenV),
    UnhandledQuote,
    ExpandError(ExpanderError),
    Nothing,
}

/// The model of a read-level error.
pub open spec fn read_err_v(e: ReadError) -> ReadErrV {
    match e {
        ReadError::UnknownSymbol(t) => ReadErrV::UnknownSymbol(t.deep_view()),
        ReadError::UnexpectedListTerminator(t) => ReadErrV::UnexpectedListTerminator(
            t.deep_view(),
        ),
        ReadError::ExpectedListTerminator(t) => ReadErrV::ExpectedListTerminator(
            t.deep_view(),
        ),
        ReadError::UnhandledQuote => ReadErrV::UnhandledQuote,
        ReadError::ExpandError(e) => ReadErrV::ExpandError(e),
        ReadError::Nothing => ReadErrV::Nothing,
    }
}

impl View for ReadError {
    type V = ReadErrV;

    open spec fn view(&self) -> ReadErrV {
        read_err_v(*self)
    }
}

impl From<ExpanderError> for ReadError {
    fn from(value: ExpanderError) -> (r: Self) {
        ReadError::ExpandError(value)
    }
}

impl vstd::std_specs::convert::FromSpecImpl<ExpanderError> for ReadError {
    open spec fn obeys_from_spec() -> bool {
        true
    }

    open spec fn from_spec(value: ExpanderError) -> Self {
        ReadError::ExpandError(value)
    }
}

pub type ReadResult<T> = Result<T, ReadError>;

/// Folds an ASCII capital letter to its lower-case form; other characters
/// stay as they are.
pub open spec fn fold_char(c: char) -> char {
    if 65 <= c as u32 <= 90 {
        ((c as u32 + 32) as u8) as char
    } else {
        c
    }
}

/// Folds every character of a symbol name.
pub open spec fn fold_chars(s: Seq<char>) -> Seq<char> {
    Seq::new(s.len(), |i: int| fold_char(s[i]))
}

/// The name a symbol gets when read: folded to lower case when the reader
/// is case-insensitive.
pub open spec fn symbol_name(ci: bool, s: Seq<char>) -> Seq<char> {
    if ci {
        fold_chars(s)
    } else {
        s
    }
}

/// Case folding is idempotent: folding an already folded name changes
/// nothing, so symbols read case-insensitively are canonical however often
/// their text is folded.
pub proof fn lemma_fold_idempotent(s: Seq<char>)
    ensures
        fold_chars(fold_chars(s)) == fold_chars(s),
{
    assert(fold_chars(fold_chars(s)) =~= fold_chars(s));
}

/// The token at position `i`, with end of input read as `Eof`.
pub open spec fn tok_at(s: Seq<TokenV>, i: int) -> TokenV {
    if 0 <= i < s.len() {
        s[i]
    } else {
        TokenV::Eof
    }
}

/// The terminator that must close a form opened by `sep`, if `sep` may
/// open one at all: `(`..`)` always, `[`..`]` only when brackets count as
/// parentheses, never mixed.
pub open spec fn spec_terminator(sep: TokenV, bp: bool) -> Option<TokenV> {
    if sep == TokenV::LParen {
        Some(TokenV::RParen)
    } else if sep == TokenV::LBracket && bp {
        Some(TokenV::RBracket)
    } else {
        None
    }
}

/// Reads one expression starting at `i`: atoms map to atoms, abbreviation
/// markers wrap the following expression, parentheses open lists, and end
/// of input yields the `Eof` datum.
pub open spec fn spec_read_expr(s: Seq<TokenV>, ci: bool, bp: bool, i: int) -> Result<
    (DatumV, int),
    ReadErrV,
>
    decreases s.len() - i, 0int,
{
    if i >= s.len() {
        Ok((DatumV::Eof, i))
    } else {
        let t = s[i];
        match t {
            TokenV::Ident(n) => Ok((DatumV::Symbol(symbol_name(ci, n)), i + 1)),
            TokenV::Prim(n) => Ok((DatumV::Symbol(symbol_name(ci, n)), i + 1)),
            TokenV::Bool(b) => Ok((DatumV::Bool(b), i + 1)),
            TokenV::Fixnum(n) => Ok((DatumV::Fixnum(n), i + 1)),
            TokenV::Char(c) => Ok((DatumV::Char(c), i + 1)),
            TokenV::Str(st) => Ok((DatumV::Str(st), i + 1)),
            TokenV::Ellipses => Ok((DatumV::Ellipses, i + 1)),
            TokenV::Quote => spec_read_quote(s, ci, bp, i + 1, AbbrevPrefix::Quote),
            TokenV::Quasi => spec_read_quote(s, ci, bp, i + 1, AbbrevPrefix::Quasi),
            TokenV::Comma => spec_read_quote(s, ci, bp, i + 1, AbbrevPrefix::Comma),
            TokenV::CommaAt => spec_read_quote(s, ci, bp, i + 1, AbbrevPrefix::CommaAt),
            TokenV::RParen => Err(ReadErrV::UnexpectedListTerminator(t)),
            TokenV::RBracket => if bp {
                Err(ReadErrV::UnexpectedListTerminator(t))
            } else {
                Err(ReadErrV::UnknownSymbol(t))
            },
            TokenV::BrackVecLParen => if bp {
                spec_read_vector(s, ci, bp, i + 1, TokenV::LBracket)
            } else {
                Err(ReadErrV::UnknownSymbol(t))
            },
            TokenV::VecLParen => spec_read_vector(s, ci, bp, i + 1, TokenV::LParen),
            TokenV::ByteVecLParen => Err(ReadErrV::UnknownSymbol(t)),
            TokenV::LParen => spec_read_sexpr(s, ci, bp, i + 1, TokenV::LParen),
            TokenV::LBracket => if bp {
                spec_read_sexpr(s, ci, bp, i + 1, TokenV::LBracket)
            } else {
                Err(ReadErrV::UnknownSymbol(t))
            },
            TokenV::Eof => Ok((DatumV::Eof, i + 1)),
            TokenV::Hash => Err(ReadErrV::UnknownSymbol(t)),
            TokenV::Dot => Err(ReadErrV::UnknownSymbol(t)),
            TokenV::Comment(_) => Err(ReadErrV::UnknownSymbol(t)),
        }
    }
}

/// Reads the expression after an abbreviation marker and wraps it; end of
/// input right after the marker is the unhandled-quote error.
pub open spec fn spec_read_quote(
    s: Seq<TokenV>,
    ci: bool,
    bp: bool,
    i: int,
    p: AbbrevPrefix,
) -> Result<(DatumV, int), ReadErrV>
    decreases s.len() - i, 1int,
{
    match spec_read_expr(s, ci, bp, i) {
        Err(e) => Err(e),
        Ok((d, j)) => if d == DatumV::Eof {
            Err(ReadErrV::UnhandledQuote)
        } else {
            Ok((DatumV::Quote(p, Box::new(d)), j))
        },
    }
}

/// Reads the body of a list opened by `sep`, starting after the opener. A
/// dot before any element yields the empty list without consuming it.
pub open spec fn spec_read_sexpr(
    s: Seq<TokenV>,
    ci: bool,
    bp: bool,
    i: int,
    sep: TokenV,
) -> Result<(DatumV, int), ReadErrV>
    decreases s.len() - i, 3int,
{
    match spec_terminator(sep, bp) {
        None => Err(ReadErrV::UnknownSymbol(sep)),
        Some(term) => if tok_at(s, i) == TokenV::Dot {
            Ok((DatumV::List(Seq::empty()), i))
        } else {
            spec_read_elems(s, ci, bp, i, term, Seq::empty())
        },
    }
}

/// Reads list elements until the terminator closes a proper list, or a dot
/// introduces the tail of a dotted list, whose very next token must be the
/// matching terminator. Input that ends inside the list is the catch-all
/// error.
pub open spec fn spec_read_elems(
    s: Seq<TokenV>,
    ci: bool,
    bp: bool,
    i: int,
    term: TokenV,
    acc: Seq<DatumV>,
) -> Result<(DatumV, int), ReadErrV>
    decreases s.len() - i, 2int,
{
    if tok_at(s, i) == term {
        Ok((DatumV::List(acc), i + 1))
    } else if tok_at(s, i) == TokenV::Dot {
        match spec_read_expr(s, ci, bp, i + 1) {
            Err(e) => Err(e),
            Ok((tail, j)) => {
                let t2 = tok_at(s, j);
                if t2 == term {
                    Ok((DatumV::DottedList(acc, Box::new(tail)), j + 1))
                } else {
                    Err(ReadErrV::ExpectedListTerminator(t2))
                }
            },
        }
    } else if i >= s.len() {
        Err(ReadErrV::Nothing)
    } else {
        match spec_read_expr(s, ci, bp, i) {
            Err(e) => Err(e),
            Ok((d, j)) => if d == DatumV::Eof {
                Err(ReadErrV::Nothing)
            } else {
                spec_read_elems(
                    s,
                    ci,
                    bp,
                    if i < j && j <= s.len() {
                        j
                    } else {
                        i + 1
                    },
                    term,
                    acc.push(d),
                )
            },
        }
    }
}

/// Reads a vector opened by `#(` or `#[`: exactly list reading, with the
/// element sequence wrapped as a vector. A dotted body is the catch-all
/// error.
pub open spec fn spec_read_vector(
    s: Seq<TokenV>,
    ci: bool,
    bp: bool,
    i: int,
    sep: TokenV,
) -> Result<(DatumV, int), ReadErrV>
    decreases s.len() - i, 4int,
{
    match spec_read_sexpr(s, ci, bp, i, sep) {
        Err(e) => Err(e),
        Ok((d, j)) => match d {
            DatumV::List(es) => Ok((DatumV::Vector(es), j)),
            _ => Err(ReadErrV::Nothing),
        },
    }
}

/// Reads top-level expressions until the `Eof` datum and collects them
/// into one outer list.
pub open spec fn spec_read_program(
    s: Seq<TokenV>,
    ci: bool,
    bp: bool,
    i: int,
    acc: Seq<DatumV>,
) -> Result<DatumV, ReadErrV>
    decreases s.len() - i, 5int,
{
    if i >= s.len() {
        Ok(DatumV::List(acc))
    } else {
        match spec_read_expr(s, ci, bp, i) {
        Err(e) => Err(e),
        Ok((d, j)) => if d == DatumV::Eof {
            Ok(DatumV::List(acc))
        } else {
            spec_read_program(
                s,
                ci,
                bp,
                if i < j && j <= s.len() {
                    j
                } else {
                    i + 1
                },
                acc.push(d),
            )
        },
        }
    }
}

/// What `read` yields from position `i`: the outer list of all top-level
/// expressions, or `Eof` when no token at all is left.
pub open spec fn spec_read(s: Seq<TokenV>, ci: bool, bp: bool, i: int) -> Result<
    DatumV,
    ReadErrV,
> {
    if i >= s.len() {
        Ok(DatumV::Eof)
    } else {
        spec_read_program(s, ci, bp, i, Seq::empty())
    }
}

/// On success the reader's cursor never moves backwards nor past the end,
/// and any expression other than the end marker consumes at least one
/// token.
pub proof fn lemma_read_expr_bounds(s: Seq<TokenV>, ci: bool, bp: bool, i: int)
    requires
        0 <= i,
    ensures
        spec_read_expr(s, ci, bp, i) matches Ok((d, j)) ==> {
            &&& i <= j
            &&& (d != DatumV::Eof ==> i < j && j <= s.len())
            &&& (i < s.len() ==> i < j && j <= s.len())
        },
    decreases s.len() - i, 0int,
{
    if i < s.len() {
        match s[i] {
            TokenV::Quote => lemma_read_quote_bounds(s, ci, bp, i + 1, AbbrevPrefix::Quote),
            TokenV::Quasi => lemma_read_quote_bounds(s, ci, bp, i + 1, AbbrevPrefix::Quasi),
            TokenV::Comma => lemma_read_quote_bounds(s, ci, bp, i + 1, AbbrevPrefix::Comma),
            TokenV::CommaAt => lemma_read_quote_bounds(
                s,
                ci,
                bp,
                i + 1,
                AbbrevPrefix::CommaAt,
            ),
            TokenV::BrackVecLParen => {
                if bp {
                    lemma_read_vector_bounds(s, ci, bp, i + 1, TokenV::LBracket);
                }
            },
            TokenV::VecLParen => lemma_read_vector_bounds(s, ci, bp, i + 1, TokenV::LParen),
            TokenV::LParen => lemma_read_sexpr_bounds(s, ci, bp, i + 1, TokenV::LParen),
            TokenV::LBracket => {
                if bp {
                    lemma_read_sexpr_bounds(s, ci, bp, i + 1, TokenV::LBracket);
                }
            },
            _ => {},
        }
    }
}

/// Bounds of `spec_read_quote`, as for `spec_read_expr`.
pub proof fn lemma_read_quote_bounds(s: Seq<TokenV>, ci: bool, bp: bool, i: int, p: AbbrevPrefix)
    requires
        0 <= i,
    ensures
        spec_read_quote(s, ci, bp, i, p) matches Ok((d, j)) ==> i < j <= s.len(),
    decreases s.len() - i, 1int,
{
    lemma_read_expr_bounds(s, ci, bp, i);
}

/// Bounds of `spec_read_sexpr`: the cursor never moves backwards and stays
/// within the tokens on success.
pub proof fn lemma_read_sexpr_bounds(s: Seq<TokenV>, ci: bool, bp: bool, i: int, sep: TokenV)
    requires
        0 <= i,
    ensures
        spec_read_sexpr(s, ci, bp, i, sep) matches Ok((d, j)) ==> i <= j && (j > i ==> j
            <= s.len()),
    decreases s.len() - i, 3int,
{
    if spec_terminator(sep, bp) is Some {
        let term = spec_terminator(sep, bp)->0;
        if tok_at(s, i) != TokenV::Dot {
            lemma_read_elems_bounds(s, ci, bp, i, term, Seq::empty());
        }
    }
}

/// Bounds of `spec_read_elems`: on success at least one token (the
/// terminator) is consumed and the cursor stays within the tokens.
pub proof fn lemma_read_elems_bounds(
    s: Seq<TokenV>,
    ci: bool,
    bp: bool,
    i: int,
    term: TokenV,
    acc: Seq<DatumV>,
)
    requires
        0 <= i,
        term != TokenV::Eof,
    ensures
        spec_read_elems(s, ci, bp, i, term, acc) matches Ok((d, j)) ==> i < j <= s.len(),
    decreases s.len() - i, 2int,
{
    if tok_at(s, i) == term {
    } else if tok_at(s, i) == TokenV::Dot {
        lemma_read_expr_bounds(s, ci, bp, i + 1);
    } else {
        lemma_read_expr_bounds(s, ci, bp, i);
        match spec_read_expr(s, ci, bp, i) {
            Ok((d, j)) => {
                if d != DatumV::Eof {
                    lemma_read_elems_bounds(
                        s,
                        ci,
                        bp,
                        if i < j && j <= s.len() {
                            j
                        } else {
                            i + 1
                        },
                        term,
                        acc.push(d),
                    );
                }
            },
            Err(_) => {},
        }
    }
}

/// Bounds of `spec_read_vector`, as for `spec_read_sexpr`.
pub proof fn lemma_read_vector_bounds(s: Seq<TokenV>, ci: bool, bp: bool, i: int, sep: TokenV)
    requires
        0 <= i,
    ensures
        spec_read_vector(s, ci, bp, i, sep) matches Ok((d, j)) ==> i <= j && (j > i ==> j
            <= s.len()),
    decreases s.len() - i, 4int,
{
    lemma_read_sexpr_bounds(s, ci, bp, i, sep);
}

/// A copy of a token, stated by its model.
fn dup_token(t: &Token) -> (r: Token)
    ensures
        r.deep_view() == t.deep_view(),
{
    match t {
        Token::Fixnum(n) => Token::Fixnum(*n),
        Token::Str(s) => Token::Str(s.clone()),
        Token::Ident(s) => Token::Ident(s.clone()),
        Token::Prim(s) => Token::Prim(s.clone()),
        Token::Char(c) => Token::Char(*c),
        Token::Bool(b) => Token::Bool(*b),
        Token::LBracket => Token::LBracket,
        Token::RBracket => Token::RBracket,
        Token::LParen => Token::LParen,
        Token::RParen => Token::RParen,
        Token::VecLParen => Token::VecLParen,
        Token::BrackVecLParen => Token::BrackVecLParen,
        Token::ByteVecLParen => Token::ByteVecLParen,
        Token::Quote => Token::Quote,
        Token::Quasi => Token::Quasi,
        Token::Comma => Token::Comma,
        Token::CommaAt => Token::CommaAt,
        Token::Hash => Token::Hash,
        Token::Dot => Token::Dot,
        Token::Ellipses => Token::Ellipses,
        Token::Comment(s) => Token::Comment(s.clone()),
        Token::Eof => Token::Eof,
    }
}

fn fold_char_x(c: char) -> (r: char)
    ensures
        r == fold_char(c),
{
    let n = c as u32;
    if 65 <= n && n <= 90 {
        ((n + 32) as u8) as char
    } else {
        c
    }
}

/// Folds a symbol name to lower case.
fn fold_lower(s: &String) -> (r: String)
    ensures
        r@ == fold_chars(s@),
{
    let st = s.as_str();
    let n = st.unicode_len();
    let mut v: Vec<char> = Vec::new();
    let mut i: usize = 0;
    while i < n
        invariant
            i <= n,
            n == s@.len(),
            st@ == s@,
            v@ == fold_chars(s@).take(i as int),
        decreases n - i,
    {
        v.push(fold_char_x(st.get_char(i)));
        proof {
            assert(v@ =~= fold_chars(s@).take(i + 1));
        }
        i = i + 1;
    }
    proof {
        assert(v@ =~= fold_chars(s@));
        assert(v@.subrange(0, v@.len() as int) =~= v@);
    }
    crate::token::chars_to_string(&v, 0, v.len())
}

/// The reader and its options: `case_insensitive` folds every symbol read
/// to lower case; `bracket_paren` makes brackets synonyms for parentheses.
pub struct Reader {
    pub case_insensitive: bool,
    pub bracket_paren: bool,
    tokens: Vec<Token>,
    pos: usize,
}

impl Reader {
    /// The token models this reader walks over.
    pub closed spec fn toks(self) -> Seq<TokenV> {
        self.tokens.deep_view()
    }

    /// The cursor: how many tokens are already consumed.
    pub closed spec fn at(self) -> int {
        self.pos as int
    }

    /// The case-insensitivity option of this reader.
    pub closed spec fn ci(self) -> bool {
        self.case_insensitive
    }

    /// The bracket-as-parenthesis option of this reader.
    pub closed spec fn bp(self) -> bool {
        self.bracket_paren
    }

    /// The cursor never leaves the token buffer.
    pub closed spec fn wf(self) -> bool {
        self.pos <= self.tokens@.len()
    }

    /// Whether two reader states walk the same buffer with the same options.
    pub closed spec fn same_frame(self, other: Reader) -> bool {
        &&& self.ci() == other.ci()
        &&& self.bp() == other.bp()
        &&& self.toks() == other.toks()
    }

    /// A fresh reader over `src` with the given options, at the start.
    pub fn init(case_insensitive: bool, bracket_paren: bool, src: Vec<Token>) -> (r: Reader)
        ensures
            r.ci() == case_insensitive,
            r.bp() == bracket_paren,
            r.toks() == src.deep_view(),
            r.at() == 0,
            r.wf(),
    {
        Reader { case_insensitive, bracket_paren, tokens: src, pos: 0 }
    }

    /// The current token without consuming it; `Eof` past the end.
    fn peek_token(&self) -> (t: Token)
        requires
            self.wf(),
        ensures
            t.deep_view() == tok_at(self.toks(), self.at()),
    {
        if self.pos < self.tokens.len() {
            dup_token(&self.tokens[self.pos])
        } else {
            Token::Eof
        }
    }

    /// The current token, consumed; `Eof` past the end, without moving.
    fn next_token(&mut self) -> (t: Token)
        requires
            old(self).wf(),
        ensures
            final(self).wf(),
            old(self).same_frame(*final(self)),
            t.deep_view() == tok_at(old(self).toks(), old(self).at()),
            final(self).at() == if old(self).at() < old(self).toks().len() {
                old(self).at() + 1
            } else {
                old(self).at()
            },
    {
        if self.pos < self.tokens.len() {
            let t = dup_token(&self.tokens[self.pos]);
            self.pos = self.pos + 1;
            t
        } else {
            Token::Eof
        }
    }
}


/// The abbreviation prefix a quotation marker token stands for.
pub open spec fn abbrev_of(t: TokenV) -> AbbrevPrefix {
    if t == TokenV::Quasi {
        AbbrevPrefix::Quasi
    } else if t == TokenV::Comma {
        AbbrevPrefix::Comma
    } else if t == TokenV::CommaAt {
        AbbrevPrefix::CommaAt
    } else {
        AbbrevPrefix::Quote
    }
}

impl Reader {
    /// Reads one expression at the cursor, as `spec_read_expr` describes.
    fn read_expr(&mut self) -> (r: ReadResult<Datum>)
        requires
            old(self).wf(),
        ensures
            final(self).wf(),
            old(self).same_frame(*final(self)),
            final(self).at() >= old(self).at(),
            match spec_read_expr(
                old(self).toks(),
                old(self).ci(),
                old(self).bp(),
                old(self).at(),
            ) {
                Ok(p) => r matches Ok(d) && datum_v(d) == p.0 && final(self).at() == p.1,
                Err(e) => r matches Err(re) && re@ == e,
            },
        decreases self.toks().len() - self.at(), 0int,
    {
        let ghost s = self.toks();
        let ghost i = self.at();
        let t = self.next_token();
        match t {
            Token::Ident(n) => {
                let name = if self.case_insensitive {
                    fold_lower(&n)
                } else {
                    n
                };
                Ok(Datum::Symbol(name))
            },
            Token::Prim(n) => {
                let name = if self.case_insensitive {
                    fold_lower(&n)
                } else {
                    n
                };
                Ok(Datum::Symbol(name))
            },
            Token::Bool(b) => Ok(Datum::Bool(b)),
            Token::Fixnum(f) => Ok(Datum::Fixnum(f)),
            Token::Char(c) => Ok(Datum::Char(c)),
            Token::Str(st) => Ok(Datum::Str(st)),
            Token::Ellipses => Ok(Datum::Ellipses),
            Token::Quote => self.read_quote(Token::Quote),
            Token::Quasi => self.read_quote(Token::Quasi),
            Token::Comma => self.read_quote(Token::Comma),
            Token::CommaAt => self.read_quote(Token::CommaAt),
            Token::RParen => Err(ReadError::UnexpectedListTerminator(Token::RParen)),
            Token::RBracket => if self.bracket_paren {
                Err(ReadError::UnexpectedListTerminator(Token::RBracket))
            } else {
                Err(ReadError::UnknownSymbol(Token::RBracket))
            },
            Token::BrackVecLParen => if self.bracket_paren {
                self.read_vector(Token::LBracket)
            } else {
                Err(ReadError::UnknownSymbol(Token::BrackVecLParen))
            },
            Token::VecLParen => self.read_vector(Token::LParen),
            Token::ByteVecLParen => self.read_bytevector(),
            Token::LParen => self.read_sexpr(Token::LParen),
            Token::LBracket => if self.bracket_paren {
                self.read_sexpr(Token::LBracket)
            } else {
                Err(ReadError::UnknownSymbol(Token::LBracket))
            },
            Token::Eof => Ok(Datum::Eof),
            Token::Hash => Err(ReadError::UnknownSymbol(Token::Hash)),
            Token::Dot => Err(ReadError::UnknownSymbol(Token::Dot)),
            Token::Comment(c) => Err(ReadError::UnknownSymbol(Token::Comment(c))),
        }
    }

    /// Reads the expression after an abbreviation marker and wraps it.
    fn read_quote(&mut self, quote_tok: Token) -> (r: ReadResult<Datum>)
        requires
            old(self).wf(),
            quote_tok.deep_view() == TokenV::Quote || quote_tok.deep_view() == TokenV::Quasi
                || quote_tok.deep_view() == TokenV::Comma || quote_tok.deep_view()
                == TokenV::CommaAt,
        ensures
            final(self).wf(),
            old(self).same_frame(*final(self)),
            final(self).at() >= old(self).at(),
            match spec_read_quote(
                old(self).toks(),
                old(self).ci(),
                old(self).bp(),
                old(self).at(),
                abbrev_of(quote_tok.deep_view()),
            ) {
                Ok(p) => r matches Ok(d) && datum_v(d) == p.0 && final(self).at() == p.1,
                Err(e) => r matches Err(re) && re@ == e,
            },
        decreases self.toks().len() - self.at(), 1int,
    {
        let prefix = match quote_tok {
            Token::Quote => AbbrevPrefix::Quote,
            Token::Quasi => AbbrevPrefix::Quasi,
            Token::Comma => AbbrevPrefix::Comma,
            Token::CommaAt => AbbrevPrefix::CommaAt,
            _ => unreached(),
        };
        let expr = match self.read_expr() {
            Ok(d) => d,
            Err(e) => {
                return Err(e);
            },
        };
        if matches!(expr, Datum::Eof) {
            Err(ReadError::UnhandledQuote)
        } else {
            Ok(Datum::Quote(prefix, Box::new(expr)))
        }
    }

    /// Byte-vector literals are accepted lexically, but reading them is
    /// not supported: a loud, classified error rather than a wrong value.
    fn read_bytevector(&mut self) -> (r: ReadResult<Datum>)
        requires
            old(self).wf(),
        ensures
            *final(self) == *old(self),
            r matches Err(e) && e@ == ReadErrV::UnknownSymbol(TokenV::ByteVecLParen),
    {
        Err(ReadError::UnknownSymbol(Token::ByteVecLParen))
    }

    /// Reads a vector body: list reading with the elements wrapped as a
    /// vector.
    fn read_vector(&mut self, separator: Token) -> (r: ReadResult<Datum>)
        requires
            old(self).wf(),
        ensures
            final(self).wf(),
            old(self).same_frame(*final(self)),
            final(self).at() >= old(self).at(),
            match spec_read_vector(
                old(self).toks(),
                old(self).ci(),
                old(self).bp(),
                old(self).at(),
                separator.deep_view(),
            ) {
                Ok(p) => r matches Ok(d) && datum_v(d) == p.0 && final(self).at() == p.1,
                Err(e) => r matches Err(re) && re@ == e,
            },
        decreases self.toks().len() - self.at(), 3int,
    {
        let inner = match self.read_sexpr(separator) {
            Ok(d) => d,
            Err(e) => {
                return Err(e);
            },
        };
        match inner {
            Datum::List(vs) => Ok(Datum::Vector(vs)),
            _ => Err(ReadError::Nothing),
        }
    }

    /// Reads the body of a list opened by `separator` up to its matching
    /// terminator, handling dotted pairs as `spec_read_sexpr` describes.
    #[verifier::loop_isolation(false)]
    fn read_sexpr(&mut self, separator: Token) -> (r: ReadResult<Datum>)
        requires
            old(self).wf(),
        ensures
            final(self).wf(),
            old(self).same_frame(*final(self)),
            final(self).at() >= old(self).at(),
            match spec_read_sexpr(
                old(self).toks(),
                old(self).ci(),
                old(self).bp(),
                old(self).at(),
                separator.deep_view(),
            ) {
                Ok(p) => r matches Ok(d) && datum_v(d) == p.0 && final(self).at() == p.1,
                Err(e) => r matches Err(re) && re@ == e,
            },
        decreases self.toks().len() - self.at(), 2int,
    {
        let ghost s = self.toks();
        let ghost i0 = self.at();
        let ghost ci = self.ci();
        let ghost bp = self.bp();
        let term_paren: bool;
        if matches!(separator, Token::LParen) {
            term_paren = true;
        } else if matches!(separator, Token::LBracket) && self.bracket_paren {
            term_paren = false;
        } else {
            return Err(ReadError::UnknownSymbol(separator));
        }
        let ghost termv = if term_paren {
            TokenV::RParen
        } else {
            TokenV::RBracket
        };
        proof {
            assert(spec_terminator(separator.deep_view(), bp) == Some(termv));
        }
        let mut sexpr: Vec<Datum> = Vec::new();
        let t0 = self.peek_token();
        if matches!(t0, Token::Dot) {
            proof {
                assert(data_v(sexpr@) =~= Seq::<DatumV>::empty());
            }
            return Ok(Datum::List(sexpr));
        }
        let ghost goal = spec_read_sexpr(s, ci, bp, i0, separator.deep_view());
        proof {
            assert(data_v(sexpr@) =~= Seq::<DatumV>::empty());
            assert(goal == spec_read_elems(s, ci, bp, i0, termv, Seq::empty()));
        }
        loop
            invariant
                self.wf(),
                self.ci() == ci,
                self.bp() == bp,
                self.toks() == s,
                i0 <= self.at(),
                termv == (if term_paren {
                    TokenV::RParen
                } else {
                    TokenV::RBracket
                }),
                termv != TokenV::Eof && termv != TokenV::Dot,
                spec_read_elems(s, ci, bp, self.at(), termv, data_v(sexpr@)) == goal,
            decreases s.len() - self.at(),
        {
            let ghost prev = self.at();
            let t = self.peek_token();
            let is_term = if term_paren {
                matches!(t, Token::RParen)
            } else {
                matches!(t, Token::RBracket)
            };
            if is_term {
                proof {
                    assert(tok_at(s, prev) == termv);
                }
                let _ = self.next_token();
                return Ok(Datum::List(sexpr));
            } else if matches!(t, Token::Dot) {
                proof {
                    assert(tok_at(s, prev) == TokenV::Dot);
                }
                let _ = self.next_token();
                let ghost pdot = self.at();
                let tail = match self.read_expr() {
                    Ok(d) => d,
                    Err(e) => {
                        return Err(e);
                    },
                };
                let ghost j = self.at();
                let t2 = self.next_token();
                let is_term2 = if term_paren {
                    matches!(t2, Token::RParen)
                } else {
                    matches!(t2, Token::RBracket)
                };
                if is_term2 {
                    proof {
                        assert(tok_at(s, j) == termv);
                    }
                    return Ok(Datum::DottedList(sexpr, Box::new(tail)));
                } else {
                    return Err(ReadError::ExpectedListTerminator(t2));
                }
            } else {
                let d = match self.read_expr() {
                    Ok(d) => d,
                    Err(e) => {
                        return Err(e);
                    },
                };
                if matches!(d, Datum::Eof) {
                    return Err(ReadError::Nothing);
                }
                proof {
                    lemma_read_expr_bounds(s, ci, bp, prev);
                    lemma_data_v_push(sexpr@, d);
                }
                sexpr.push(d);
            }
        }
    }

    /// Reads every top-level expression until end of input and collects
    /// them into one outer list; a reader with no tokens at all yields the
    /// `Eof` datum.
    #[verifier::loop_isolation(false)]
    pub fn read(&mut self) -> (r: Result<Datum, ReadError>)
        requires
            old(self).wf(),
        ensures
            final(self).wf(),
            old(self).same_frame(*final(self)),
            match spec_read(old(self).toks(), old(self).ci(), old(self).bp(), old(self).at()) {
                Ok(d) => r matches Ok(rd) && datum_v(rd) == d,
                Err(e) => r matches Err(re) && re@ == e,
            },
    {
        let ghost s = self.toks();
        let ghost i0 = self.at();
        let ghost ci = self.ci();
        let ghost bp = self.bp();
        if self.pos >= self.tokens.len() {
            return Ok(Datum::Eof);
        }
        let ghost goal = spec_read(s, ci, bp, i0);
        let mut prgrm: Vec<Datum> = Vec::new();
        proof {
            assert(data_v(prgrm@) =~= Seq::<DatumV>::empty());
            assert(goal == spec_read_program(s, ci, bp, i0, Seq::empty()));
        }
        loop
            invariant
                self.wf(),
                self.ci() == ci,
                self.bp() == bp,
                self.toks() == s,
                i0 <= self.at(),
                spec_read_program(s, ci, bp, self.at(), data_v(prgrm@)) == goal,
            decreases s.len() - self.at() + 1,
        {
            let ghost prev = self.at();
            match self.read_expr() {
                Err(e) => {
                    return Err(e);
                },
                Ok(d) => {
                    if matches!(d, Datum::Eof) {
                        return Ok(Datum::List(prgrm));
                    }
                    proof {
                        lemma_read_expr_bounds(s, ci, bp, prev);
                        lemma_data_v_push(prgrm@, d);
                    }
                    prgrm.push(d);
                },
            }
        }
    }
}


} // verus!
