//! The expander: recognizes the fixed set of special forms in a datum tree
//! and desugars them into the typed core AST, validating arity and shape.

use vstd::prelude::*;

use crate::datum::{data_v, dup_data, lemma_data_v, lemma_data_v_subrange, AbbrevPrefix, Datum, DatumV};
use crate::primsyn::{bindings_v, case_branches_v, exprs_v, imports_v, lemma_bindings_v_push, lemma_case_branches_v_push, lemma_exprs_v_push, lemma_pairs_v_push, pairs_v, stmts_v, strings_v, Def, Expr, Import, Program, Stmt};
use vstd::string::StrSliceExecFns;
use crate::primsyn::{DefV, ExprV, ImportV, ProgramV, StmtV};

verus! {

/// Which syntactic form an expansion error is about.
#[derive(Debug, Clone, Copy, PartialEq, Eq, Structural)]
pub enum FormKind {
    Define,
    DefineRecord,
    Import,
    Export,
    Quote,
    Lambda,
    If,
    Cond,
    Case,
    And,
    Or,
    When,
    Unless,
    Let,
    LetRec,
    Begin,
    /// Quasiquotation is recognized but its desugaring is not supported.
    Quasiquote,
    /// Unquote-splicing is recognized but its desugaring is not supported.
    Splice,
    /// A datum kind with no expansion: labels, byte vectors, ellipsis, or
    /// the unit markers.
    Literal,
}

/// A classified expansion error; expansion aborts at the first one.
#[derive(Debug, Clone, Copy, PartialEq, Eq, Structural)]
pub enum ExpanderError {
    /// An empty list used as a call.
    IllegalNonatomic,
    /// A form with the wrong number of parts.
    IllegalNumberOfArgs(FormKind),
    /// A symbol was required where something else stood.
    IdentifierExpected(FormKind),
    /// A list was required where something else stood.
    ListExpected(FormKind),
    /// A `cond` or `case` branch list without its mandatory final else clause.
    CondElseExpected,
    /// A form used somewhere syntactically forbidden, or one whose
    /// expansion is not supported.
    IllegalContext(FormKind),
    /// A string literal was required where something else stood.
    StringExpected(FormKind),
    /// The end-of-input marker where an expression was expected.
    UnexpectedEof,
}

pub type ExpanderResult<T> = Result<T, ExpanderError>;

/// Whether every datum in `ds` is a symbol.
pub open spec fn all_symbols(ds: Seq<DatumV>) -> bool {
    forall|i: int| 0 <= i < ds.len() ==> (#[trigger] ds[i]) is Symbol
}

/// Whether every datum in `ds` is a string literal.
pub open spec fn all_strings(ds: Seq<DatumV>) -> bool {
    forall|i: int| 0 <= i < ds.len() ==> (#[trigger] ds[i]) is Str
}

/// The names of a sequence of symbol datums, in order.
pub open spec fn symbol_names(ds: Seq<DatumV>) -> Seq<Seq<char>> {
    Seq::new(ds.len(), |i: int| ds[i]->Symbol_0)
}

/// The contents of a sequence of string datums, in order.
pub open spec fn string_contents(ds: Seq<DatumV>) -> Seq<Seq<char>> {
    Seq::new(ds.len(), |i: int| ds[i]->Str_0)
}

/// Expands one datum in expression position.
pub open spec fn x_expr(d: DatumV) -> ExpanderResult<ExprV>
    decreases d, 1int,
{
    match d {
        DatumV::Bool(b) => Ok(ExprV::Bool(b)),
        DatumV::Fixnum(f) => Ok(ExprV::Fixnum(f)),
        DatumV::Char(c) => Ok(ExprV::Char(c)),
        DatumV::Vector(v) => Ok(ExprV::Vector(v)),
        DatumV::Str(s) => Ok(ExprV::Str(s)),
        DatumV::Eof => Err(ExpanderError::UnexpectedEof),
        DatumV::Quote(p, b) => match p {
            AbbrevPrefix::Comma => Ok(ExprV::Unquote(*b)),
            AbbrevPrefix::Quote => Ok(ExprV::Quote(*b)),
            AbbrevPrefix::Quasi => Err(ExpanderError::IllegalContext(FormKind::Quasiquote)),
            AbbrevPrefix::CommaAt => Err(ExpanderError::IllegalContext(FormKind::Splice)),
        },
        DatumV::Symbol(s) => Ok(ExprV::Symbol(s)),
        DatumV::List(ds) => if ds.len() == 0 {
            Err(ExpanderError::IllegalNonatomic)
        } else {
            x_list(d)
        },
        DatumV::ByteVector(_) => Err(ExpanderError::IllegalContext(FormKind::Literal)),
        DatumV::Label(_) => Err(ExpanderError::IllegalContext(FormKind::Literal)),
        DatumV::LabelSet(_, _) => Err(ExpanderError::IllegalContext(FormKind::Literal)),
        DatumV::DottedList(_, _) => Err(ExpanderError::IllegalContext(FormKind::Literal)),
        DatumV::Ellipses => Err(ExpanderError::IllegalContext(FormKind::Literal)),
        DatumV::Null => Err(ExpanderError::IllegalContext(FormKind::Literal)),
        DatumV::Undefined => Err(ExpanderError::IllegalContext(FormKind::Literal)),
    }
}

/// Expands a non-empty list in expression position: a reserved head symbol
/// selects its form rule, anything else is a procedure call.
pub open spec fn x_list(d: DatumV) -> ExpanderResult<ExprV>
    decreases d, 0int,
{
    if d is List && d->List_0.len() > 0 {
        let ds = d->List_0;
        let tail = ds.drop_first();
        match ds[0] {
            DatumV::Symbol(s) => {
                if s == "define"@ {
                    Err(ExpanderError::IllegalContext(FormKind::Define))
                } else if s == "define-record"@ {
                    Err(ExpanderError::IllegalContext(FormKind::DefineRecord))
                } else if s == "import"@ {
                    Err(ExpanderError::IllegalContext(FormKind::Import))
                } else if s == "export"@ {
                    Err(ExpanderError::IllegalContext(FormKind::Export))
                } else if s == "quote"@ {
                    x_quote(tail)
                } else if s == "lambda"@ {
                    x_lambda(tail)
                } else if s == "if"@ {
                    x_if(tail)
                } else if s == "cond"@ {
                    x_cond(tail)
                } else if s == "case"@ {
                    x_case(tail)
                } else if s == "and"@ {
                    match x_exprs(tail) {
                        Ok(es) => Ok(ExprV::And(es)),
                        Err(e) => Err(e),
                    }
                } else if s == "or"@ {
                    match x_exprs(tail) {
                        Ok(es) => Ok(ExprV::Or(es)),
                        Err(e) => Err(e),
                    }
                } else if s == "when"@ {
                    match x_when_unless(tail, FormKind::When) {
                        Ok(p) => Ok(ExprV::When(Box::new(p.0), p.1)),
                        Err(e) => Err(e),
                    }
                } else if s == "unless"@ {
                    match x_when_unless(tail, FormKind::Unless) {
                        Ok(p) => Ok(ExprV::Unless(Box::new(p.0), p.1)),
                        Err(e) => Err(e),
                    }
                } else if s == "let"@ {
                    x_let(tail, FormKind::Let)
                } else if s == "letrec"@ {
                    x_let(tail, FormKind::LetRec)
                } else if s == "begin"@ {
                    match x_exprs(tail) {
                        Ok(es) => Ok(ExprV::Begin(es)),
                        Err(e) => Err(e),
                    }
                } else {
                    x_call(ds)
                }
            },
            _ => x_call(ds),
        }
    } else {
        Err(ExpanderError::IllegalNonatomic)
    }
}

/// Expands a procedure call: the head as operator, the rest as operands,
/// in original order.
pub open spec fn x_call(ds: Seq<DatumV>) -> ExpanderResult<ExprV>
    decreases ds, 0int,
{
    if ds.len() == 0 {
        Err(ExpanderError::IllegalNonatomic)
    } else {
        match x_expr(ds[0]) {
            Err(e) => Err(e),
            Ok(rator) => match x_exprs(ds.drop_first()) {
                Err(e) => Err(e),
                Ok(rands) => Ok(ExprV::ProcCall(Box::new(rator), rands)),
            },
        }
    }
}

/// Expands each datum of a sequence in expression position, in order,
/// stopping at the first error.
pub open spec fn x_exprs(ds: Seq<DatumV>) -> ExpanderResult<Seq<ExprV>>
    decreases ds, 0int,
{
    if ds.len() == 0 {
        Ok(Seq::empty())
    } else {
        match x_expr(ds[0]) {
            Err(e) => Err(e),
            Ok(e) => match x_exprs(ds.drop_first()) {
                Err(e2) => Err(e2),
                Ok(rest) => Ok(seq![e] + rest),
            },
        }
    }
}

/// The `quote` form: exactly one remaining datum, wrapped raw with no
/// recursive expansion.
pub open spec fn x_quote(ds: Seq<DatumV>) -> ExpanderResult<ExprV> {
    if ds.len() == 1 {
        Ok(ExprV::Quote(ds[0]))
    } else {
        Err(ExpanderError::IllegalNumberOfArgs(FormKind::Quote))
    }
}

/// The `define` form: `(<ident> <expr>)` yields a value definition,
/// `((<ident> <ident>*) <expr>)` a function definition; exactly two parts.
pub open spec fn x_define(ds: Seq<DatumV>) -> ExpanderResult<DefV>
    decreases ds, 1int,
{
    if ds.len() < 2 {
        Err(ExpanderError::IllegalNumberOfArgs(FormKind::Define))
    } else if ds.len() > 2 {
        Err(ExpanderError::IllegalNumberOfArgs(FormKind::Define))
    } else {
        match ds[0] {
            DatumV::List(ls) => if all_symbols(ls) {
                if ls.len() > 0 {
                    match x_expr(ds[1]) {
                        Err(e) => Err(e),
                        Ok(body) => Ok(DefV::DefFunc(
                            symbol_names(ls)[0],
                            symbol_names(ls).drop_first(),
                            body,
                        )),
                    }
                } else {
                    Err(ExpanderError::ListExpected(FormKind::Define))
                }
            } else {
                Err(ExpanderError::IdentifierExpected(FormKind::Define))
            },
            DatumV::Symbol(name) => match x_expr(ds[1]) {
                Err(e) => Err(e),
                Ok(body) => Ok(DefV::DefValue(name, body)),
            },
            _ => Err(ExpanderError::IdentifierExpected(FormKind::Define)),
        }
    }
}

/// The `define-record` form: a bare symbol name and an all-symbol member
/// list, nothing else.
pub open spec fn x_define_record(ds: Seq<DatumV>) -> ExpanderResult<DefV> {
    if ds.len() == 0 {
        Err(ExpanderError::IllegalNumberOfArgs(FormKind::DefineRecord))
    } else if !(ds[0] is Symbol) {
        Err(ExpanderError::IdentifierExpected(FormKind::DefineRecord))
    } else if ds.len() == 1 {
        Err(ExpanderError::IllegalNumberOfArgs(FormKind::DefineRecord))
    } else if ds.len() > 2 {
        Err(ExpanderError::IllegalNumberOfArgs(FormKind::DefineRecord))
    } else {
        match ds[1] {
            DatumV::List(ms) => if all_symbols(ms) {
                Ok(DefV::DefRecord(ds[0]->Symbol_0, symbol_names(ms)))
            } else {
                Err(ExpanderError::IdentifierExpected(FormKind::DefineRecord))
            },
            _ => Err(ExpanderError::ListExpected(FormKind::DefineRecord)),
        }
    }
}

/// The `import` form: one or more string literals.
pub open spec fn x_import(ds: Seq<DatumV>) -> ExpanderResult<ImportV> {
    if all_strings(ds) && ds.len() > 0 {
        Ok(ImportV::Import(string_contents(ds)))
    } else {
        Err(ExpanderError::StringExpected(FormKind::Import))
    }
}

/// The `export` form: one or more identifiers.
pub open spec fn x_export(ds: Seq<DatumV>) -> ExpanderResult<ImportV> {
    if all_symbols(ds) && ds.len() > 0 {
        Ok(ImportV::Export(symbol_names(ds)))
    } else {
        Err(ExpanderError::StringExpected(FormKind::Export))
    }
}

/// The `lambda` form: an all-symbol parameter list and exactly one body
/// expression.
pub open spec fn x_lambda(ds: Seq<DatumV>) -> ExpanderResult<ExprV>
    decreases ds, 1int,
{
    if ds.len() == 0 {
        Err(ExpanderError::IllegalNumberOfArgs(FormKind::Lambda))
    } else {
        match ds[0] {
            DatumV::List(fs) => if !all_symbols(fs) {
                Err(ExpanderError::IdentifierExpected(FormKind::Lambda))
            } else if ds.len() == 1 {
                Err(ExpanderError::IllegalNumberOfArgs(FormKind::Lambda))
            } else if ds.len() > 2 {
                Err(ExpanderError::IllegalNumberOfArgs(FormKind::Lambda))
            } else {
                match x_expr(ds[1]) {
                    Err(e) => Err(e),
                    Ok(body) => Ok(ExprV::Lambda(symbol_names(fs), Box::new(body))),
                }
            },
            _ => Err(ExpanderError::ListExpected(FormKind::Lambda)),
        }
    }
}

/// The `if` form: exactly three expressions, no implicit else.
pub open spec fn x_if(ds: Seq<DatumV>) -> ExpanderResult<ExprV>
    decreases ds, 1int,
{
    if ds.len() != 3 {
        Err(ExpanderError::IllegalNumberOfArgs(FormKind::If))
    } else {
        match x_expr(ds[0]) {
            Err(e) => Err(e),
            Ok(c) => match x_expr(ds[1]) {
                Err(e) => Err(e),
                Ok(t) => match x_expr(ds[2]) {
                    Err(e) => Err(e),
                    Ok(e2) => Ok(ExprV::If(Box::new(c), Box::new(t), Box::new(e2))),
                },
            },
        }
    }
}

/// The non-final `cond` branches: each a two-element list of test and
/// result expressions.
pub open spec fn x_cond_branches(ds: Seq<DatumV>) -> ExpanderResult<Seq<(ExprV, ExprV)>>
    decreases ds, 1int,
{
    if ds.len() == 0 {
        Ok(Seq::empty())
    } else {
        match ds[0] {
            DatumV::List(bs) => if bs.len() == 2 {
                match x_expr(bs[0]) {
                    Err(e) => Err(e),
                    Ok(car) => match x_expr(bs[1]) {
                        Err(e) => Err(e),
                        Ok(cdr) => match x_cond_branches(ds.drop_first()) {
                            Err(e) => Err(e),
                            Ok(rest) => Ok(seq![(car, cdr)] + rest),
                        },
                    },
                }
            } else {
                Err(ExpanderError::ListExpected(FormKind::Cond))
            },
            _ => Err(ExpanderError::ListExpected(FormKind::Cond)),
        }
    }
}

/// The final `cond` clause: a two-element list headed by the literal
/// symbol `else`.
pub open spec fn x_cond_else(d: DatumV) -> ExpanderResult<ExprV>
    decreases d, 1int,
{
    match d {
        DatumV::List(ls) => if ls.len() == 2 && ls[0] == DatumV::Symbol("else"@) {
            x_expr(ls[1])
        } else {
            Err(ExpanderError::CondElseExpected)
        },
        _ => Err(ExpanderError::ListExpected(FormKind::Cond)),
    }
}

/// The `cond` form: one or more branches followed by the mandatory else
/// clause.
pub open spec fn x_cond(ds: Seq<DatumV>) -> ExpanderResult<ExprV>
    decreases ds, 2int,
{
    if ds.len() == 0 {
        Err(ExpanderError::IllegalNumberOfArgs(FormKind::Cond))
    } else {
        match x_cond_branches(ds.drop_last()) {
            Err(e) => Err(e),
            Ok(branches) => match x_cond_else(ds.last()) {
                Err(e) => Err(e),
                Ok(last) => Ok(ExprV::Cond(branches, Box::new(last))),
            },
        }
    }
}

/// The `case` branches: each a list whose head is a literal-datum list,
/// kept raw, and whose tail is the expanded result sequence.
pub open spec fn x_case_branches(ds: Seq<DatumV>) -> ExpanderResult<
    Seq<(Seq<DatumV>, Seq<ExprV>)>,
>
    decreases ds, 1int,
{
    if ds.len() == 0 {
        Ok(Seq::empty())
    } else {
        match ds[0] {
            DatumV::List(ls) => if ls.len() == 0 {
                Err(ExpanderError::ListExpected(FormKind::Case))
            } else {
                match ls[0] {
                    DatumV::List(data) => match x_exprs(ls.drop_first()) {
                        Err(e) => Err(e),
                        Ok(es) => match x_case_branches(ds.drop_first()) {
                            Err(e) => Err(e),
                            Ok(rest) => Ok(seq![(data, es)] + rest),
                        },
                    },
                    _ => Err(ExpanderError::ListExpected(FormKind::Case)),
                }
            },
            _ => Err(ExpanderError::ListExpected(FormKind::Case)),
        }
    }
}

/// The final `case` clause: a list headed by the literal symbol `else`,
/// its tail the expanded result sequence.
pub open spec fn x_case_else(d: DatumV) -> ExpanderResult<Seq<ExprV>>
    decreases d, 1int,
{
    match d {
        DatumV::List(ls) => if ls.len() > 0 && ls[0] == DatumV::Symbol("else"@) {
            x_exprs(ls.drop_first())
        } else {
            Err(ExpanderError::CondElseExpected)
        },
        _ => Err(ExpanderError::ListExpected(FormKind::Case)),
    }
}

/// The `case` form: an analysand, branches, and the mandatory else clause.
pub open spec fn x_case(ds: Seq<DatumV>) -> ExpanderResult<ExprV>
    decreases ds, 2int,
{
    if ds.len() < 2 {
        Err(ExpanderError::IllegalNumberOfArgs(FormKind::Case))
    } else {
        match x_expr(ds[0]) {
            Err(e) => Err(e),
            Ok(analysand) => match x_case_branches(ds.drop_first().drop_last()) {
                Err(e) => Err(e),
                Ok(branches) => match x_case_else(ds.last()) {
                    Err(e) => Err(e),
                    Ok(last) => Ok(ExprV::Case(Box::new(analysand), branches, last)),
                },
            },
        }
    }
}

/// The shared shape of `when` and `unless`: a condition followed by a body
/// sequence.
pub open spec fn x_when_unless(ds: Seq<DatumV>, kind: FormKind) -> ExpanderResult<
    (ExprV, Seq<ExprV>),
>
    decreases ds, 1int,
{
    if ds.len() == 0 {
        Err(ExpanderError::IllegalNumberOfArgs(kind))
    } else {
        match x_expr(ds[0]) {
            Err(e) => Err(e),
            Ok(c) => match x_exprs(ds.drop_first()) {
                Err(e) => Err(e),
                Ok(es) => Ok((c, es)),
            },
        }
    }
}

/// The binding list of `let` and `letrec`: each binding exactly a
/// two-element list headed by a symbol.
pub open spec fn x_let_branches(ds: Seq<DatumV>) -> ExpanderResult<Seq<(Seq<char>, ExprV)>>
    decreases ds, 1int,
{
    if ds.len() == 0 {
        Ok(Seq::empty())
    } else {
        match ds[0] {
            DatumV::List(ls) => if ls.len() < 2 {
                Err(ExpanderError::ListExpected(FormKind::Let))
            } else if ls.len() > 2 {
                Err(ExpanderError::IllegalNumberOfArgs(FormKind::Let))
            } else {
                match ls[0] {
                    DatumV::Symbol(n) => match x_expr(ls[1]) {
                        Err(e) => Err(e),
                        Ok(body) => match x_let_branches(ds.drop_first()) {
                            Err(e) => Err(e),
                            Ok(rest) => Ok(seq![(n, body)] + rest),
                        },
                    },
                    _ => Err(ExpanderError::ListExpected(FormKind::Let)),
                }
            },
            _ => Err(ExpanderError::ListExpected(FormKind::Let)),
        }
    }
}

/// The `let` and `letrec` forms: a binding list and exactly one body
/// expression. Both desugar to the same binding node.
pub open spec fn x_let(ds: Seq<DatumV>, kind: FormKind) -> ExpanderResult<ExprV>
    decreases ds, 2int,
{
    if ds.len() != 2 {
        Err(ExpanderError::IllegalNumberOfArgs(kind))
    } else {
        match ds[0] {
            DatumV::List(bs) => match x_let_branches(bs) {
                Err(e) => Err(e),
                Ok(branches) => match x_expr(ds[1]) {
                    Err(e) => Err(e),
                    Ok(body) => Ok(ExprV::Let(branches, Box::new(body))),
                },
            },
            _ => Err(ExpanderError::ListExpected(kind)),
        }
    }
}

/// What one top-level datum contributes to the program.
pub enum TopEntry {
    Imp(ImportV),
    St(StmtV),
}

/// Expands one top-level datum: the reserved top-level forms yield
/// definitions or import entries, everything else an expression statement.
pub open spec fn x_top(d: DatumV) -> ExpanderResult<TopEntry>
    decreases d, 2int,
{
    match d {
        DatumV::List(ds) => if ds.len() == 0 {
            Err(ExpanderError::IllegalNonatomic)
        } else {
            match ds[0] {
                DatumV::Symbol(s) => {
                    let tail = ds.drop_first();
                    if s == "define"@ {
                        match x_define(tail) {
                            Err(e) => Err(e),
                            Ok(def) => Ok(TopEntry::St(StmtV::Def(def))),
                        }
                    } else if s == "define-record"@ {
                        match x_define_record(tail) {
                            Err(e) => Err(e),
                            Ok(def) => Ok(TopEntry::St(StmtV::Def(def))),
                        }
                    } else if s == "import"@ {
                        match x_import(tail) {
                            Err(e) => Err(e),
                            Ok(im) => Ok(TopEntry::Imp(im)),
                        }
                    } else if s == "export"@ {
                        match x_export(tail) {
                            Err(e) => Err(e),
                            Ok(im) => Ok(TopEntry::Imp(im)),
                        }
                    } else if s == "quote"@ {
                        match x_quote(tail) {
                            Err(e) => Err(e),
                            Ok(e2) => Ok(TopEntry::St(StmtV::Expr(e2))),
                        }
                    } else {
                        match x_expr(d) {
                            Err(e) => Err(e),
                            Ok(e2) => Ok(TopEntry::St(StmtV::Expr(e2))),
                        }
                    }
                },
                _ => match x_expr(d) {
                    Err(e) => Err(e),
                    Ok(e2) => Ok(TopEntry::St(StmtV::Expr(e2))),
                },
            }
        },
        _ => match x_expr(d) {
            Err(e) => Err(e),
            Ok(e2) => Ok(TopEntry::St(StmtV::Expr(e2))),
        },
    }
}

/// Folds the top-level data into a program, in order.
pub open spec fn x_prgrm_datums(
    ds: Seq<DatumV>,
    pi: Seq<ImportV>,
    ps: Seq<StmtV>,
) -> ExpanderResult<ProgramV>
    decreases ds, 3int,
{
    if ds.len() == 0 {
        Ok(ProgramV { imports: pi, stmts: ps })
    } else {
        match x_top(ds[0]) {
            Err(e) => Err(e),
            Ok(TopEntry::Imp(im)) => x_prgrm_datums(ds.drop_first(), pi.push(im), ps),
            Ok(TopEntry::St(st)) => x_prgrm_datums(ds.drop_first(), pi, ps.push(st)),
        }
    }
}

/// Expands a whole source datum — usually the outer list the reader
/// produced — into a program.
pub open spec fn x_prgrm(d: DatumV) -> ExpanderResult<ProgramV>
    decreases d, 4int,
{
    match d {
        DatumV::List(vs) => x_prgrm_datums(vs, Seq::empty(), Seq::empty()),
        _ => match x_top(d) {
            Err(e) => Err(e),
            Ok(TopEntry::Imp(im)) => Ok(ProgramV {
                imports: Seq::empty().push(im),
                stmts: Seq::empty(),
            }),
            Ok(TopEntry::St(st)) => Ok(ProgramV {
                imports: Seq::empty(),
                stmts: Seq::empty().push(st),
            }),
        },
    }
}

/// Exact character-for-character equality of two strings.
fn str_eq(a: &str, b: &str) -> (r: bool)
    ensures
        r == (a@ == b@),
{
    let n = a.unicode_len();
    let m = b.unicode_len();
    if n != m {
        proof {
            if a@ == b@ {
                assert(a@.len() == b@.len());
            }
        }
        return false;
    }
    let mut i: usize = 0;
    while i < n
        invariant
            i <= n,
            n == a@.len(),
            n == b@.len(),
            forall|k: int| 0 <= k < i ==> a@[k] == b@[k],
        decreases n - i,
    {
        if a.get_char(i) != b.get_char(i) {
            proof {
                if a@ == b@ {
                    assert(a@[i as int] == b@[i as int]);
                }
            }
            return false;
        }
        i = i + 1;
    }
    proof {
        assert(a@ =~= b@);
    }
    true
}

/// The syntax expander. Its rules are fixed; it carries no state.
pub struct Expander {}

impl Expander {
    /// A fresh expander.
    pub fn init() -> (r: Self) {
        Expander {}
    }

    /// Finds `define-syntax-rule` forms. User-defined macros are not
    /// supported, so the datum is left alone and no rule datums are found.
    pub fn find_syntax_rules(&self, datum: &mut Datum) -> (r: ExpanderResult<Vec<Datum>>)
        ensures
            *final(datum) == *old(datum),
            r matches Ok(v) && v@.len() == 0,
    {
        Ok(Vec::new())
    }

    /// Expands one datum in expression position, as `x_expr` describes.
    fn expand_expr(&self, d: &Datum) -> (r: ExpanderResult<Expr>)
        ensures
            match x_expr(d@) {
                Ok(e) => r matches Ok(ex) && ex@ == e,
                Err(er) => r == Err::<Expr, ExpanderError>(er),
            },
        decreases *d, 1int,
    {
        match d {
            Datum::Bool(b) => Ok(Expr::Bool(*b)),
            Datum::Fixnum(f) => Ok(Expr::Fixnum(*f)),
            Datum::Char(c) => Ok(Expr::Char(*c)),
            Datum::Vector(v) => Ok(Expr::Vector(dup_data(v))),
            Datum::Str(s) => Ok(Expr::Str(s.clone())),
            Datum::Eof => Err(ExpanderError::UnexpectedEof),
            Datum::Quote(p, b) => match p {
                AbbrevPrefix::Comma => Ok(Expr::Unquote(b.duplicate())),
                AbbrevPrefix::Quote => Ok(Expr::Quote(b.duplicate())),
                AbbrevPrefix::Quasi => Err(ExpanderError::IllegalContext(FormKind::Quasiquote)),
                AbbrevPrefix::CommaAt => Err(ExpanderError::IllegalContext(FormKind::Splice)),
            },
            Datum::Symbol(s) => Ok(Expr::Symbol(s.clone())),
            Datum::List(v) => {
                proof {
                    lemma_data_v(v@);
                    assert(decreases_to!(*d => *v));
                }
                if v.len() == 0 {
                    return Err(ExpanderError::IllegalNonatomic);
                }
                let tail: &[Datum] = &v.as_slice()[1..v.len()];
                proof {
                    lemma_data_v_subrange(v@, 1, v@.len() as int);
                    assert(data_v(tail@) == data_v(v@).drop_first());
                }
                let head = &v[0];
                match head {
                    Datum::Symbol(s) => {
                        if str_eq(s.as_str(), "define") {
                            Err(ExpanderError::IllegalContext(FormKind::Define))
                        } else if str_eq(s.as_str(), "define-record") {
                            Err(ExpanderError::IllegalContext(FormKind::DefineRecord))
                        } else if str_eq(s.as_str(), "import") {
                            Err(ExpanderError::IllegalContext(FormKind::Import))
                        } else if str_eq(s.as_str(), "export") {
                            Err(ExpanderError::IllegalContext(FormKind::Export))
                        } else if str_eq(s.as_str(), "quote") {
                            self.expand_quote(tail)
                        } else if str_eq(s.as_str(), "lambda") {
                            self.expand_lambda(tail)
                        } else if str_eq(s.as_str(), "if") {
                            self.expand_if(tail)
                        } else if str_eq(s.as_str(), "cond") {
                            self.expand_cond(tail)
                        } else if str_eq(s.as_str(), "case") {
                            self.expand_case(tail)
                        } else if str_eq(s.as_str(), "and") {
                            self.expand_and(tail)
                        } else if str_eq(s.as_str(), "or") {
                            self.expand_or(tail)
                        } else if str_eq(s.as_str(), "when") {
                            self.expand_when(tail)
                        } else if str_eq(s.as_str(), "unless") {
                            self.expand_unless(tail)
                        } else if str_eq(s.as_str(), "let") {
                            self.expand_let(tail)
                        } else if str_eq(s.as_str(), "letrec") {
                            self.expand_letrec(tail)
                        } else if str_eq(s.as_str(), "begin") {
                            self.expand_begin(tail)
                        } else {
                            self.expand_call(v)
                        }
                    },
                    _ => self.expand_call(v),
                }
            },
            Datum::ByteVector(_) => Err(ExpanderError::IllegalContext(FormKind::Literal)),
            Datum::Label(_) => Err(ExpanderError::IllegalContext(FormKind::Literal)),
            Datum::LabelSet(_, _) => Err(ExpanderError::IllegalContext(FormKind::Literal)),
            Datum::DottedList(_, _) => Err(ExpanderError::IllegalContext(FormKind::Literal)),
            Datum::Ellipses => Err(ExpanderError::IllegalContext(FormKind::Literal)),
            Datum::Null => Err(ExpanderError::IllegalContext(FormKind::Literal)),
            Datum::Undefined => Err(ExpanderError::IllegalContext(FormKind::Literal)),
        }
    }

    /// Expands a procedure call: operator first, then each operand in
    /// original order.
    fn expand_call(&self, v: &Vec<Datum>) -> (r: ExpanderResult<Expr>)
        requires
            v@.len() > 0,
        ensures
            match x_call(data_v(v@)) {
                Ok(e) => r matches Ok(ex) && ex@ == e,
                Err(er) => r == Err::<Expr, ExpanderError>(er),
            },
        decreases v@, 0int,
    {
        proof {
            lemma_data_v(v@);
            assert(decreases_to!(v@ => v@[0]));
        }
        let rator = match self.expand_expr(&v[0]) {
            Ok(e) => e,
            Err(e) => {
                return Err(e);
            },
        };
        let tail: &[Datum] = &v.as_slice()[1..v.len()];
        proof {
            lemma_data_v_subrange(v@, 1, v@.len() as int);
            assert(data_v(tail@) == data_v(v@).drop_first());
        }
        let rand = match self.expand_helper(tail) {
            Ok(es) => es,
            Err(e) => {
                return Err(e);
            },
        };
        Ok(Expr::ProcCall(Box::new(rator), rand))
    }

    /// Expands each datum of a slice in expression position, in order.
    #[verifier::loop_isolation(false)]
    fn expand_helper(&self, ds: &[Datum]) -> (r: ExpanderResult<Vec<Expr>>)
        ensures
            match x_exprs(data_v(ds@)) {
                Ok(es) => r matches Ok(v) && exprs_v(v@) == es,
                Err(er) => r == Err::<Vec<Expr>, ExpanderError>(er),
            },
        decreases ds@, 0int,
    {
        let ghost dv = data_v(ds@);
        let ghost goal = x_exprs(dv);
        proof {
            lemma_data_v(ds@);
        }
        let mut exprs: Vec<Expr> = Vec::new();
        let mut i: usize = 0;
        proof {
            assert(dv.skip(0) =~= dv);
            assert(exprs@ =~= Seq::<Expr>::empty());
            let r2 = x_exprs(dv);
            if r2 is Ok {
                let rest = r2->Ok_0;
                assert(exprs_v(exprs@) + rest =~= rest);
            }
        }
        while i < ds.len()
            invariant
                i <= ds@.len(),
                match x_exprs(dv.skip(i as int)) {
                    Ok(rest) => goal == Ok::<Seq<ExprV>, ExpanderError>(
                        exprs_v(exprs@) + rest,
                    ),
                    Err(e) => goal == Err::<Seq<ExprV>, ExpanderError>(e),
                },
            decreases ds@.len() - i,
        {
            proof {
                assert(decreases_to!(ds@ => ds@[i as int]));
                assert(dv.skip(i as int)[0] == dv[i as int]);
            }
            match self.expand_expr(&ds[i]) {
                Err(e) => {
                    return Err(e);
                },
                Ok(e) => {
                    proof {
                        lemma_exprs_v_push(exprs@, e);
                        assert(dv.skip(i as int).drop_first() =~= dv.skip(i + 1));
                        assert(exprs_v(exprs@).push(e@) =~= exprs_v(exprs@) + seq![e@]);
                        let r2 = x_exprs(dv.skip(i + 1));
                        if r2 is Ok {
                            let rest = r2->Ok_0;
                            assert((exprs_v(exprs@) + seq![e@]) + rest =~= exprs_v(exprs@)
                                + (seq![e@] + rest));
                        }
                    }
                    exprs.push(e);
                },
            }
            i = i + 1;
        }
        proof {
            assert(dv.skip(i as int) =~= Seq::<DatumV>::empty());
            assert(exprs_v(exprs@) + Seq::<ExprV>::empty() =~= exprs_v(exprs@));
        }
        Ok(exprs)
    }

    /// The `quote` form: exactly one remaining datum, kept raw.
    fn expand_quote(&self, ds: &[Datum]) -> (r: ExpanderResult<Expr>)
        ensures
            match x_quote(data_v(ds@)) {
                Ok(e) => r matches Ok(ex) && ex@ == e,
                Err(er) => r == Err::<Expr, ExpanderError>(er),
            },
    {
        proof {
            lemma_data_v(ds@);
        }
        if ds.len() == 1 {
            Ok(Expr::Quote(ds[0].duplicate()))
        } else {
            Err(ExpanderError::IllegalNumberOfArgs(FormKind::Quote))
        }
    }

    /// The `if` form: exactly three expressions.
    fn expand_if(&self, ds: &[Datum]) -> (r: ExpanderResult<Expr>)
        ensures
            match x_if(data_v(ds@)) {
                Ok(e) => r matches Ok(ex) && ex@ == e,
                Err(er) => r == Err::<Expr, ExpanderError>(er),
            },
        decreases ds@, 0int,
    {
        proof {
            lemma_data_v(ds@);
        }
        if ds.len() != 3 {
            return Err(ExpanderError::IllegalNumberOfArgs(FormKind::If));
        }
        proof {
            assert(decreases_to!(ds@ => ds@[0]));
            assert(decreases_to!(ds@ => ds@[1]));
            assert(decreases_to!(ds@ => ds@[2]));
        }
        let condition_expr = match self.expand_expr(&ds[0]) {
            Ok(e) => e,
            Err(e) => {
                return Err(e);
            },
        };
        let then_expr = match self.expand_expr(&ds[1]) {
            Ok(e) => e,
            Err(e) => {
                return Err(e);
            },
        };
        let else_expr = match self.expand_expr(&ds[2]) {
            Ok(e) => e,
            Err(e) => {
                return Err(e);
            },
        };
        Ok(Expr::If(Box::new(condition_expr), Box::new(then_expr), Box::new(else_expr)))
    }
}

/// The names of an all-symbol slice of datums, or nothing if some element
/// is not a symbol.
#[verifier::loop_isolation(false)]
fn symbol_names_of(ds: &[Datum]) -> (r: Option<Vec<String>>)
    ensures
        match r {
            Some(ns) => all_symbols(data_v(ds@)) && strings_v(ns@) == symbol_names(
                data_v(ds@),
            ),
            None => !all_symbols(data_v(ds@)),
        },
{
    proof {
        lemma_data_v(ds@);
    }
    let mut ns: Vec<String> = Vec::new();
    let mut i: usize = 0;
    while i < ds.len()
        invariant
            i <= ds@.len(),
            ns@.len() == i,
            forall|k: int| 0 <= k < i ==> data_v(ds@)[k] is Symbol,
            forall|k: int| 0 <= k < i ==> (#[trigger] ns@[k])@ == data_v(ds@)[k]->Symbol_0,
            forall|k: int|
                0 <= k < ds@.len() ==> data_v(ds@)[k] == crate::datum::datum_v(ds@[k]),
        decreases ds@.len() - i,
    {
        match &ds[i] {
            Datum::Symbol(s) => {
                ns.push(s.clone());
            },
            _ => {
                proof {
                    assert(!(data_v(ds@)[i as int] is Symbol));
                }
                return None;
            },
        }
        i = i + 1;
    }
    proof {
        assert(strings_v(ns@) =~= symbol_names(data_v(ds@)));
    }
    Some(ns)
}

/// The contents of an all-string slice of datums, or nothing if some
/// element is not a string literal.
#[verifier::loop_isolation(false)]
fn string_contents_of(ds: &[Datum]) -> (r: Option<Vec<String>>)
    ensures
        match r {
            Some(ss) => all_strings(data_v(ds@)) && strings_v(ss@) == string_contents(
                data_v(ds@),
            ),
            None => !all_strings(data_v(ds@)),
        },
{
    proof {
        lemma_data_v(ds@);
    }
    let mut ss: Vec<String> = Vec::new();
    let mut i: usize = 0;
    while i < ds.len()
        invariant
            i <= ds@.len(),
            ss@.len() == i,
            forall|k: int| 0 <= k < i ==> data_v(ds@)[k] is Str,
            forall|k: int| 0 <= k < i ==> (#[trigger] ss@[k])@ == data_v(ds@)[k]->Str_0,
            forall|k: int|
                0 <= k < ds@.len() ==> data_v(ds@)[k] == crate::datum::datum_v(ds@[k]),
        decreases ds@.len() - i,
    {
        match &ds[i] {
            Datum::Str(s) => {
                ss.push(s.clone());
            },
            _ => {
                proof {
                    assert(!(data_v(ds@)[i as int] is Str));
                }
                return None;
            },
        }
        i = i + 1;
    }
    proof {
        assert(strings_v(ss@) =~= string_contents(data_v(ds@)));
    }
    Some(ss)
}

impl Expander {
    /// The `lambda` form: an all-symbol parameter list and exactly one
    /// body expression.
    fn expand_lambda(&self, ds: &[Datum]) -> (r: ExpanderResult<Expr>)
        ensures
            match x_lambda(data_v(ds@)) {
                Ok(e) => r matches Ok(ex) && ex@ == e,
                Err(er) => r == Err::<Expr, ExpanderError>(er),
            },
        decreases ds@, 0int,
    {
        proof {
            lemma_data_v(ds@);
        }
        if ds.len() == 0 {
            return Err(ExpanderError::IllegalNumberOfArgs(FormKind::Lambda));
        }
        match &ds[0] {
            Datum::List(fs) => {
                let names = match symbol_names_of(fs.as_slice()) {
                    Some(ns) => ns,
                    None => {
                        return Err(ExpanderError::IdentifierExpected(FormKind::Lambda));
                    },
                };
                if ds.len() == 1 {
                    return Err(ExpanderError::IllegalNumberOfArgs(FormKind::Lambda));
                }
                if ds.len() > 2 {
                    return Err(ExpanderError::IllegalNumberOfArgs(FormKind::Lambda));
                }
                proof {
                    assert(decreases_to!(ds@ => ds@[1]));
                }
                let body = match self.expand_expr(&ds[1]) {
                    Ok(e) => e,
                    Err(e) => {
                        return Err(e);
                    },
                };
                Ok(Expr::Lambda(names, Box::new(body)))
            },
            _ => Err(ExpanderError::ListExpected(FormKind::Lambda)),
        }
    }

    /// The `define` form: a value or function definition, exactly two
    /// parts after the keyword.
    fn expand_define(&self, ds: &[Datum]) -> (r: ExpanderResult<Def>)
        ensures
            match x_define(data_v(ds@)) {
                Ok(def) => r matches Ok(d2) && d2@ == def,
                Err(er) => r == Err::<Def, ExpanderError>(er),
            },
        decreases ds@, 0int,
    {
        proof {
            lemma_data_v(ds@);
        }
        if ds.len() < 2 || ds.len() > 2 {
            return Err(ExpanderError::IllegalNumberOfArgs(FormKind::Define));
        }
        match &ds[0] {
            Datum::List(ls) => {
                let mut names = match symbol_names_of(ls.as_slice()) {
                    Some(ns) => ns,
                    None => {
                        return Err(ExpanderError::IdentifierExpected(FormKind::Define));
                    },
                };
                if names.len() == 0 {
                    return Err(ExpanderError::ListExpected(FormKind::Define));
                }
                proof {
                    assert(decreases_to!(ds@ => ds@[1]));
                }
                let body = match self.expand_expr(&ds[1]) {
                    Ok(e) => e,
                    Err(e) => {
                        return Err(e);
                    },
                };
                let ghost names0 = names@;
                let name = names.remove(0);
                proof {
                    assert(strings_v(names@) =~= strings_v(names0).drop_first());
                }
                Ok(Def::DefFunc(name, names, body))
            },
            Datum::Symbol(nm) => {
                proof {
                    assert(decreases_to!(ds@ => ds@[1]));
                }
                let body = match self.expand_expr(&ds[1]) {
                    Ok(e) => e,
                    Err(e) => {
                        return Err(e);
                    },
                };
                Ok(Def::DefValue(nm.clone(), body))
            },
            _ => Err(ExpanderError::IdentifierExpected(FormKind::Define)),
        }
    }

    /// The `define-record` form: a bare symbol name and an all-symbol
    /// member list, nothing else.
    fn expand_define_record(&self, ds: &[Datum]) -> (r: ExpanderResult<Def>)
        ensures
            match x_define_record(data_v(ds@)) {
                Ok(def) => r matches Ok(d2) && d2@ == def,
                Err(er) => r == Err::<Def, ExpanderError>(er),
            },
    {
        proof {
            lemma_data_v(ds@);
        }
        if ds.len() == 0 {
            return Err(ExpanderError::IllegalNumberOfArgs(FormKind::DefineRecord));
        }
        let name = match &ds[0] {
            Datum::Symbol(s) => s.clone(),
            _ => {
                return Err(ExpanderError::IdentifierExpected(FormKind::DefineRecord));
            },
        };
        if ds.len() == 1 || ds.len() > 2 {
            return Err(ExpanderError::IllegalNumberOfArgs(FormKind::DefineRecord));
        }
        match &ds[1] {
            Datum::List(ms) => match symbol_names_of(ms.as_slice()) {
                Some(members) => Ok(Def::DefRecord(name, members)),
                None => Err(ExpanderError::IdentifierExpected(FormKind::DefineRecord)),
            },
            _ => Err(ExpanderError::ListExpected(FormKind::DefineRecord)),
        }
    }

    /// The `import` form: one or more string literals.
    fn expand_import(&self, ds: &[Datum]) -> (r: ExpanderResult<Import>)
        ensures
            match x_import(data_v(ds@)) {
                Ok(im) => r matches Ok(i2) && i2@ == im,
                Err(er) => r == Err::<Import, ExpanderError>(er),
            },
    {
        proof {
            lemma_data_v(ds@);
        }
        if ds.len() == 0 {
            return Err(ExpanderError::StringExpected(FormKind::Import));
        }
        match string_contents_of(ds) {
            Some(ss) => Ok(Import::Import(ss)),
            None => Err(ExpanderError::StringExpected(FormKind::Import)),
        }
    }

    /// The `export` form: one or more identifiers.
    fn expand_export(&self, ds: &[Datum]) -> (r: ExpanderResult<Import>)
        ensures
            match x_export(data_v(ds@)) {
                Ok(im) => r matches Ok(i2) && i2@ == im,
                Err(er) => r == Err::<Import, ExpanderError>(er),
            },
    {
        proof {
            lemma_data_v(ds@);
        }
        if ds.len() == 0 {
            return Err(ExpanderError::StringExpected(FormKind::Export));
        }
        match symbol_names_of(ds) {
            Some(ns) => Ok(Import::Export(ns)),
            None => Err(ExpanderError::StringExpected(FormKind::Export)),
        }
    }

    /// The non-final `cond` branches: two-element lists of test and
    /// result.
    #[verifier::loop_isolation(false)]
    fn expand_cond_branches(&self, ds: &[Datum]) -> (r: ExpanderResult<Vec<(Expr, Expr)>>)
        ensures
            match x_cond_branches(data_v(ds@)) {
                Ok(bs) => r matches Ok(v) && pairs_v(v@) == bs,
                Err(er) => r == Err::<Vec<(Expr, Expr)>, ExpanderError>(er),
            },
        decreases ds@, 0int,
    {
        let ghost dv = data_v(ds@);
        let ghost goal = x_cond_branches(dv);
        proof {
            lemma_data_v(ds@);
        }
        let mut branches: Vec<(Expr, Expr)> = Vec::new();
        let mut i: usize = 0;
        proof {
            assert(dv.skip(0) =~= dv);
            assert(branches@ =~= Seq::<(Expr, Expr)>::empty());
            let r2 = x_cond_branches(dv);
            if r2 is Ok {
                let rest = r2->Ok_0;
                assert(pairs_v(branches@) + rest =~= rest);
            }
        }
        while i < ds.len()
            invariant
                i <= ds@.len(),
                match x_cond_branches(dv.skip(i as int)) {
                    Ok(rest) => goal == Ok::<Seq<(ExprV, ExprV)>, ExpanderError>(
                        pairs_v(branches@) + rest,
                    ),
                    Err(e) => goal == Err::<Seq<(ExprV, ExprV)>, ExpanderError>(e),
                },
            decreases ds@.len() - i,
        {
            proof {
                assert(decreases_to!(ds@ => ds@[i as int]));
                assert(dv.skip(i as int)[0] == dv[i as int]);
            }
            match &ds[i] {
                Datum::List(bs) => {
                    proof {
                        lemma_data_v(bs@);
                    }
                    if bs.len() != 2 {
                        return Err(ExpanderError::ListExpected(FormKind::Cond));
                    }
                    proof {
                        assert(decreases_to!(ds@[i as int] => *bs));
                        assert(decreases_to!(bs@ => bs@[0]));
                        assert(decreases_to!(bs@ => bs@[1]));
                    }
                    let car_expr = match self.expand_expr(&bs[0]) {
                        Ok(e) => e,
                        Err(e) => {
                            return Err(e);
                        },
                    };
                    let cdr_expr = match self.expand_expr(&bs[1]) {
                        Ok(e) => e,
                        Err(e) => {
                            return Err(e);
                        },
                    };
                    proof {
                        lemma_pairs_v_push(branches@, (car_expr, cdr_expr));
                        assert(dv.skip(i as int).drop_first() =~= dv.skip(i + 1));
                        assert(pairs_v(branches@).push((car_expr@, cdr_expr@)) =~= pairs_v(
                            branches@,
                        ) + seq![(car_expr@, cdr_expr@)]);
                        let r2 = x_cond_branches(dv.skip(i + 1));
                        if r2 is Ok {
                            let rest = r2->Ok_0;
                            assert((pairs_v(branches@) + seq![(car_expr@, cdr_expr@)])
                                + rest =~= pairs_v(branches@) + (seq![(car_expr@, cdr_expr@)]
                                + rest));
                        }
                    }
                    branches.push((car_expr, cdr_expr));
                },
                _ => {
                    return Err(ExpanderError::ListExpected(FormKind::Cond));
                },
            }
            i = i + 1;
        }
        proof {
            assert(dv.skip(i as int) =~= Seq::<DatumV>::empty());
            assert(pairs_v(branches@) + Seq::<(ExprV, ExprV)>::empty() =~= pairs_v(
                branches@,
            ));
        }
        Ok(branches)
    }

    /// The final `cond` clause: `(else <expr>)`, with the literal symbol
    /// `else` at its head.
    fn expand_cond_else(&self, d: &Datum) -> (r: ExpanderResult<Expr>)
        ensures
            match x_cond_else(d@) {
                Ok(e) => r matches Ok(ex) && ex@ == e,
                Err(er) => r == Err::<Expr, ExpanderError>(er),
            },
        decreases *d, 0int,
    {
        match d {
            Datum::List(ls) => {
                proof {
                    lemma_data_v(ls@);
                }
                if ls.len() != 2 {
                    return Err(ExpanderError::CondElseExpected);
                }
                match &ls[0] {
                    Datum::Symbol(s) => {
                        if str_eq(s.as_str(), "else") {
                            proof {
                                assert(decreases_to!(*d => *ls));
                                assert(decreases_to!(ls@ => ls@[1]));
                            }
                            self.expand_expr(&ls[1])
                        } else {
                            Err(ExpanderError::CondElseExpected)
                        }
                    },
                    _ => Err(ExpanderError::CondElseExpected),
                }
            },
            _ => Err(ExpanderError::ListExpected(FormKind::Cond)),
        }
    }

    /// The `cond` form: branches followed by the mandatory else clause.
    fn expand_cond(&self, ds: &[Datum]) -> (r: ExpanderResult<Expr>)
        ensures
            match x_cond(data_v(ds@)) {
                Ok(e) => r matches Ok(ex) && ex@ == e,
                Err(er) => r == Err::<Expr, ExpanderError>(er),
            },
        decreases ds@, 1int,
    {
        proof {
            lemma_data_v(ds@);
        }
        if ds.len() == 0 {
            return Err(ExpanderError::IllegalNumberOfArgs(FormKind::Cond));
        }
        let init: &[Datum] = &ds[0..ds.len() - 1];
        proof {
            lemma_data_v_subrange(ds@, 0, ds@.len() - 1);
            assert(data_v(init@) == data_v(ds@).drop_last());
            assert(decreases_to!(ds@ => ds@[ds@.len() - 1]));
        }
        let branches = match self.expand_cond_branches(init) {
            Ok(bs) => bs,
            Err(e) => {
                return Err(e);
            },
        };
        let last_expr = match self.expand_cond_else(&ds[ds.len() - 1]) {
            Ok(e) => e,
            Err(e) => {
                return Err(e);
            },
        };
        Ok(Expr::Cond(branches, Box::new(last_expr)))
    }

    /// The `case` branches: a raw literal-datum list and an expanded
    /// result sequence each.
    #[verifier::loop_isolation(false)]
    fn expand_case_branches(&self, ds: &[Datum]) -> (r: ExpanderResult<
        Vec<(Vec<Datum>, Vec<Expr>)>,
    >)
        ensures
            match x_case_branches(data_v(ds@)) {
                Ok(bs) => r matches Ok(v) && case_branches_v(v@) == bs,
                Err(er) => r == Err::<Vec<(Vec<Datum>, Vec<Expr>)>, ExpanderError>(er),
            },
        decreases ds@, 0int,
    {
        let ghost dv = data_v(ds@);
        let ghost goal = x_case_branches(dv);
        proof {
            lemma_data_v(ds@);
        }
        let mut branches: Vec<(Vec<Datum>, Vec<Expr>)> = Vec::new();
        let mut i: usize = 0;
        proof {
            assert(dv.skip(0) =~= dv);
            assert(branches@ =~= Seq::<(Vec<Datum>, Vec<Expr>)>::empty());
            let r2 = x_case_branches(dv);
            if r2 is Ok {
                let rest = r2->Ok_0;
                assert(case_branches_v(branches@) + rest =~= rest);
            }
        }
        while i < ds.len()
            invariant
                i <= ds@.len(),
                match x_case_branches(dv.skip(i as int)) {
                    Ok(rest) => goal == Ok::<Seq<(Seq<DatumV>, Seq<ExprV>)>, ExpanderError>(
                        case_branches_v(branches@) + rest,
                    ),
                    Err(e) => goal == Err::<Seq<(Seq<DatumV>, Seq<ExprV>)>, ExpanderError>(
                        e,
                    ),
                },
            decreases ds@.len() - i,
        {
            proof {
                assert(decreases_to!(ds@ => ds@[i as int]));
                assert(dv.skip(i as int)[0] == dv[i as int]);
            }
            match &ds[i] {
                Datum::List(ls) => {
                    proof {
                        lemma_data_v(ls@);
                    }
                    if ls.len() == 0 {
                        return Err(ExpanderError::ListExpected(FormKind::Case));
                    }
                    match &ls[0] {
                        Datum::List(data) => {
                            proof {
                                assert(decreases_to!(ds@[i as int] => *ls));
                                assert(decreases_to!(ls@ => ls@[0]));
                            }
                            let tail: &[Datum] = &ls.as_slice()[1..ls.len()];
                            proof {
                                lemma_data_v_subrange(ls@, 1, ls@.len() as int);
                                assert(data_v(tail@) == data_v(ls@).drop_first());
                            }
                            let es = match self.expand_helper(tail) {
                                Ok(es) => es,
                                Err(e) => {
                                    return Err(e);
                                },
                            };
                            let datacopy = dup_data(data);
                            proof {
                                lemma_case_branches_v_push(branches@, (datacopy, es));
                                assert(dv.skip(i as int).drop_first() =~= dv.skip(i + 1));
                                assert(case_branches_v(branches@).push(
                                    (data_v(datacopy@), exprs_v(es@)),
                                ) =~= case_branches_v(branches@) + seq![(
                                    data_v(datacopy@),
                                    exprs_v(es@),
                                )]);
                                let r2 = x_case_branches(dv.skip(i + 1));
                                if r2 is Ok {
                                    let rest = r2->Ok_0;
                                    assert((case_branches_v(branches@) + seq![(
                                        data_v(datacopy@),
                                        exprs_v(es@),
                                    )]) + rest =~= case_branches_v(branches@) + (seq![(
                                        data_v(datacopy@),
                                        exprs_v(es@),
                                    )] + rest));
                                }
                            }
                            branches.push((datacopy, es));
                        },
                        _ => {
                            return Err(ExpanderError::ListExpected(FormKind::Case));
                        },
                    }
                },
                _ => {
                    return Err(ExpanderError::ListExpected(FormKind::Case));
                },
            }
            i = i + 1;
        }
        proof {
            assert(dv.skip(i as int) =~= Seq::<DatumV>::empty());
            assert(case_branches_v(branches@) + Seq::<(Seq<DatumV>, Seq<ExprV>)>::empty()
                =~= case_branches_v(branches@));
        }
        Ok(branches)
    }

    /// The final `case` clause: `(else <expr>*)`, with the literal symbol
    /// `else` at its head.
    fn expand_case_else(&self, d: &Datum) -> (r: ExpanderResult<Vec<Expr>>)
        ensures
            match x_case_else(d@) {
                Ok(es) => r matches Ok(v) && exprs_v(v@) == es,
                Err(er) => r == Err::<Vec<Expr>, ExpanderError>(er),
            },
        decreases *d, 0int,
    {
        match d {
            Datum::List(ds2) => {
                proof {
                    lemma_data_v(ds2@);
                }
                if ds2.len() == 0 {
                    return Err(ExpanderError::CondElseExpected);
                }
                match &ds2[0] {
                    Datum::Symbol(s) => {
                        if str_eq(s.as_str(), "else") {
                            proof {
                                assert(decreases_to!(*d => *ds2));
                            }
                            let tail: &[Datum] = &ds2.as_slice()[1..ds2.len()];
                            proof {
                                lemma_data_v_subrange(ds2@, 1, ds2@.len() as int);
                                assert(data_v(tail@) == data_v(ds2@).drop_first());
                            }
                            self.expand_helper(tail)
                        } else {
                            Err(ExpanderError::CondElseExpected)
                        }
                    },
                    _ => Err(ExpanderError::CondElseExpected),
                }
            },
            _ => Err(ExpanderError::ListExpected(FormKind::Case)),
        }
    }

    /// The `case` form: an analysand, branches, and the mandatory else
    /// clause.
    fn expand_case(&self, ds: &[Datum]) -> (r: ExpanderResult<Expr>)
        ensures
            match x_case(data_v(ds@)) {
                Ok(e) => r matches Ok(ex) && ex@ == e,
                Err(er) => r == Err::<Expr, ExpanderError>(er),
            },
        decreases ds@, 1int,
    {
        proof {
            lemma_data_v(ds@);
        }
        if ds.len() < 2 {
            return Err(ExpanderError::IllegalNumberOfArgs(FormKind::Case));
        }
        proof {
            assert(decreases_to!(ds@ => ds@[0]));
            assert(decreases_to!(ds@ => ds@[ds@.len() - 1]));
        }
        let analysand_expr = match self.expand_expr(&ds[0]) {
            Ok(e) => e,
            Err(e) => {
                return Err(e);
            },
        };
        let mid: &[Datum] = &ds[1..ds.len() - 1];
        proof {
            lemma_data_v_subrange(ds@, 1, ds@.len() - 1);
            assert(data_v(mid@) =~= data_v(ds@).drop_first().drop_last());
        }
        let branches = match self.expand_case_branches(mid) {
            Ok(bs) => bs,
            Err(e) => {
                return Err(e);
            },
        };
        let els = match self.expand_case_else(&ds[ds.len() - 1]) {
            Ok(es) => es,
            Err(e) => {
                return Err(e);
            },
        };
        Ok(Expr::Case(Box::new(analysand_expr), branches, els))
    }

    /// The `and` form: any number of expressions.
    fn expand_and(&self, ds: &[Datum]) -> (r: ExpanderResult<Expr>)
        ensures
            match x_exprs(data_v(ds@)) {
                Ok(es) => r matches Ok(ex) && ex@ == ExprV::And(es),
                Err(er) => r == Err::<Expr, ExpanderError>(er),
            },
        decreases ds@, 1int,
    {
        match self.expand_helper(ds) {
            Ok(es) => Ok(Expr::And(es)),
            Err(e) => Err(e),
        }
    }

    /// The `or` form: any number of expressions.
    fn expand_or(&self, ds: &[Datum]) -> (r: ExpanderResult<Expr>)
        ensures
            match x_exprs(data_v(ds@)) {
                Ok(es) => r matches Ok(ex) && ex@ == ExprV::Or(es),
                Err(er) => r == Err::<Expr, ExpanderError>(er),
            },
        decreases ds@, 1int,
    {
        match self.expand_helper(ds) {
            Ok(es) => Ok(Expr::Or(es)),
            Err(e) => Err(e),
        }
    }

    /// The shared shape of `when` and `unless`: a condition and a body
    /// sequence.
    fn when_unless_helper(&self, ds: &[Datum], kind: FormKind) -> (r: ExpanderResult<
        (Expr, Vec<Expr>),
    >)
        ensures
            match x_when_unless(data_v(ds@), kind) {
                Ok(p) => r matches Ok(q) && q.0@ == p.0 && exprs_v(q.1@) == p.1,
                Err(er) => r == Err::<(Expr, Vec<Expr>), ExpanderError>(er),
            },
        decreases ds@, 0int,
    {
        proof {
            lemma_data_v(ds@);
        }
        if ds.len() == 0 {
            return Err(ExpanderError::IllegalNumberOfArgs(kind));
        }
        proof {
            assert(decreases_to!(ds@ => ds@[0]));
        }
        let condition = match self.expand_expr(&ds[0]) {
            Ok(e) => e,
            Err(e) => {
                return Err(e);
            },
        };
        let tail: &[Datum] = &ds[1..ds.len()];
        proof {
            lemma_data_v_subrange(ds@, 1, ds@.len() as int);
            assert(data_v(tail@) == data_v(ds@).drop_first());
        }
        let seq = match self.expand_helper(tail) {
            Ok(es) => es,
            Err(e) => {
                return Err(e);
            },
        };
        Ok((condition, seq))
    }

    /// The `when` form: a condition and a body sequence.
    fn expand_when(&self, ds: &[Datum]) -> (r: ExpanderResult<Expr>)
        ensures
            match x_when_unless(data_v(ds@), FormKind::When) {
                Ok(p) => r matches Ok(ex) && ex@ == ExprV::When(Box::new(p.0), p.1),
                Err(er) => r == Err::<Expr, ExpanderError>(er),
            },
        decreases ds@, 1int,
    {
        match self.when_unless_helper(ds, FormKind::When) {
            Ok(p) => Ok(Expr::When(Box::new(p.0), p.1)),
            Err(e) => Err(e),
        }
    }

    /// The `unless` form: a condition and a body sequence.
    fn expand_unless(&self, ds: &[Datum]) -> (r: ExpanderResult<Expr>)
        ensures
            match x_when_unless(data_v(ds@), FormKind::Unless) {
                Ok(p) => r matches Ok(ex) && ex@ == ExprV::Unless(Box::new(p.0), p.1),
                Err(er) => r == Err::<Expr, ExpanderError>(er),
            },
        decreases ds@, 1int,
    {
        match self.when_unless_helper(ds, FormKind::Unless) {
            Ok(p) => Ok(Expr::Unless(Box::new(p.0), p.1)),
            Err(e) => Err(e),
        }
    }

    /// The binding list of `let` and `letrec`.
    #[verifier::loop_isolation(false)]
    fn expand_let_branches(&self, ds: &[Datum]) -> (r: ExpanderResult<Vec<(String, Expr)>>)
        ensures
            match x_let_branches(data_v(ds@)) {
                Ok(bs) => r matches Ok(v) && bindings_v(v@) == bs,
                Err(er) => r == Err::<Vec<(String, Expr)>, ExpanderError>(er),
            },
        decreases ds@, 0int,
    {
        let ghost dv = data_v(ds@);
        let ghost goal = x_let_branches(dv);
        proof {
            lemma_data_v(ds@);
        }
        let mut branches: Vec<(String, Expr)> = Vec::new();
        let mut i: usize = 0;
        proof {
            assert(dv.skip(0) =~= dv);
            assert(branches@ =~= Seq::<(String, Expr)>::empty());
            let r2 = x_let_branches(dv);
            if r2 is Ok {
                let rest = r2->Ok_0;
                assert(bindings_v(branches@) + rest =~= rest);
            }
        }
        while i < ds.len()
            invariant
                i <= ds@.len(),
                match x_let_branches(dv.skip(i as int)) {
                    Ok(rest) => goal == Ok::<Seq<(Seq<char>, ExprV)>, ExpanderError>(
                        bindings_v(branches@) + rest,
                    ),
                    Err(e) => goal == Err::<Seq<(Seq<char>, ExprV)>, ExpanderError>(e),
                },
            decreases ds@.len() - i,
        {
            proof {
                assert(decreases_to!(ds@ => ds@[i as int]));
                assert(dv.skip(i as int)[0] == dv[i as int]);
            }
            match &ds[i] {
                Datum::List(ls) => {
                    proof {
                        lemma_data_v(ls@);
                    }
                    if ls.len() < 2 {
                        return Err(ExpanderError::ListExpected(FormKind::Let));
                    }
                    if ls.len() > 2 {
                        return Err(ExpanderError::IllegalNumberOfArgs(FormKind::Let));
                    }
                    match &ls[0] {
                        Datum::Symbol(n) => {
                            proof {
                                assert(decreases_to!(ds@[i as int] => *ls));
                                assert(decreases_to!(ls@ => ls@[1]));
                            }
                            let body_expr = match self.expand_expr(&ls[1]) {
                                Ok(e) => e,
                                Err(e) => {
                                    return Err(e);
                                },
                            };
                            let nm = n.clone();
                            proof {
                                lemma_bindings_v_push(branches@, (nm, body_expr));
                                assert(dv.skip(i as int).drop_first() =~= dv.skip(i + 1));
                                assert(bindings_v(branches@).push((nm@, body_expr@))
                                    =~= bindings_v(branches@) + seq![(nm@, body_expr@)]);
                                let r2 = x_let_branches(dv.skip(i + 1));
                                if r2 is Ok {
                                    let rest = r2->Ok_0;
                                    assert((bindings_v(branches@) + seq![(nm@, body_expr@)])
                                        + rest =~= bindings_v(branches@) + (seq![(
                                        nm@,
                                        body_expr@,
                                    )] + rest));
                                }
                            }
                            branches.push((nm, body_expr));
                        },
                        _ => {
                            return Err(ExpanderError::ListExpected(FormKind::Let));
                        },
                    }
                },
                _ => {
                    return Err(ExpanderError::ListExpected(FormKind::Let));
                },
            }
            i = i + 1;
        }
        proof {
            assert(dv.skip(i as int) =~= Seq::<DatumV>::empty());
            assert(bindings_v(branches@) + Seq::<(Seq<char>, ExprV)>::empty() =~= bindings_v(
                branches@,
            ));
        }
        Ok(branches)
    }

    /// The `let` form: a binding list and exactly one body expression.
    fn expand_let(&self, ds: &[Datum]) -> (r: ExpanderResult<Expr>)
        ensures
            match x_let(data_v(ds@), FormKind::Let) {
                Ok(e) => r matches Ok(ex) && ex@ == e,
                Err(er) => r == Err::<Expr, ExpanderError>(er),
            },
        decreases ds@, 1int,
    {
        proof {
            lemma_data_v(ds@);
        }
        if ds.len() != 2 {
            return Err(ExpanderError::IllegalNumberOfArgs(FormKind::Let));
        }
        match &ds[0] {
            Datum::List(bs) => {
                proof {
                    lemma_data_v(bs@);
                    assert(decreases_to!(ds@ => ds@[0]));
                    assert(decreases_to!(ds@[0] => *bs));
                    assert(decreases_to!(ds@ => ds@[1]));
                }
                let branchaises = match self.expand_let_branches(bs.as_slice()) {
                    Ok(v) => v,
                    Err(e) => {
                        return Err(e);
                    },
                };
                let body_expr = match self.expand_expr(&ds[1]) {
                    Ok(e) => e,
                    Err(e) => {
                        return Err(e);
                    },
                };
                Ok(Expr::Let(branchaises, Box::new(body_expr)))
            },
            _ => Err(ExpanderError::ListExpected(FormKind::Let)),
        }
    }

    /// The `letrec` form: desugars to the same binding node as `let`.
    fn expand_letrec(&self, ds: &[Datum]) -> (r: ExpanderResult<Expr>)
        ensures
            match x_let(data_v(ds@), FormKind::LetRec) {
                Ok(e) => r matches Ok(ex) && ex@ == e,
                Err(er) => r == Err::<Expr, ExpanderError>(er),
            },
        decreases ds@, 1int,
    {
        proof {
            lemma_data_v(ds@);
        }
        if ds.len() != 2 {
            return Err(ExpanderError::IllegalNumberOfArgs(FormKind::LetRec));
        }
        match &ds[0] {
            Datum::List(bs) => {
                proof {
                    lemma_data_v(bs@);
                    assert(decreases_to!(ds@ => ds@[0]));
                    assert(decreases_to!(ds@[0] => *bs));
                    assert(decreases_to!(ds@ => ds@[1]));
                }
                let branchaises = match self.expand_let_branches(bs.as_slice()) {
                    Ok(v) => v,
                    Err(e) => {
                        return Err(e);
                    },
                };
                let body_expr = match self.expand_expr(&ds[1]) {
                    Ok(e) => e,
                    Err(e) => {
                        return Err(e);
                    },
                };
                Ok(Expr::Let(branchaises, Box::new(body_expr)))
            },
            _ => Err(ExpanderError::ListExpected(FormKind::LetRec)),
        }
    }

    /// The `begin` form: any number of expressions in order.
    fn expand_begin(&self, ds: &[Datum]) -> (r: ExpanderResult<Expr>)
        ensures
            match x_exprs(data_v(ds@)) {
                Ok(es) => r matches Ok(ex) && ex@ == ExprV::Begin(es),
                Err(er) => r == Err::<Expr, ExpanderError>(er),
            },
        decreases ds@, 1int,
    {
        match self.expand_helper(ds) {
            Ok(es) => Ok(Expr::Begin(es)),
            Err(e) => Err(e),
        }
    }

    /// Expands one top-level datum and appends its contribution to the
    /// program, as `x_top` describes; on an error the program is
    /// untouched.
    fn expand_datum(&self, d: &Datum, prgrm: &mut Program) -> (r: ExpanderResult<()>)
        ensures
            match x_top(d@) {
                Ok(TopEntry::Imp(im)) => r matches Ok(_) && final(prgrm)@.imports == old(
                    prgrm,
                )@.imports.push(im) && final(prgrm)@.stmts == old(prgrm)@.stmts,
                Ok(TopEntry::St(st)) => r matches Ok(_) && final(prgrm)@.stmts == old(
                    prgrm,
                )@.stmts.push(st) && final(prgrm)@.imports == old(prgrm)@.imports,
                Err(e) => r == Err::<(), ExpanderError>(e) && *final(prgrm) == *old(prgrm),
            },
        decreases *d, 2int,
    {
        let stmt: Stmt;
        match d {
            Datum::List(v) => {
                proof {
                    lemma_data_v(v@);
                    assert(decreases_to!(*d => *v));
                }
                if v.len() == 0 {
                    return Err(ExpanderError::IllegalNonatomic);
                }
                let tail: &[Datum] = &v.as_slice()[1..v.len()];
                proof {
                    lemma_data_v_subrange(v@, 1, v@.len() as int);
                    assert(data_v(tail@) == data_v(v@).drop_first());
                }
                let is_sym_head = matches!(&v[0], Datum::Symbol(_));
                if is_sym_head {
                    let kw = match &v[0] {
                        Datum::Symbol(s) => s,
                        _ => unreached(),
                    };
                    if str_eq(kw.as_str(), "define") {
                        let def = match self.expand_define(tail) {
                            Ok(df) => df,
                            Err(e) => {
                                return Err(e);
                            },
                        };
                        let ghost st0 = prgrm.stmts@;
                        prgrm.stmts.push(Stmt::Def(def));
                        proof {
                            assert(stmts_v(prgrm.stmts@) =~= stmts_v(st0).push(
                                crate::primsyn::stmt_v(Stmt::Def(def)),
                            ));
                        }
                        return Ok(());
                    } else if str_eq(kw.as_str(), "define-record") {
                        let def = match self.expand_define_record(tail) {
                            Ok(df) => df,
                            Err(e) => {
                                return Err(e);
                            },
                        };
                        let ghost st0 = prgrm.stmts@;
                        prgrm.stmts.push(Stmt::Def(def));
                        proof {
                            assert(stmts_v(prgrm.stmts@) =~= stmts_v(st0).push(
                                crate::primsyn::stmt_v(Stmt::Def(def)),
                            ));
                        }
                        return Ok(());
                    } else if str_eq(kw.as_str(), "import") {
                        let im = match self.expand_import(tail) {
                            Ok(im) => im,
                            Err(e) => {
                                return Err(e);
                            },
                        };
                        let ghost im0 = prgrm.imports@;
                        prgrm.imports.push(im);
                        proof {
                            assert(imports_v(prgrm.imports@) =~= imports_v(im0).push(
                                crate::primsyn::import_v(im),
                            ));
                        }
                        return Ok(());
                    } else if str_eq(kw.as_str(), "export") {
                        let im = match self.expand_export(tail) {
                            Ok(im) => im,
                            Err(e) => {
                                return Err(e);
                            },
                        };
                        let ghost im0 = prgrm.imports@;
                        prgrm.imports.push(im);
                        proof {
                            assert(imports_v(prgrm.imports@) =~= imports_v(im0).push(
                                crate::primsyn::import_v(im),
                            ));
                        }
                        return Ok(());
                    } else if str_eq(kw.as_str(), "quote") {
                        let e2 = match self.expand_quote(tail) {
                            Ok(e2) => e2,
                            Err(e) => {
                                return Err(e);
                            },
                        };
                        stmt = Stmt::Expr(e2);
                    } else {
                        let e2 = match self.expand_expr(d) {
                            Ok(e2) => e2,
                            Err(e) => {
                                return Err(e);
                            },
                        };
                        stmt = Stmt::Expr(e2);
                    }
                } else {
                    let e2 = match self.expand_expr(d) {
                        Ok(e2) => e2,
                        Err(e) => {
                            return Err(e);
                        },
                    };
                    stmt = Stmt::Expr(e2);
                }
            },
            _ => {
                let e2 = match self.expand_expr(d) {
                    Ok(e2) => e2,
                    Err(e) => {
                        return Err(e);
                    },
                };
                stmt = Stmt::Expr(e2);
            },
        }
        let ghost st0 = prgrm.stmts@;
        let ghost stv = stmt@;
        prgrm.stmts.push(stmt);
        proof {
            assert(stmts_v(prgrm.stmts@) =~= stmts_v(st0).push(stv));
        }
        Ok(())
    }

    /// Expands a whole source datum — usually the outer list the reader
    /// produced — into a program, as `x_prgrm` describes.
    #[verifier::loop_isolation(false)]
    pub fn expand_prgrm(&self, src: &Datum) -> (r: ExpanderResult<Program>)
        ensures
            match x_prgrm(src@) {
                Ok(p) => r matches Ok(pr) && pr@.imports == p.imports && pr@.stmts
                    == p.stmts,
                Err(e) => r matches Err(e2) && e2 == e,
            },
        decreases *src, 3int,
    {
        let mut prgrm = Program::init();
        match src {
            Datum::List(vs) => {
                proof {
                    lemma_data_v(vs@);
                    assert(decreases_to!(*src => *vs));
                }
                let ghost dv = data_v(vs@);
                let ghost goal = x_prgrm_datums(dv, Seq::empty(), Seq::empty());
                let mut i: usize = 0;
                proof {
                    assert(dv.skip(0) =~= dv);
                    assert(imports_v(prgrm.imports@) =~= Seq::<crate::primsyn::ImportV>::empty());
                    assert(stmts_v(prgrm.stmts@) =~= Seq::<crate::primsyn::StmtV>::empty());
                }
                while i < vs.len()
                    invariant
                        i <= vs@.len(),
                        x_prgrm_datums(
                            dv.skip(i as int),
                            imports_v(prgrm.imports@),
                            stmts_v(prgrm.stmts@),
                        ) == goal,
                    decreases vs@.len() - i,
                {
                    proof {
                        assert(decreases_to!(vs@ => vs@[i as int]));
                        assert(dv.skip(i as int)[0] == dv[i as int]);
                        assert(dv.skip(i as int).drop_first() =~= dv.skip(i + 1));
                    }
                    match self.expand_datum(&vs[i], &mut prgrm) {
                        Ok(_) => {},
                        Err(e) => {
                            return Err(e);
                        },
                    }
                    i = i + 1;
                }
                proof {
                    assert(dv.skip(i as int) =~= Seq::<DatumV>::empty());
                }
                Ok(prgrm)
            },
            _ => {
                match self.expand_datum(src, &mut prgrm) {
                    Ok(_) => {
                        proof {
                            let r2 = x_top(src@);
                            if r2 is Ok {
                                match r2->Ok_0 {
                                    TopEntry::Imp(im) => {
                                        assert(imports_v(prgrm.imports@)
                                            =~= Seq::<crate::primsyn::ImportV>::empty().push(
                                            im,
                                        ));
                                    },
                                    TopEntry::St(st) => {
                                        assert(stmts_v(prgrm.stmts@)
                                            =~= Seq::<crate::primsyn::StmtV>::empty().push(
                                            st,
                                        ));
                                    },
                                }
                            }
                        }
                        Ok(prgrm)
                    },
                    Err(e) => Err(e),
                }
            },
        }
    }
}

} // verus!
