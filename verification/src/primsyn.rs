//! The primitive special forms: the typed core AST that expansion produces,
//! shared with everything downstream, together with its mathematical model.

use vstd::prelude::*;

use crate::datum::{Datum, DatumV};

verus! {

/// The expander's output: ordered imports/exports and ordered top-level
/// statements; both orders are meaningful and are never reordered.
#[derive(Debug, PartialEq)]
pub struct Program {
    pub imports: Vec<Import>,
    pub stmts: Vec<Stmt>,
}

/// An import of module names or an export of identifiers, in source order.
#[derive(Debug, PartialEq)]
pub enum Import {
    Export(Vec<String>),
    Import(Vec<String>),
}

/// A top-level statement: a definition or an expression.
#[derive(Debug, PartialEq)]
pub enum Stmt {
    Def(Def),
    Expr(Expr),
}

/// A top-level definition.
#[derive(Debug, PartialEq)]
pub enum Def {
    DefValue(String, Expr),
    DefFunc(String, Vec<String>, Expr),
    DefRecord(String, Vec<String>),
}

/// The core-language expression tree.
#[derive(Debug, PartialEq)]
pub enum Expr {
    Symbol(String),
    Bool(bool),
    Fixnum(i32),
    Vector(Vec<Datum>),
    Char(char),
    Str(String),
    Quote(Datum),
    Unquote(Datum),
    ProcCall(Box<Expr>, Vec<Expr>),
    Lambda(Vec<String>, Box<Expr>),
    If(Box<Expr>, Box<Expr>, Box<Expr>),
    Cond(Vec<(Expr, Expr)>, Box<Expr>),
    Case(Box<Expr>, Vec<(Vec<Datum>, Sequence)>, Sequence),
    And(Vec<Expr>),
    Or(Vec<Expr>),
    When(Box<Expr>, Sequence),
    Unless(Box<Expr>, Sequence),
    Let(Vec<BindingSpec>, Box<Expr>),
    LetRec(Vec<BindingSpec>, Box<Expr>),
    Begin(Sequence),
}

pub type BindingSpec = (String, Expr);

pub type Sequence = Vec<Expr>;

/// Mathematical model of an expression tree.
pub enum ExprV {
    Symbol(Seq<char>),
    Bool(bool),
    Fixnum(int),
    Vector(Seq<DatumV>),
    Char(char),
    Str(Seq<char>),
    Quote(DatumV),
    Unquote(DatumV),
    ProcCall(Box<ExprV>, Seq<ExprV>),
    Lambda(Seq<Seq<char>>, Box<ExprV>),
    If(Box<ExprV>, Box<ExprV>, Box<ExprV>),
    Cond(Seq<(ExprV, ExprV)>, Box<ExprV>),
    Case(Box<ExprV>, Seq<(Seq<DatumV>, Seq<ExprV>)>, Seq<ExprV>),
    And(Seq<ExprV>),
    Or(Seq<ExprV>),
    When(Box<ExprV>, Seq<ExprV>),
    Unless(Box<ExprV>, Seq<ExprV>),
    Let(Seq<(Seq<char>, ExprV)>, Box<ExprV>),
    LetRec(Seq<(Seq<char>, ExprV)>, Box<ExprV>),
    Begin(Seq<ExprV>),
}

/// Mathematical model of a definition.
pub enum DefV {
    DefValue(Seq<char>, ExprV),
    DefFunc(Seq<char>, Seq<Seq<char>>, ExprV),
    DefRecord(Seq<char>, Seq<Seq<char>>),
}

/// Mathematical model of a statement.
pub enum StmtV {
    Def(DefV),
    Expr(ExprV),
}

/// Mathematical model of an import/export entry.
pub enum ImportV {
    Export(Seq<Seq<char>>),
    Import(Seq<Seq<char>>),
}

/// Mathematical model of a program.
pub struct ProgramV {
    pub imports: Seq<ImportV>,
    pub stmts: Seq<StmtV>,
}

/// The models of a sequence of strings.
pub open spec fn strings_v(s: Seq<String>) -> Seq<Seq<char>> {
    Seq::new(s.len(), |i: int| s[i]@)
}

/// The model of an expression tree.
pub open spec fn expr_v(e: Expr) -> ExprV
    decreases e,
{
    match e {
        Expr::Symbol(s) => ExprV::Symbol(s@),
        Expr::Bool(b) => ExprV::Bool(b),
        Expr::Fixnum(n) => ExprV::Fixnum(n as int),
        Expr::Vector(v) => ExprV::Vector(crate::datum::data_v(v@)),
        Expr::Char(c) => ExprV::Char(c),
        Expr::Str(s) => ExprV::Str(s@),
        Expr::Quote(d) => ExprV::Quote(crate::datum::datum_v(d)),
        Expr::Unquote(d) => ExprV::Unquote(crate::datum::datum_v(d)),
        Expr::ProcCall(f, args) => ExprV::ProcCall(Box::new(expr_v(*f)), exprs_v(args@)),
        Expr::Lambda(ps, b) => ExprV::Lambda(strings_v(ps@), Box::new(expr_v(*b))),
        Expr::If(c, t, e2) => ExprV::If(
            Box::new(expr_v(*c)),
            Box::new(expr_v(*t)),
            Box::new(expr_v(*e2)),
        ),
        Expr::Cond(bs, e2) => ExprV::Cond(pairs_v(bs@), Box::new(expr_v(*e2))),
        Expr::Case(a, bs, e2) => ExprV::Case(
            Box::new(expr_v(*a)),
            case_branches_v(bs@),
            exprs_v(e2@),
        ),
        Expr::And(es) => ExprV::And(exprs_v(es@)),
        Expr::Or(es) => ExprV::Or(exprs_v(es@)),
        Expr::When(c, es) => ExprV::When(Box::new(expr_v(*c)), exprs_v(es@)),
        Expr::Unless(c, es) => ExprV::Unless(Box::new(expr_v(*c)), exprs_v(es@)),
        Expr::Let(bs, b) => ExprV::Let(bindings_v(bs@), Box::new(expr_v(*b))),
        Expr::LetRec(bs, b) => ExprV::LetRec(bindings_v(bs@), Box::new(expr_v(*b))),
        Expr::Begin(es) => ExprV::Begin(exprs_v(es@)),
    }
}

/// The models of a sequence of expressions, in order.
pub open spec fn exprs_v(s: Seq<Expr>) -> Seq<ExprV>
    decreases s,
{
    if s.len() == 0 {
        Seq::empty()
    } else {
        seq![expr_v(s[0])] + exprs_v(s.drop_first())
    }
}

/// The models of a sequence of expression pairs, in order.
pub open spec fn pairs_v(s: Seq<(Expr, Expr)>) -> Seq<(ExprV, ExprV)>
    decreases s,
{
    if s.len() == 0 {
        Seq::empty()
    } else {
        seq![(expr_v(s[0].0), expr_v(s[0].1))] + pairs_v(s.drop_first())
    }
}

/// The models of a sequence of case branches, in order.
pub open spec fn case_branches_v(s: Seq<(Vec<Datum>, Vec<Expr>)>) -> Seq<
    (Seq<DatumV>, Seq<ExprV>),
>
    decreases s,
{
    if s.len() == 0 {
        Seq::empty()
    } else {
        seq![(crate::datum::data_v(s[0].0@), exprs_v(s[0].1@))] + case_branches_v(
            s.drop_first(),
        )
    }
}

/// The models of a sequence of let bindings, in order.
pub open spec fn bindings_v(s: Seq<(String, Expr)>) -> Seq<(Seq<char>, ExprV)>
    decreases s,
{
    if s.len() == 0 {
        Seq::empty()
    } else {
        seq![(s[0].0@, expr_v(s[0].1))] + bindings_v(s.drop_first())
    }
}

/// The model of a definition.
pub open spec fn def_v(d: Def) -> DefV {
    match d {
        Def::DefValue(n, e) => DefV::DefValue(n@, expr_v(e)),
        Def::DefFunc(n, ps, e) => DefV::DefFunc(n@, strings_v(ps@), expr_v(e)),
        Def::DefRecord(n, ms) => DefV::DefRecord(n@, strings_v(ms@)),
    }
}

/// The model of a statement.
pub open spec fn stmt_v(s: Stmt) -> StmtV {
    match s {
        Stmt::Def(d) => StmtV::Def(def_v(d)),
        Stmt::Expr(e) => StmtV::Expr(expr_v(e)),
    }
}

/// The models of a sequence of statements, in order.
pub open spec fn stmts_v(s: Seq<Stmt>) -> Seq<StmtV> {
    Seq::new(s.len(), |i: int| stmt_v(s[i]))
}

/// The model of an import/export entry.
pub open spec fn import_v(im: Import) -> ImportV {
    match im {
        Import::Export(ns) => ImportV::Export(strings_v(ns@)),
        Import::Import(ns) => ImportV::Import(strings_v(ns@)),
    }
}

/// The models of a sequence of import entries, in order.
pub open spec fn imports_v(s: Seq<Import>) -> Seq<ImportV> {
    Seq::new(s.len(), |i: int| import_v(s[i]))
}

impl View for Program {
    type V = ProgramV;

    open spec fn view(&self) -> ProgramV {
        ProgramV { imports: imports_v(self.imports@), stmts: stmts_v(self.stmts@) }
    }
}

impl View for Expr {
    type V = ExprV;

    open spec fn view(&self) -> ExprV {
        expr_v(*self)
    }
}

impl View for Stmt {
    type V = StmtV;

    open spec fn view(&self) -> StmtV {
        stmt_v(*self)
    }
}

impl View for Def {
    type V = DefV;

    open spec fn view(&self) -> DefV {
        def_v(*self)
    }
}

impl View for Import {
    type V = ImportV;

    open spec fn view(&self) -> ImportV {
        import_v(*self)
    }
}

impl Program {
    /// A program with no imports and no statements yet.
    pub fn init() -> (r: Self)
        ensures
            r@.imports == Seq::<ImportV>::empty(),
            r@.stmts == Seq::<StmtV>::empty(),
    {
        let r = Program { imports: Vec::new(), stmts: Vec::new() };
        proof {
            assert(r@.imports =~= Seq::<ImportV>::empty());
            assert(r@.stmts =~= Seq::<StmtV>::empty());
        }
        r
    }
}

/// `exprs_v` maps the model over the sequence element by element.
pub proof fn lemma_exprs_v(s: Seq<Expr>)
    ensures
        exprs_v(s).len() == s.len(),
        forall|i: int| 0 <= i < s.len() ==> exprs_v(s)[i] == expr_v(s[i]),
    decreases s.len(),
{
    if s.len() > 0 {
        lemma_exprs_v(s.drop_first());
    }
}

/// Appending an expression appends its model.
pub proof fn lemma_exprs_v_push(s: Seq<Expr>, e: Expr)
    ensures
        exprs_v(s.push(e)) == exprs_v(s).push(expr_v(e)),
{
    lemma_exprs_v(s.push(e));
    lemma_exprs_v(s);
    assert(exprs_v(s.push(e)) =~= exprs_v(s).push(expr_v(e)));
}

/// Appending an expression pair appends its model.
pub proof fn lemma_pairs_v_push(s: Seq<(Expr, Expr)>, p: (Expr, Expr))
    ensures
        pairs_v(s.push(p)) == pairs_v(s).push((expr_v(p.0), expr_v(p.1))),
    decreases s.len(),
{
    lemma_pairs_v(s.push(p));
    lemma_pairs_v(s);
    assert(pairs_v(s.push(p)) =~= pairs_v(s).push((expr_v(p.0), expr_v(p.1))));
}

/// `pairs_v` maps the model over the sequence element by element.
pub proof fn lemma_pairs_v(s: Seq<(Expr, Expr)>)
    ensures
        pairs_v(s).len() == s.len(),
        forall|i: int|
            0 <= i < s.len() ==> pairs_v(s)[i] == (expr_v(s[i].0), expr_v(s[i].1)),
    decreases s.len(),
{
    if s.len() > 0 {
        lemma_pairs_v(s.drop_first());
    }
}

/// `case_branches_v` maps the model over the sequence element by element.
pub proof fn lemma_case_branches_v(s: Seq<(Vec<Datum>, Vec<Expr>)>)
    ensures
        case_branches_v(s).len() == s.len(),
        forall|i: int|
            0 <= i < s.len() ==> case_branches_v(s)[i] == (
                crate::datum::data_v(s[i].0@),
                exprs_v(s[i].1@),
            ),
    decreases s.len(),
{
    if s.len() > 0 {
        lemma_case_branches_v(s.drop_first());
    }
}

/// Appending a case branch appends its model.
pub proof fn lemma_case_branches_v_push(s: Seq<(Vec<Datum>, Vec<Expr>)>, p: (Vec<Datum>, Vec<Expr>))
    ensures
        case_branches_v(s.push(p)) == case_branches_v(s).push(
            (crate::datum::data_v(p.0@), exprs_v(p.1@)),
        ),
{
    lemma_case_branches_v(s.push(p));
    lemma_case_branches_v(s);
    assert(case_branches_v(s.push(p)) =~= case_branches_v(s).push(
        (crate::datum::data_v(p.0@), exprs_v(p.1@)),
    ));
}

/// `bindings_v` maps the model over the sequence element by element.
pub proof fn lemma_bindings_v(s: Seq<(String, Expr)>)
    ensures
        bindings_v(s).len() == s.len(),
        forall|i: int| 0 <= i < s.len() ==> bindings_v(s)[i] == (s[i].0@, expr_v(s[i].1)),
    decreases s.len(),
{
    if s.len() > 0 {
        lemma_bindings_v(s.drop_first());
    }
}

/// Appending a binding appends its model.
pub proof fn lemma_bindings_v_push(s: Seq<(String, Expr)>, p: (String, Expr))
    ensures
        bindings_v(s.push(p)) == bindings_v(s).push((p.0@, expr_v(p.1))),
{
    lemma_bindings_v(s.push(p));
    lemma_bindings_v(s);
    assert(bindings_v(s.push(p)) =~= bindings_v(s).push((p.0@, expr_v(p.1))));
}

} // verus!
