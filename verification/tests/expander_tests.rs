use sgeme::core_former::{CoreError, CoreFormer};
use sgeme::datum::Datum;
use sgeme::eval::{EvalError, Evaluator};
use sgeme::expander::{Expander, ExpanderError, FormKind};
use sgeme::mir::MIRContext;
use sgeme::primsyn::{Def, Expr, Import, Program, Stmt};
use sgeme::read::Reader;
use sgeme::token::Token;

fn expand_str(src: &str) -> Result<Program, ExpanderError> {
    let tokens = Token::really_lex(src.to_string()).unwrap();
    let mut reader = Reader::init(false, true, tokens);
    let datum = reader.read().unwrap();
    Expander::init().expand_prgrm(&datum)
}

fn expand_one(src: &str) -> Result<Expr, ExpanderError> {
    expand_str(src).map(|mut p| {
        assert_eq!(p.imports, vec![]);
        assert_eq!(p.stmts.len(), 1);
        match p.stmts.remove(0) {
            Stmt::Expr(e) => e,
            other => panic!("expected an expression statement, got {:?}", other),
        }
    })
}

#[test]
fn expand_atoms() {
    assert_eq!(expand_one("42"), Ok(Expr::Fixnum(42)));
    assert_eq!(expand_one("#f"), Ok(Expr::Bool(false)));
    assert_eq!(expand_one("x"), Ok(Expr::Symbol("x".to_string())));
}

#[test]
fn expand_quote_form_keeps_datum_raw() {
    assert_eq!(
        expand_one("(quote (a b))"),
        Ok(Expr::Quote(Datum::List(vec![
            Datum::Symbol("a".to_string()),
            Datum::Symbol("b".to_string())
        ])))
    );
}

#[test]
fn expand_unquote_abbreviation() {
    assert_eq!(
        expand_one(",x"),
        Ok(Expr::Unquote(Datum::Symbol("x".to_string())))
    );
}

#[test]
fn expand_quasiquote_is_not_supported() {
    assert_eq!(
        expand_one("`x"),
        Err(ExpanderError::IllegalContext(FormKind::Quasiquote))
    );
}

#[test]
fn expand_if_arity() {
    assert_eq!(
        expand_one("(if 1 2)"),
        Err(ExpanderError::IllegalNumberOfArgs(FormKind::If))
    );
    assert_eq!(
        expand_one("(if 1 2 3)"),
        Ok(Expr::If(
            Box::new(Expr::Fixnum(1)),
            Box::new(Expr::Fixnum(2)),
            Box::new(Expr::Fixnum(3))
        ))
    );
    assert_eq!(
        expand_one("(if 1 2 3 4)"),
        Err(ExpanderError::IllegalNumberOfArgs(FormKind::If))
    );
}

#[test]
fn expand_cond_needs_else() {
    assert_eq!(expand_one("(cond (#t 1))"), Err(ExpanderError::CondElseExpected));
}

#[test]
fn expand_cond_with_else() {
    assert_eq!(
        expand_one("(cond (#t 1) (else 2))"),
        Ok(Expr::Cond(
            vec![(Expr::Bool(true), Expr::Fixnum(1))],
            Box::new(Expr::Fixnum(2))
        ))
    );
}

#[test]
fn expand_cond_branch_shape() {
    assert_eq!(
        expand_one("(cond (#t) (else 2))"),
        Err(ExpanderError::ListExpected(FormKind::Cond))
    );
}

#[test]
fn expand_define_in_expression_position_is_illegal() {
    assert_eq!(
        expand_one("(lambda (x) (define y 1))"),
        Err(ExpanderError::IllegalContext(FormKind::Define))
    );
}

#[test]
fn expand_empty_call_is_rejected() {
    assert_eq!(expand_str("()"), Err(ExpanderError::IllegalNonatomic));
}

#[test]
fn expand_lambda() {
    assert_eq!(
        expand_one("(lambda (x y) x)"),
        Ok(Expr::Lambda(
            vec!["x".to_string(), "y".to_string()],
            Box::new(Expr::Symbol("x".to_string()))
        ))
    );
}

#[test]
fn expand_lambda_needs_symbol_params() {
    assert_eq!(
        expand_one("(lambda (1) 2)"),
        Err(ExpanderError::IdentifierExpected(FormKind::Lambda))
    );
    assert_eq!(
        expand_one("(lambda x 2)"),
        Err(ExpanderError::ListExpected(FormKind::Lambda))
    );
    assert_eq!(
        expand_one("(lambda (x) 1 2)"),
        Err(ExpanderError::IllegalNumberOfArgs(FormKind::Lambda))
    );
}

#[test]
fn expand_define_value() {
    let p = expand_str("(define x 1)").unwrap();
    assert_eq!(
        p.stmts,
        vec![Stmt::Def(Def::DefValue("x".to_string(), Expr::Fixnum(1)))]
    );
}

#[test]
fn expand_define_function() {
    let p = expand_str("(define (f a b) a)").unwrap();
    assert_eq!(
        p.stmts,
        vec![Stmt::Def(Def::DefFunc(
            "f".to_string(),
            vec!["a".to_string(), "b".to_string()],
            Expr::Symbol("a".to_string())
        ))]
    );
}

#[test]
fn expand_define_arity() {
    assert_eq!(
        expand_str("(define x)"),
        Err(ExpanderError::IllegalNumberOfArgs(FormKind::Define))
    );
    assert_eq!(
        expand_str("(define x 1 2)"),
        Err(ExpanderError::IllegalNumberOfArgs(FormKind::Define))
    );
    assert_eq!(
        expand_str("(define () 1)"),
        Err(ExpanderError::ListExpected(FormKind::Define))
    );
    assert_eq!(
        expand_str("(define 5 1)"),
        Err(ExpanderError::IdentifierExpected(FormKind::Define))
    );
}

#[test]
fn expand_define_record() {
    let p = expand_str("(define-record point (x y))").unwrap();
    assert_eq!(
        p.stmts,
        vec![Stmt::Def(Def::DefRecord(
            "point".to_string(),
            vec!["x".to_string(), "y".to_string()]
        ))]
    );
}

#[test]
fn expand_define_record_shape() {
    assert_eq!(
        expand_str("(define-record 5 (x))"),
        Err(ExpanderError::IdentifierExpected(FormKind::DefineRecord))
    );
    assert_eq!(
        expand_str("(define-record point (x) extra)"),
        Err(ExpanderError::IllegalNumberOfArgs(FormKind::DefineRecord))
    );
    assert_eq!(
        expand_str("(define-record point x)"),
        Err(ExpanderError::ListExpected(FormKind::DefineRecord))
    );
}

#[test]
fn expand_import_and_export() {
    let p = expand_str("(import \"lib\" \"util\") (export f g)").unwrap();
    assert_eq!(
        p.imports,
        vec![
            Import::Import(vec!["lib".to_string(), "util".to_string()]),
            Import::Export(vec!["f".to_string(), "g".to_string()])
        ]
    );
    assert_eq!(p.stmts, vec![]);
}

#[test]
fn expand_import_needs_strings() {
    assert_eq!(
        expand_str("(import x)"),
        Err(ExpanderError::StringExpected(FormKind::Import))
    );
    assert_eq!(
        expand_str("(export \"f\")"),
        Err(ExpanderError::StringExpected(FormKind::Export))
    );
}

#[test]
fn expand_import_in_expression_position_is_illegal() {
    assert_eq!(
        expand_one("(if (import \"x\") 1 2)"),
        Err(ExpanderError::IllegalContext(FormKind::Import))
    );
}

#[test]
fn expand_case() {
    assert_eq!(
        expand_one("(case x ((1 2) 9) (else 0))"),
        Ok(Expr::Case(
            Box::new(Expr::Symbol("x".to_string())),
            vec![(
                vec![Datum::Fixnum(1), Datum::Fixnum(2)],
                vec![Expr::Fixnum(9)]
            )],
            vec![Expr::Fixnum(0)]
        ))
    );
}

#[test]
fn expand_case_needs_else() {
    assert_eq!(
        expand_one("(case x ((1) 2))"),
        Err(ExpanderError::CondElseExpected)
    );
}

#[test]
fn expand_and_or_begin() {
    assert_eq!(
        expand_one("(and 1 2)"),
        Ok(Expr::And(vec![Expr::Fixnum(1), Expr::Fixnum(2)]))
    );
    assert_eq!(expand_one("(or)"), Ok(Expr::Or(vec![])));
    assert_eq!(
        expand_one("(begin 1)"),
        Ok(Expr::Begin(vec![Expr::Fixnum(1)]))
    );
}

#[test]
fn expand_when_unless() {
    assert_eq!(
        expand_one("(when #t 1 2)"),
        Ok(Expr::When(
            Box::new(Expr::Bool(true)),
            vec![Expr::Fixnum(1), Expr::Fixnum(2)]
        ))
    );
    assert_eq!(
        expand_one("(unless)"),
        Err(ExpanderError::IllegalNumberOfArgs(FormKind::Unless))
    );
}

#[test]
fn expand_let_and_letrec_desugar_alike() {
    let expected = Ok(Expr::Let(
        vec![("x".to_string(), Expr::Fixnum(1))],
        Box::new(Expr::Symbol("x".to_string())),
    ));
    assert_eq!(expand_one("(let ((x 1)) x)"), expected);
    assert_eq!(expand_one("(letrec ((x 1)) x)"), expected);
}

#[test]
fn expand_let_binding_shape() {
    assert_eq!(
        expand_one("(let (x) x)"),
        Err(ExpanderError::ListExpected(FormKind::Let))
    );
    assert_eq!(
        expand_one("(let ((x 1 2)) x)"),
        Err(ExpanderError::IllegalNumberOfArgs(FormKind::Let))
    );
    assert_eq!(
        expand_one("(let ((1 2)) 3)"),
        Err(ExpanderError::ListExpected(FormKind::Let))
    );
}

#[test]
fn expand_procedure_call() {
    assert_eq!(
        expand_one("(f 1 2)"),
        Ok(Expr::ProcCall(
            Box::new(Expr::Symbol("f".to_string())),
            vec![Expr::Fixnum(1), Expr::Fixnum(2)]
        ))
    );
    assert_eq!(
        expand_one("(+ 1 2)"),
        Ok(Expr::ProcCall(
            Box::new(Expr::Symbol("+".to_string())),
            vec![Expr::Fixnum(1), Expr::Fixnum(2)]
        ))
    );
}

#[test]
fn expand_statement_order_is_kept() {
    let p = expand_str("(define x 1) x (define y 2)").unwrap();
    assert_eq!(
        p.stmts,
        vec![
            Stmt::Def(Def::DefValue("x".to_string(), Expr::Fixnum(1))),
            Stmt::Expr(Expr::Symbol("x".to_string())),
            Stmt::Def(Def::DefValue("y".to_string(), Expr::Fixnum(2)))
        ]
    );
}

#[test]
fn find_syntax_rules_finds_none() {
    let mut d = Datum::List(vec![]);
    let rules = Expander::init().find_syntax_rules(&mut d).unwrap();
    assert_eq!(rules.len(), 0);
    assert_eq!(d, Datum::List(vec![]));
}

#[test]
fn program_init_is_empty() {
    let p = Program::init();
    assert_eq!(p.imports, vec![]);
    assert_eq!(p.stmts, vec![]);
}

#[test]
fn core_former_reports_not_supported() {
    let former = CoreFormer::init();
    assert_eq!(former.simplify(&[]), Err(CoreError::NotSupported));
}

#[test]
fn compile_program_reports_simplify_failure() {
    let mut evaluator = Evaluator::init(MIRContext::init());
    let p = expand_str("(define x 1)").unwrap();
    match evaluator.compile_program(&p) {
        Err(EvalError::Simplify(ce)) => assert_eq!(ce, CoreError::NotSupported),
        other => panic!("expected a simplify error, got {:?}", other),
    }
}
