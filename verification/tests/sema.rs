use miden_vm::constants::{Constant, ConstantExpr, ConstantOp, Ident, SourceSpan};
use miden_vm::sema::{AnalysisContext, SemanticAnalysisError, SourceFile};

const P: u64 = 18446744069414584321;

fn span(start: u32) -> SourceSpan {
    SourceSpan { start, end: start + 1 }
}

fn ident(name: &str, at: u32) -> Ident {
    Ident { name: name.to_string(), span: span(at) }
}

fn lit(v: u64) -> Box<ConstantExpr> {
    Box::new(ConstantExpr::Int { span: span(0), value: v })
}

fn var(name: &str, at: u32) -> Box<ConstantExpr> {
    Box::new(ConstantExpr::Var(ident(name, at)))
}

fn binop(op: ConstantOp, lhs: Box<ConstantExpr>, rhs: Box<ConstantExpr>) -> ConstantExpr {
    ConstantExpr::BinaryOp { span: span(50), op, lhs, rhs }
}

fn context() -> AnalysisContext {
    AnalysisContext::new(SourceFile { uri: "test.masm".to_string(), content: String::new() })
}

fn define(ctx: &mut AnalysisContext, name: &str, at: u32, value: ConstantExpr) {
    assert!(ctx.define_constant(Constant::new(span(at), ident(name, at), value)).is_ok());
}

fn int_value(ctx: &AnalysisContext, name: &str) -> u64 {
    match ctx.get_constant(&ident(name, 0)) {
        Ok(ConstantExpr::Int { value, .. }) => *value,
        _ => panic!("expected an integer constant"),
    }
}

#[test]
fn simplify_evaluates_constants_through_references() {
    let mut ctx = context();
    define(&mut ctx, "B", 10, binop(ConstantOp::Mul, var("A", 11), lit(3)));
    define(&mut ctx, "A", 20, binop(ConstantOp::Add, lit(1), lit(2)));
    define(&mut ctx, "C", 30, binop(ConstantOp::Sub, var("A", 31), var("B", 32)));
    ctx.simplify_constants();
    assert_eq!(int_value(&ctx, "A"), 3);
    assert_eq!(int_value(&ctx, "B"), 9);
    assert_eq!(int_value(&ctx, "C"), P - 6);
    assert!(!ctx.has_errors());
    assert!(ctx.into_result().is_ok());
}

#[test]
fn division_is_field_division() {
    let mut ctx = context();
    define(&mut ctx, "HALF", 10, binop(ConstantOp::Div, lit(1), lit(2)));
    ctx.simplify_constants();
    assert_eq!(int_value(&ctx, "HALF"), (P + 1) / 2);
}

#[test]
fn leaves_are_kept() {
    let mut ctx = context();
    define(&mut ctx, "MSG", 10, ConstantExpr::String(ident("oops", 11)));
    define(&mut ctx, "W", 20, ConstantExpr::Word { span: span(21), value: [1, 2, 3, 4] });
    ctx.simplify_constants();
    assert_eq!(ctx.get_error(&ident("MSG", 0)).unwrap(), "oops");
    match ctx.get_constant(&ident("W", 0)) {
        Ok(ConstantExpr::Word { value, .. }) => assert_eq!(*value, [1, 2, 3, 4]),
        _ => panic!("expected a word"),
    }
}

#[test]
fn a_second_definition_is_a_conflict() {
    let mut ctx = context();
    define(&mut ctx, "A", 10, *lit(1));
    match ctx.define_constant(Constant::new(span(20), ident("A", 20), *lit(2))) {
        Err(e) => {
            assert_eq!(e.errors, vec![SemanticAnalysisError::SymbolConflict { span: span(20), prev_span: span(10) }]);
            assert_eq!(e.source_file.uri, "test.masm");
        },
        Ok(()) => panic!("expected the conflict"),
    }
    assert_eq!(int_value(&ctx, "A"), 1);
    assert!(ctx.has_errors());
    match ctx.has_failed() {
        Err(e) => {
            assert_eq!(e.errors, vec![SemanticAnalysisError::SymbolConflict { span: span(20), prev_span: span(10) }]);
            assert_eq!(e.source_file.uri, "test.masm");
        },
        Ok(()) => panic!("expected the conflict"),
    }
    assert!(!ctx.has_errors());
}

#[test]
fn undefined_references_are_reported() {
    let mut ctx = context();
    define(&mut ctx, "A", 10, binop(ConstantOp::Add, var("NOPE", 12), lit(1)));
    ctx.simplify_constants();
    match ctx.into_result() {
        Err(e) => assert_eq!(e.errors, vec![SemanticAnalysisError::SymbolUndefined { span: span(12) }]),
        Ok(()) => panic!("expected an error"),
    }
}

#[test]
fn cycles_are_reported() {
    let mut ctx = context();
    define(&mut ctx, "A", 10, binop(ConstantOp::Add, var("B", 11), lit(1)));
    define(&mut ctx, "B", 20, binop(ConstantOp::Add, var("A", 21), lit(1)));
    ctx.simplify_constants();
    match ctx.into_result() {
        Err(e) => assert_eq!(
            e.errors,
            vec![
                SemanticAnalysisError::ConstEvalCycle { start: span(10), detected: span(21) },
                SemanticAnalysisError::ConstEvalCycle { start: span(20), detected: span(11) },
            ]
        ),
        Ok(()) => panic!("expected cycles"),
    }
}

#[test]
fn a_self_reference_is_a_cycle() {
    let mut ctx = context();
    define(&mut ctx, "A", 10, *var("A", 11));
    ctx.simplify_constants();
    match ctx.into_result() {
        Err(e) => assert_eq!(e.errors, vec![SemanticAnalysisError::ConstEvalCycle { start: span(10), detected: span(11) }]),
        Ok(()) => panic!("expected a cycle"),
    }
}

#[test]
fn lookups_of_missing_names_fail() {
    let ctx = context();
    assert!(matches!(
        ctx.get_constant(&ident("X", 7)),
        Err(SemanticAnalysisError::SymbolUndefined { .. })
    ));
    assert_eq!(ctx.get_error(&ident("X", 7)), Err(SemanticAnalysisError::SymbolUndefined { span: span(7) }));
}

#[test]
fn warnings_as_errors_and_procedures() {
    let mut ctx = context();
    assert!(!ctx.warnings_as_errors());
    ctx.set_warnings_as_errors(true);
    assert!(ctx.warnings_as_errors());
    ctx.register_procedure_name("foo".to_string());
    ctx.register_procedure_name("foo".to_string());
    assert!(!ctx.has_errors());
    ctx.error(SemanticAnalysisError::SymbolUndefined { span: span(3) });
    assert!(ctx.has_errors());
}

#[test]
fn division_by_a_zero_constant_is_an_error() {
    let mut ctx = context();
    define(&mut ctx, "Z", 10, *lit(0));
    define(&mut ctx, "Q", 20, binop(ConstantOp::Div, lit(5), var("Z", 21)));
    define(&mut ctx, "R", 30, binop(ConstantOp::IntDiv, lit(5), var("Z", 31)));
    ctx.simplify_constants();
    assert!(ctx.has_errors());
    match ctx.into_result() {
        Err(e) => assert_eq!(
            e.errors,
            vec![
                SemanticAnalysisError::DivisionByZero { span: span(50) },
                SemanticAnalysisError::DivisionByZero { span: span(50) },
            ]
        ),
        Ok(()) => panic!("expected the division by zero"),
    }
}
