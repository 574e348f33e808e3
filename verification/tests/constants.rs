use miden_vm::constants::{ConstantExpr, ConstantOp, HashKind, Ident, ParsingError, SourceSpan};

const SPAN: SourceSpan = SourceSpan { start: 0, end: 1 };
const P: u64 = 18446744069414584321;

fn lit(v: u64) -> Box<ConstantExpr> {
    Box::new(ConstantExpr::Int { span: SPAN, value: v })
}

fn var(name: &str) -> Box<ConstantExpr> {
    Box::new(ConstantExpr::Var(Ident { name: name.to_string(), span: SPAN }))
}

fn op(op: ConstantOp, lhs: Box<ConstantExpr>, rhs: Box<ConstantExpr>) -> ConstantExpr {
    ConstantExpr::BinaryOp { span: SPAN, op, lhs, rhs }
}

fn folded_int(e: ConstantExpr) -> u64 {
    match e.try_fold() {
        Ok(ConstantExpr::Int { value, .. }) => value,
        _ => panic!("expected an integer"),
    }
}

#[test]
fn folds_arithmetic_in_the_field() {
    assert_eq!(folded_int(op(ConstantOp::Add, lit(1), lit(2))), 3);
    assert_eq!(folded_int(op(ConstantOp::Sub, lit(1), lit(2))), P - 1);
    assert_eq!(folded_int(op(ConstantOp::Mul, lit(1 << 32), lit(1 << 32))), 4294967295);
    let nested = op(ConstantOp::Mul, Box::new(op(ConstantOp::Add, lit(2), lit(3))), lit(4));
    assert_eq!(folded_int(nested), 20);
    // division is field division: 6 / 3 = 2 and 1 / 2 is the inverse of 2
    assert_eq!(folded_int(op(ConstantOp::Div, lit(6), lit(3))), 2);
    let half = folded_int(op(ConstantOp::IntDiv, lit(1), lit(2)));
    assert_eq!(((half as u128) * 2) % (P as u128), 1);
}

#[test]
fn fold_errors() {
    assert!(matches!(
        op(ConstantOp::Div, lit(6), lit(0)).try_fold(),
        Err(ParsingError::DivisionByZero { .. })
    ));
    let s = Box::new(ConstantExpr::String(Ident { name: "x".to_string(), span: SourceSpan { start: 5, end: 6 } }));
    assert_eq!(
        op(ConstantOp::Add, lit(1), s).try_fold().err(),
        Some(ParsingError::StringInArithmeticExpression { span: SourceSpan { start: 5, end: 6 } })
    );
}

#[test]
fn fold_keeps_references() {
    // a reference on the right stops the folding of the right operand
    match op(ConstantOp::Add, lit(1), var("A")).try_fold() {
        Ok(ConstantExpr::BinaryOp { rhs, .. }) => assert!(matches!(*rhs, ConstantExpr::Var(_))),
        _ => panic!("expected an operation"),
    }
    // a reference on the left keeps the operation, with the right operand folded
    let e = op(ConstantOp::Add, var("A"), Box::new(op(ConstantOp::Mul, lit(2), lit(3))));
    match e.try_fold() {
        Ok(ConstantExpr::BinaryOp { rhs, .. }) => {
            assert!(matches!(*rhs, ConstantExpr::Int { value: 6, .. }))
        },
        _ => panic!("expected an operation"),
    }
}

#[test]
fn operator_names() {
    assert_eq!(ConstantOp::IntDiv.name(), "IntDiv");
    assert_eq!(ConstantOp::IntDiv.symbol(), "//");
    assert_eq!(HashKind::Event.keyword(), "event");
    assert!(!var("A").is_literal());
    assert!(lit(3).is_literal());
}

#[test]
fn equality_ignores_spans_and_never_matches_strings() {
    let a = ConstantExpr::BinaryOp { span: SourceSpan { start: 0, end: 9 }, op: ConstantOp::Add, lhs: lit(1), rhs: var("X") };
    let b = ConstantExpr::BinaryOp {
        span: SourceSpan { start: 5, end: 7 },
        op: ConstantOp::Add,
        lhs: Box::new(ConstantExpr::Int { span: SourceSpan { start: 3, end: 4 }, value: 1 }),
        rhs: Box::new(ConstantExpr::Var(Ident { name: "X".to_string(), span: SourceSpan { start: 8, end: 9 } })),
    };
    assert!(a == b);
    assert!(op(ConstantOp::Add, lit(1), lit(2)) != op(ConstantOp::Mul, lit(1), lit(2)));
    let s = ConstantExpr::String(Ident { name: "s".to_string(), span: SPAN });
    let t = ConstantExpr::String(Ident { name: "s".to_string(), span: SourceSpan { start: 7, end: 8 } });
    assert!(s == t);
    assert!(s == s.duplicate());
    assert!(s != ConstantExpr::String(Ident { name: "u".to_string(), span: SPAN }));
    let w = ConstantExpr::Word { span: SPAN, value: [1, 2, 3, 4] };
    assert!(w == ConstantExpr::Word { span: SourceSpan { start: 2, end: 3 }, value: [1, 2, 3, 4] });
    assert!(w != ConstantExpr::Word { span: SPAN, value: [1, 2, 3, 5] });
}

#[test]
fn spans_and_expectations() {
    let e = ConstantExpr::BinaryOp { span: SourceSpan { start: 4, end: 6 }, op: ConstantOp::Add, lhs: lit(1), rhs: lit(2) };
    assert_eq!(e.span(), SourceSpan { start: 4, end: 6 });
    assert_eq!(ConstantExpr::Int { span: SPAN, value: 7 }.expect_int(), 7);
    assert_eq!(ConstantExpr::Int { span: SPAN, value: P + 3 }.expect_felt(), 3);
    assert_eq!(ConstantExpr::String(Ident { name: "msg".to_string(), span: SPAN }).expect_string(), "msg");
}
