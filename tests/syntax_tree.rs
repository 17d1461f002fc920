use std::cmp::Ordering;

use lexer::ast::{
    parse_i32, ASTUnit, AbstractSyntaxTree, AlgebraicOperation, Expression, Literal,
    LiteralError, LogicalOperation, Operation,
};
use lexer::token;
use AlgebraicOperation::{Addition, Division, Multiplication, Subtraction};
use LogicalOperation::{And, Equal, Greater, GreaterOrEqual, Less, LessOrEqual, Or};

fn all_operations() -> Vec<Operation> {
    let mut ops = Vec::new();
    for a in [
        AlgebraicOperation::Addition,
        AlgebraicOperation::Subtraction,
        AlgebraicOperation::Multiplication,
        AlgebraicOperation::Division,
    ] {
        ops.push(Operation::Algebraic(a));
    }
    for l in [
        LogicalOperation::Equal,
        LogicalOperation::GreaterOrEqual,
        LogicalOperation::LessOrEqual,
        LogicalOperation::Greater,
        LogicalOperation::Less,
        LogicalOperation::Or,
        LogicalOperation::And,
    ] {
        ops.push(Operation::Logical(l));
    }
    ops
}

#[test]
fn operations_from_text() {
    assert_eq!(Operation::from_str("+"), Some(Operation::Algebraic(AlgebraicOperation::Addition)));
    assert_eq!(Operation::from_str("-"), Some(Operation::Algebraic(AlgebraicOperation::Subtraction)));
    assert_eq!(Operation::from_str("*"), Some(Operation::Algebraic(AlgebraicOperation::Multiplication)));
    assert_eq!(Operation::from_str("/"), Some(Operation::Algebraic(AlgebraicOperation::Division)));
    assert_eq!(Operation::from_str("=="), Some(Operation::Logical(LogicalOperation::Equal)));
    assert_eq!(Operation::from_str(">="), Some(Operation::Logical(LogicalOperation::GreaterOrEqual)));
    assert_eq!(Operation::from_str("<="), Some(Operation::Logical(LogicalOperation::LessOrEqual)));
    assert_eq!(Operation::from_str(">"), Some(Operation::Logical(LogicalOperation::Greater)));
    assert_eq!(Operation::from_str("<"), Some(Operation::Logical(LogicalOperation::Less)));
    assert_eq!(Operation::from_str("||"), Some(Operation::Logical(LogicalOperation::Or)));
    assert_eq!(Operation::from_str("&&"), Some(Operation::Logical(LogicalOperation::And)));
}

#[test]
fn unknown_operator_text_gives_none() {
    assert_eq!(Operation::from_str("="), None);
    assert_eq!(Operation::from_str("!="), None);
    assert_eq!(Operation::from_str(""), None);
    assert_eq!(Operation::from_str("++"), None);
    assert_eq!(AlgebraicOperation::from_str("=="), None);
    assert_eq!(LogicalOperation::from_str("+"), None);
}

#[test]
fn every_pair_of_operations_compares() {
    let ops = all_operations();
    for a in &ops {
        assert_eq!(a.partial_cmp(a), Some(Ordering::Equal));
        for b in &ops {
            let ab = a.partial_cmp(b).expect("operations always compare");
            let ba = b.partial_cmp(a).expect("operations always compare");
            assert_eq!(ab, ba.reverse());
        }
    }
}

#[test]
fn arithmetic_binds_tighter_than_logic() {
    let mul = Operation::Algebraic(AlgebraicOperation::Multiplication);
    let add = Operation::Algebraic(AlgebraicOperation::Addition);
    let eq = Operation::Logical(LogicalOperation::Equal);
    let and = Operation::Logical(LogicalOperation::And);
    assert!(add > eq);
    assert!(mul > and);
    assert!(eq > and);
    assert!(mul > add);
}

#[test]
fn arithmetic_has_two_tiers() {
    assert_eq!(Addition.partial_cmp(&Subtraction), Some(Ordering::Equal));
    assert_eq!(Multiplication.partial_cmp(&Division), Some(Ordering::Equal));
    assert_eq!(Division.partial_cmp(&Multiplication), Some(Ordering::Equal));
    assert_eq!(Addition.partial_cmp(&Multiplication), Some(Ordering::Less));
    assert_eq!(Subtraction.partial_cmp(&Division), Some(Ordering::Less));
    assert_eq!(Division.partial_cmp(&Addition), Some(Ordering::Greater));
    assert_eq!(Multiplication.partial_cmp(&Subtraction), Some(Ordering::Greater));
}

#[test]
fn logical_ranks_descend() {
    let order = [Equal, GreaterOrEqual, LessOrEqual, Greater, Less, Or, And];
    for i in 0..order.len() {
        for j in 0..order.len() {
            assert_eq!(order[i].partial_cmp(&order[j]), Some(j.cmp(&i)));
        }
    }
}

#[test]
fn number_literals_become_i32() {
    let num = |t: &str| token::Literal::Number(t.to_string());
    assert_eq!(Literal::from_literal_token(&num("42")), Ok(Literal::Int32(42)));
    assert_eq!(Literal::from_literal_token(&num("-5")), Ok(Literal::Int32(-5)));
    assert_eq!(Literal::from_literal_token(&num("007")), Ok(Literal::Int32(7)));
    assert_eq!(Literal::from_literal_token(&num("2147483647")), Ok(Literal::Int32(i32::MAX)));
    assert_eq!(Literal::from_literal_token(&num("-2147483648")), Ok(Literal::Int32(i32::MIN)));
}

#[test]
fn number_literals_out_of_range() {
    let num = |t: &str| token::Literal::Number(t.to_string());
    assert_eq!(Literal::from_literal_token(&num("2147483648")), Err(LiteralError::OutOfRange));
    assert_eq!(Literal::from_literal_token(&num("-2147483649")), Err(LiteralError::OutOfRange));
    assert_eq!(parse_i32("99999999999999999999999"), Err(LiteralError::OutOfRange));
}

#[test]
fn malformed_number_literals() {
    assert_eq!(parse_i32(""), Err(LiteralError::Malformed));
    assert_eq!(parse_i32("-"), Err(LiteralError::Malformed));
    assert_eq!(parse_i32("4a"), Err(LiteralError::Malformed));
    assert_eq!(parse_i32("--4"), Err(LiteralError::Malformed));
    assert_eq!(parse_i32("999999999999x"), Err(LiteralError::Malformed));
}

#[test]
fn string_and_boolean_literals_carry_over() {
    assert_eq!(
        Literal::from_literal_token(&token::Literal::String("hi".to_string())),
        Ok(Literal::String("hi".to_string()))
    );
    assert_eq!(
        Literal::from_literal_token(&token::Literal::Boolean(true)),
        Ok(Literal::Bool(true))
    );
}

#[test]
fn tree_keeps_its_root() {
    let root = vec![
        ASTUnit::Expression(Expression::Identifier("x".to_string())),
        ASTUnit::Expression(Expression::BinaryExpression {
            left: vec![ASTUnit::Expression(Expression::Literal(Literal::Int32(1)))],
            right: vec![ASTUnit::Expression(Expression::Literal(Literal::Int32(2)))],
            operation: Operation::Algebraic(AlgebraicOperation::Addition),
        }),
    ];
    let tree = AbstractSyntaxTree::new(root);
    assert_eq!(tree.get_root().len(), 2);
    assert_eq!(tree.get_root()[0], ASTUnit::Expression(Expression::Identifier("x".to_string())));
}
