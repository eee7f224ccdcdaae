use cypherlite_query::executor::logic::{eval_boolean_op, Truth};
use cypherlite_query::parser::ast::BinaryOp;

#[test]
fn and_or_on_booleans() {
    assert_eq!(eval_boolean_op(BinaryOp::And, &Truth::Bool(true), &Truth::Bool(false)), Ok(Some(false)));
    assert_eq!(eval_boolean_op(BinaryOp::Or, &Truth::Bool(true), &Truth::Bool(false)), Ok(Some(true)));
}

#[test]
fn null_propagation() {
    assert_eq!(eval_boolean_op(BinaryOp::And, &Truth::Null, &Truth::Bool(false)), Ok(Some(false)));
    assert_eq!(eval_boolean_op(BinaryOp::And, &Truth::Bool(true), &Truth::Null), Ok(None));
    assert_eq!(eval_boolean_op(BinaryOp::Or, &Truth::Null, &Truth::Bool(true)), Ok(Some(true)));
    assert_eq!(eval_boolean_op(BinaryOp::Or, &Truth::Bool(false), &Truth::Null), Ok(None));
    assert_eq!(eval_boolean_op(BinaryOp::And, &Truth::Null, &Truth::Null), Ok(None));
}

#[test]
fn boolean_op_errors() {
    let e = eval_boolean_op(BinaryOp::And, &Truth::Other, &Truth::Bool(true)).unwrap_err();
    assert_eq!(e.message, "non-boolean operand in boolean operation");
    let e = eval_boolean_op(BinaryOp::Add, &Truth::Bool(true), &Truth::Bool(true)).unwrap_err();
    assert_eq!(e.message, "unexpected boolean op");
}
