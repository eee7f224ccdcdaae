//! Three-valued boolean logic of AND and OR: each operand is a boolean,
//! null, or some other value; a null result stands for "unknown".

use vstd::prelude::*;
use crate::parser::ast::BinaryOp;
use crate::text::owned;
use super::ExecutionError;

verus! {

/// What an operand of AND or OR evaluated to, as far as the logic reads it.
#[derive(Debug, Clone, Copy, PartialEq, Eq)]
pub enum Truth {
    /// A boolean value.
    Bool(bool),
    /// Null.
    Null,
    /// A value of any other type.
    Other,
}

/// Why a boolean operation fails.
#[derive(Debug, Clone, Copy, PartialEq, Eq)]
pub enum LogicError {
    /// The operator is not AND or OR.
    UnexpectedOp,
    /// An operand is neither a boolean nor null.
    NonBoolean,
}

/// The result of `left op right`: `Ok(Some(b))` for a boolean, `Ok(None)`
/// for null. Two booleans combine as usual; with one null operand, AND is
/// false when the other is false and OR true when the other is true, and
/// the result is null otherwise; two nulls give null.
pub open spec fn bool_op(op: BinaryOp, left: Truth, right: Truth) -> Result<Option<bool>, LogicError> {
    match (left, right) {
        (Truth::Bool(a), Truth::Bool(b)) => match op {
            BinaryOp::And => Ok(Some(a && b)),
            BinaryOp::Or => Ok(Some(a || b)),
            _ => Err(LogicError::UnexpectedOp),
        },
        (Truth::Null, Truth::Bool(b)) | (Truth::Bool(b), Truth::Null) => match op {
            BinaryOp::And => if !b {
                Ok(Some(false))
            } else {
                Ok(None)
            },
            BinaryOp::Or => if b {
                Ok(Some(true))
            } else {
                Ok(None)
            },
            _ => Err(LogicError::UnexpectedOp),
        },
        (Truth::Null, Truth::Null) => Ok(None),
        _ => Err(LogicError::NonBoolean),
    }
}

/// The message of a boolean operation failure.
pub open spec fn logic_message(e: LogicError) -> Seq<char> {
    match e {
        LogicError::UnexpectedOp => "unexpected boolean op"@,
        LogicError::NonBoolean => "non-boolean operand in boolean operation"@,
    }
}

/// Evaluates AND or OR over two operands in three-valued logic; `None`
/// stands for null.
pub fn eval_boolean_op(op: BinaryOp, left: &Truth, right: &Truth) -> (r: Result<
    Option<bool>,
    ExecutionError,
>)
    ensures
        match bool_op(op, *left, *right) {
            Ok(v) => r == Ok::<Option<bool>, ExecutionError>(v),
            Err(k) => r matches Err(e) && e.message@ == logic_message(k),
        },
{
    match (left, right) {
        (Truth::Bool(a), Truth::Bool(b)) => match op {
            BinaryOp::And => Ok(Some(*a && *b)),
            BinaryOp::Or => Ok(Some(*a || *b)),
            _ => Err(ExecutionError { message: owned("unexpected boolean op") }),
        },
        (Truth::Null, Truth::Bool(b)) | (Truth::Bool(b), Truth::Null) => match op {
            BinaryOp::And => {
                if !*b {
                    Ok(Some(false))
                } else {
                    Ok(None)
                }
            },
            BinaryOp::Or => {
                if *b {
                    Ok(Some(true))
                } else {
                    Ok(None)
                }
            },
            _ => Err(ExecutionError { message: owned("unexpected boolean op") }),
        },
        (Truth::Null, Truth::Null) => Ok(None),
        _ => Err(ExecutionError { message: owned("non-boolean operand in boolean operation") }),
    }
}

/// AND and OR do not depend on the order of their operands.
pub proof fn lemma_bool_op_commutes(op: BinaryOp, left: Truth, right: Truth)
    ensures
        bool_op(op, left, right) == bool_op(op, right, left),
{
}

/// On booleans and null, AND and OR follow De Morgan's laws: negating both
/// operands swaps the two operators and negates the result (null stays null).
pub proof fn lemma_bool_op_de_morgan(a: Option<bool>, b: Option<bool>)
    ensures
        ({
            let t = |x: Option<bool>|
                match x {
                    Some(v) => Truth::Bool(v),
                    None => Truth::Null,
                };
            let not = |x: Option<bool>|
                match x {
                    Some(v) => Some(!v),
                    None => None,
                };
            &&& bool_op(BinaryOp::And, t(a), t(b)) is Ok
            &&& bool_op(BinaryOp::Or, t(not(a)), t(not(b))) == Ok::<Option<bool>, LogicError>(
                not(bool_op(BinaryOp::And, t(a), t(b))->Ok_0),
            )
        }),
{
}

/// The value of a boolean-or-null operand in three-valued logic.
pub open spec fn truth_of(x: Option<bool>) -> Truth {
    match x {
        Some(v) => Truth::Bool(v),
        None => Truth::Null,
    }
}

/// AND and OR on booleans and null: false is absorbing for AND and true is
/// absorbing for OR, whatever the other operand; true is neutral for AND and
/// false for OR, giving back the other operand (null stays null).
pub proof fn lemma_bool_op_units(x: Option<bool>)
    ensures
        bool_op(BinaryOp::And, Truth::Bool(false), truth_of(x)) == Ok::<Option<bool>, LogicError>(
            Some(false),
        ),
        bool_op(BinaryOp::Or, Truth::Bool(true), truth_of(x)) == Ok::<Option<bool>, LogicError>(
            Some(true),
        ),
        bool_op(BinaryOp::And, Truth::Bool(true), truth_of(x)) == Ok::<Option<bool>, LogicError>(x),
        bool_op(BinaryOp::Or, Truth::Bool(false), truth_of(x)) == Ok::<Option<bool>, LogicError>(x),
{
}

} // verus!
