//! The operator dispatcher: binary numeric operators (with the date and
//! explicit-zero-divisor special cases), comparisons, concatenation, and
//! the function library.

pub mod boolean;
pub mod date;
pub mod function;
pub mod number;
pub mod string;

use vstd::prelude::*;
use crate::number::Num;
use crate::types::{
    Value, ValueV, Error, Operator, ArithOp, CmpOp, Formula, FormulaV, Expression, Bindings,
    vview, fview, fview_seq,
};
use crate::calculate::{sp_formula_v, sp_env, MAX_FUEL};
use crate::calculate::args::{sp_binary_args, get_binary_function_args};

verus! {

/// The comparison dispatch: dates compare as instants, texts compare for
/// equality, and everything else takes the scalar comparison table.
pub open spec fn sp_compare_dispatch(lhs: ValueV, rhs: ValueV, op: CmpOp) -> ValueV {
    match (lhs, rhs) {
        (ValueV::Date(a), ValueV::Date(b)) => date::sp_compare_dates(a, b, op),
        (ValueV::Text(l), ValueV::Text(r)) => match op {
            CmpOp::Eq => string::sp_compare_strings(l, r, op),
            CmpOp::Ne => string::sp_compare_strings(l, r, op),
            _ => boolean::sp_comparison_operator(lhs, rhs, op),
        },
        _ => boolean::sp_comparison_operator(lhs, rhs, op),
    }
}

fn compare_dispatch_x(lhs: Value, rhs: Value, op: CmpOp) -> (r: Value)
    ensures
        vview(r) == sp_compare_dispatch(vview(lhs), vview(rhs), op),
{
    match (lhs, rhs) {
        (Value::Date(a), Value::Date(b)) => date::compare_dates(a, b, op),
        (Value::Text(l), Value::Text(r)) => match op {
            CmpOp::Eq => string::compare_strings(l, r, op),
            CmpOp::Ne => string::compare_strings(l, r, op),
            _ => boolean::calculate_comparison_operator(Value::Text(l), Value::Text(r), op),
        },
        (l, r) => boolean::calculate_comparison_operator(l, r, op),
    }
}

/// An operation node's value.
pub open spec fn sp_operation(
    op: Operator,
    values: Seq<FormulaV>,
    env: Option<Bindings>,
    fuel: nat,
) -> ValueV
    decreases fuel,
{
    if fuel == 0 {
        ValueV::Error(Error::Reference)
    } else {
        let fl = (fuel - 1) as nat;
        match op {
            Operator::Plus => {
                let ab = sp_binary_args(values, env, fl);
                match ab.0 {
                    ValueV::Date(d) => date::sp_add_days_to_date(d, ab.1),
                    _ => number::sp_numeric_operator(ab.0, ab.1, ArithOp::Add, fl),
                }
            },
            Operator::Minus => {
                let ab = sp_binary_args(values, env, fl);
                match ab.0 {
                    ValueV::Date(d) => date::sp_subtract_days_from_date(d, ab.1),
                    _ => number::sp_numeric_operator(ab.0, ab.1, ArithOp::Sub, fl),
                }
            },
            Operator::Multiply => {
                let ab = sp_binary_args(values, env, fl);
                number::sp_numeric_operator(ab.0, ab.1, ArithOp::Mul, fl)
            },
            Operator::Divide => {
                let ab = sp_binary_args(values, env, fl);
                match ab.1 {
                    ValueV::Number(n) => if crate::number::sp_is_zero(n) {
                        ValueV::Error(Error::Div0)
                    } else {
                        number::sp_numeric_operator(ab.0, ab.1, ArithOp::Div, fl)
                    },
                    _ => number::sp_numeric_operator(ab.0, ab.1, ArithOp::Div, fl),
                }
            },
            Operator::Power => {
                let ab = sp_binary_args(values, env, fl);
                number::sp_numeric_operator(ab.0, ab.1, ArithOp::Pow, fl)
            },
            Operator::Concat => {
                let ab = sp_binary_args(values, env, fl);
                string::sp_string_operator(ab.0, ab.1)
            },
            Operator::Equal => {
                let ab = sp_binary_args(values, env, fl);
                sp_compare_dispatch(ab.0, ab.1, CmpOp::Eq)
            },
            Operator::NotEqual => {
                let ab = sp_binary_args(values, env, fl);
                sp_compare_dispatch(ab.0, ab.1, CmpOp::Ne)
            },
            Operator::Greater => {
                let ab = sp_binary_args(values, env, fl);
                sp_compare_dispatch(ab.0, ab.1, CmpOp::Gt)
            },
            Operator::Less => {
                let ab = sp_binary_args(values, env, fl);
                sp_compare_dispatch(ab.0, ab.1, CmpOp::Lt)
            },
            Operator::GreaterOrEqual => {
                let ab = sp_binary_args(values, env, fl);
                sp_compare_dispatch(ab.0, ab.1, CmpOp::Ge)
            },
            Operator::LessOrEqual => {
                let ab = sp_binary_args(values, env, fl);
                sp_compare_dispatch(ab.0, ab.1, CmpOp::Le)
            },
            Operator::Function(func) => function::sp_function(func, values, env, fl),
        }
    }
}

/// Evaluates an operation node (borrowed).
pub fn calculate_operation_ref(exp: &Expression, refs: Option<&Bindings>, fuel: u64) -> (r: Value)
    requires
        fuel <= MAX_FUEL,
    ensures
        vview(r) == sp_operation(exp.op, fview_seq(exp.values@), sp_env(refs), fuel as nat),
    decreases fuel, 0int,
{
    if fuel == 0 {
        Value::Error(Error::Reference)
    } else {
        let fl = fuel - 1;
        match exp.op {
            Operator::Plus => {
                let (lhs, rhs) = get_binary_function_args(exp, refs, fl);
                match lhs {
                    Value::Date(d) => date::add_days_to_date(d, rhs),
                    other => number::calculate_numeric_operator(other, rhs, ArithOp::Add, fl),
                }
            },
            Operator::Minus => {
                let (lhs, rhs) = get_binary_function_args(exp, refs, fl);
                match lhs {
                    Value::Date(d) => date::subtract_days_from_date(d, rhs),
                    other => number::calculate_numeric_operator(other, rhs, ArithOp::Sub, fl),
                }
            },
            Operator::Multiply => {
                let (lhs, rhs) = get_binary_function_args(exp, refs, fl);
                number::calculate_numeric_operator(lhs, rhs, ArithOp::Mul, fl)
            },
            Operator::Divide => {
                let (lhs, rhs) = get_binary_function_args(exp, refs, fl);
                match rhs {
                    Value::Number(n) => {
                        if n.is_zero() {
                            Value::Error(Error::Div0)
                        } else {
                            number::calculate_numeric_operator(
                                lhs,
                                Value::Number(n),
                                ArithOp::Div,
                                fl,
                            )
                        }
                    },
                    other => number::calculate_numeric_operator(lhs, other, ArithOp::Div, fl),
                }
            },
            Operator::Power => {
                let (lhs, rhs) = get_binary_function_args(exp, refs, fl);
                number::calculate_numeric_operator(lhs, rhs, ArithOp::Pow, fl)
            },
            Operator::Concat => {
                let (lhs, rhs) = get_binary_function_args(exp, refs, fl);
                string::calculate_string_operator(lhs, rhs)
            },
            Operator::Equal => {
                let (lhs, rhs) = get_binary_function_args(exp, refs, fl);
                compare_dispatch_x(lhs, rhs, CmpOp::Eq)
            },
            Operator::NotEqual => {
                let (lhs, rhs) = get_binary_function_args(exp, refs, fl);
                compare_dispatch_x(lhs, rhs, CmpOp::Ne)
            },
            Operator::Greater => {
                let (lhs, rhs) = get_binary_function_args(exp, refs, fl);
                compare_dispatch_x(lhs, rhs, CmpOp::Gt)
            },
            Operator::Less => {
                let (lhs, rhs) = get_binary_function_args(exp, refs, fl);
                compare_dispatch_x(lhs, rhs, CmpOp::Lt)
            },
            Operator::GreaterOrEqual => {
                let (lhs, rhs) = get_binary_function_args(exp, refs, fl);
                compare_dispatch_x(lhs, rhs, CmpOp::Ge)
            },
            Operator::LessOrEqual => {
                let (lhs, rhs) = get_binary_function_args(exp, refs, fl);
                compare_dispatch_x(lhs, rhs, CmpOp::Le)
            },
            Operator::Function(func) => function::calculate_function(func, exp, refs, fl),
        }
    }
}

/// Evaluates an operation node.
pub fn calculate_operation(exp: Expression, refs: Option<&Bindings>, fuel: u64) -> (r: Value)
    requires
        fuel <= MAX_FUEL,
    ensures
        vview(r) == sp_operation(exp.op, fview_seq(exp.values@), sp_env(refs), fuel as nat),
{
    calculate_operation_ref(&exp, refs, fuel)
}

} // verus!
