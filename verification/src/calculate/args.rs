//! Operand extraction: operands are evaluated from the last declared to
//! the first, and a missing mandatory operand is an argument error.

use vstd::prelude::*;
use crate::number::Num;
use crate::types::{
    Value, ValueV, Error, Formula, FormulaV, Expression, Bindings, vview, fview, fview_seq,
    lemma_fview_seq_index, lemma_fview_seq_len,
};
use crate::calculate::{sp_formula_v, sp_env, calculate_formula_ref};

verus! {

/// The single operand (the last, as the evaluator consumes them).
pub open spec fn sp_unary_arg(values: Seq<FormulaV>, env: Option<Bindings>, fuel: nat) -> ValueV
    decreases fuel,
{
    if fuel == 0 {
        ValueV::Error(Error::Reference)
    } else if values.len() == 0 {
        ValueV::Error(Error::Argument)
    } else {
        sp_formula_v(values.last(), env, (fuel - 1) as nat)
    }
}

/// Evaluates the single operand of a unary function.
pub fn get_unary_function_arg(exp: &Expression, refs: Option<&Bindings>, fuel: u64) -> (r: Value)
    requires
        fuel <= crate::calculate::MAX_FUEL,
    ensures
        vview(r) == sp_unary_arg(fview_seq(exp.values@), sp_env(refs), fuel as nat),
    decreases fuel, 0int,
{
    if fuel == 0 {
        return Value::Error(Error::Reference);
    }
    let n = exp.values.len();
    proof {
        lemma_fview_seq_len(exp.values@);
    }
    if n == 0 {
        Value::Error(Error::Argument)
    } else {
        proof {
            lemma_fview_seq_index(exp.values@, n as int - 1);
        }
        calculate_formula_ref(&exp.values[n - 1], refs, fuel - 1)
    }
}

/// The two operands, the right-hand one evaluated first.
pub open spec fn sp_binary_args(values: Seq<FormulaV>, env: Option<Bindings>, fuel: nat) -> (
    ValueV,
    ValueV,
)
    decreases fuel,
{
    if fuel == 0 {
        (ValueV::Error(Error::Reference), ValueV::Error(Error::Reference))
    } else {
        let rhs = if values.len() >= 1 {
            sp_formula_v(values.last(), env, (fuel - 1) as nat)
        } else {
            ValueV::Error(Error::Argument)
        };
        let lhs = if values.len() >= 2 {
            sp_formula_v(values[values.len() - 2], env, (fuel - 1) as nat)
        } else {
            ValueV::Error(Error::Argument)
        };
        (lhs, rhs)
    }
}

/// Evaluates the two operands of a binary operator, the right-hand one
/// first.
pub fn get_binary_function_args(exp: &Expression, refs: Option<&Bindings>, fuel: u64) -> (r: (
    Value,
    Value,
))
    requires
        fuel <= crate::calculate::MAX_FUEL,
    ensures
        (vview(r.0), vview(r.1)) == sp_binary_args(fview_seq(exp.values@), sp_env(refs), fuel as nat),
    decreases fuel, 0int,
{
    if fuel == 0 {
        return (Value::Error(Error::Reference), Value::Error(Error::Reference));
    }
    let n = exp.values.len();
    proof {
        lemma_fview_seq_len(exp.values@);
    }
    let rhs = if n >= 1 {
        proof {
            lemma_fview_seq_index(exp.values@, n as int - 1);
        }
        calculate_formula_ref(&exp.values[n - 1], refs, fuel - 1)
    } else {
        Value::Error(Error::Argument)
    };
    let lhs = if n >= 2 {
        proof {
            lemma_fview_seq_index(exp.values@, n as int - 2);
        }
        calculate_formula_ref(&exp.values[n - 2], refs, fuel - 1)
    } else {
        Value::Error(Error::Argument)
    };
    (lhs, rhs)
}

/// The three operands of a conditional, padded with blanks; the last is
/// evaluated first.
pub open spec fn sp_ternary_args(values: Seq<FormulaV>, env: Option<Bindings>, fuel: nat) -> (
    ValueV,
    ValueV,
    ValueV,
)
    decreases fuel,
{
    if fuel == 0 {
        (
            ValueV::Error(Error::Reference),
            ValueV::Error(Error::Reference),
            ValueV::Error(Error::Reference),
        )
    } else {
        let c = if values.len() >= 1 {
            sp_formula_v(values[0], env, (fuel - 1) as nat)
        } else {
            ValueV::Blank
        };
        let t = if values.len() >= 2 {
            sp_formula_v(values[1], env, (fuel - 1) as nat)
        } else {
            ValueV::Blank
        };
        let f = if values.len() >= 3 {
            sp_formula_v(values[2], env, (fuel - 1) as nat)
        } else {
            ValueV::Blank
        };
        (c, t, f)
    }
}

/// Evaluates the three operands of a conditional, the last first; absent
/// operands default to blanks.
pub fn get_ternary_function_args(exp: &Expression, refs: Option<&Bindings>, fuel: u64) -> (r: (
    Value,
    Value,
    Value,
))
    requires
        fuel <= crate::calculate::MAX_FUEL,
    ensures
        (vview(r.0), vview(r.1), vview(r.2)) == sp_ternary_args(
            fview_seq(exp.values@),
            sp_env(refs),
            fuel as nat,
        ),
    decreases fuel, 0int,
{
    if fuel == 0 {
        return (
            Value::Error(Error::Reference),
            Value::Error(Error::Reference),
            Value::Error(Error::Reference),
        );
    }
    let n = exp.values.len();
    proof {
        lemma_fview_seq_len(exp.values@);
    }
    let f = if n >= 3 {
        proof {
            lemma_fview_seq_index(exp.values@, 2);
        }
        calculate_formula_ref(&exp.values[2], refs, fuel - 1)
    } else {
        Value::Blank
    };
    let t = if n >= 2 {
        proof {
            lemma_fview_seq_index(exp.values@, 1);
        }
        calculate_formula_ref(&exp.values[1], refs, fuel - 1)
    } else {
        Value::Blank
    };
    let c = if n >= 1 {
        proof {
            lemma_fview_seq_index(exp.values@, 0);
        }
        calculate_formula_ref(&exp.values[0], refs, fuel - 1)
    } else {
        Value::Blank
    };
    (c, t, f)
}

/// The text and count operands of the text-trimming functions: with one
/// operand the count defaults to one.
pub open spec fn sp_number_and_string(values: Seq<FormulaV>, env: Option<Bindings>, fuel: nat) -> (
    ValueV,
    ValueV,
)
    decreases fuel,
{
    if fuel == 0 {
        (ValueV::Error(Error::Reference), ValueV::Error(Error::Reference))
    } else if values.len() == 1 {
        (
            sp_formula_v(values[0], env, (fuel - 1) as nat),
            ValueV::Number(Num::Finite { neg: false, mant: 1, exp: 0 }),
        )
    } else if values.len() == 0 {
        (ValueV::Error(Error::Argument), ValueV::Error(Error::Argument))
    } else {
        (
            sp_formula_v(values[values.len() - 2], env, (fuel - 1) as nat),
            sp_formula_v(values.last(), env, (fuel - 1) as nat),
        )
    }
}

/// Evaluates the text and count operands of the text-trimming functions.
pub fn get_number_and_string_values(exp: &Expression, refs: Option<&Bindings>, fuel: u64) -> (r: (
    Value,
    Value,
))
    requires
        fuel <= crate::calculate::MAX_FUEL,
    ensures
        (vview(r.0), vview(r.1)) == sp_number_and_string(
            fview_seq(exp.values@),
            sp_env(refs),
            fuel as nat,
        ),
    decreases fuel, 0int,
{
    if fuel == 0 {
        return (Value::Error(Error::Reference), Value::Error(Error::Reference));
    }
    let n = exp.values.len();
    proof {
        lemma_fview_seq_len(exp.values@);
    }
    if n == 1 {
        proof {
            lemma_fview_seq_index(exp.values@, 0);
        }
        let s = calculate_formula_ref(&exp.values[0], refs, fuel - 1);
        (s, Value::Number(Num::Finite { neg: false, mant: 1, exp: 0 }))
    } else if n == 0 {
        (Value::Error(Error::Argument), Value::Error(Error::Argument))
    } else {
        proof {
            lemma_fview_seq_index(exp.values@, n as int - 1);
            lemma_fview_seq_index(exp.values@, n as int - 2);
        }
        let number = calculate_formula_ref(&exp.values[n - 1], refs, fuel - 1);
        let string = calculate_formula_ref(&exp.values[n - 2], refs, fuel - 1);
        (string, number)
    }
}

} // verus!
