//! The stated laws of the evaluator, proved against its specification.

use vstd::prelude::*;
use crate::number::{Num, sp_parse_num};
use crate::types::{ValueV, FormulaV, Error, Boolean, Bindings, ArithOp, CmpOp, sp_boolean};
use crate::calculate::sp_formula_v;
use crate::calculate::operation::number::{sp_numeric_operator, sp_broadcast};
use crate::calculate::operation::boolean::sp_comparison_operator;

verus! {

/// Evaluating an embedded literal returns exactly that value, for every
/// environment and any remaining budget.
pub proof fn lemma_literal_round_trip(v: ValueV, env: Option<Bindings>, fuel: nat)
    requires
        fuel >= 1,
    ensures
        sp_formula_v(FormulaV::Value(v), env, fuel) == v,
{
}

/// An error operand wins a numeric binary operator: an error on the left
/// always propagates unchanged; an error on the right propagates whenever
/// the left side coerces numerically (a number, a blank, or text that
/// parses as a number).  A boolean left operand and unparseable text mask
/// a right-hand error instead.
pub proof fn lemma_error_operand_propagates(
    lhs: ValueV,
    rhs: ValueV,
    op: ArithOp,
    e: Error,
    fuel: nat,
)
    requires
        fuel >= 3,
    ensures
        lhs == ValueV::Error(e) ==> sp_numeric_operator(lhs, rhs, op, fuel) == lhs,
        rhs == ValueV::Error(e) && (lhs is Number || lhs is Blank) ==> sp_numeric_operator(
            lhs,
            rhs,
            op,
            fuel,
        ) == rhs,
        rhs == ValueV::Error(e) && lhs is Text && sp_parse_num(lhs->Text_0) is Some
            ==> sp_numeric_operator(lhs, rhs, op, fuel) == rhs,
{
}

/// Broadcasting combines arrays positionally from the back (the order the
/// evaluator consumes them): the result is as long as the longer operand,
/// matched positions hold the elementwise operator's results, and the
/// positions past the shorter operand hold argument errors.
pub proof fn lemma_broadcast_positions(ls: Seq<ValueV>, rs: Seq<ValueV>, op: ArithOp, fuel: nat)
    requires
        fuel >= 1,
    ensures
        sp_broadcast(ls, rs, op, fuel).len() == (if ls.len() >= rs.len() {
            ls.len()
        } else {
            rs.len()
        }),
        forall|i: int|
            0 <= i < ls.len() && i < rs.len() ==> #[trigger] sp_broadcast(ls, rs, op, fuel)[i]
                == sp_numeric_operator(
                ls[ls.len() - 1 - i],
                rs[rs.len() - 1 - i],
                op,
                (fuel - 1) as nat,
            ),
        forall|i: int|
            0 <= i < sp_broadcast(ls, rs, op, fuel).len() && (i >= ls.len() || i >= rs.len())
                ==> #[trigger] sp_broadcast(ls, rs, op, fuel)[i] == ValueV::Error(Error::Argument),
{
}

/// The blank comparison asymmetry: a blank equals a blank and empty text,
/// a blank never equals a number, and ordering against a blank is always
/// false.
pub proof fn lemma_blank_comparison(t: Seq<char>, n: Num, op: CmpOp)
    ensures
        sp_comparison_operator(ValueV::Blank, ValueV::Blank, op) == ValueV::Boolean(Boolean::True),
        sp_comparison_operator(ValueV::Blank, ValueV::Text(t), op) == ValueV::Boolean(
            sp_boolean(t.len() == 0),
        ),
        sp_comparison_operator(ValueV::Text(t), ValueV::Blank, op) == ValueV::Boolean(
            sp_boolean(t.len() == 0),
        ),
        sp_comparison_operator(ValueV::Number(n), ValueV::Blank, op) == ValueV::Boolean(
            Boolean::False,
        ),
        sp_comparison_operator(ValueV::Blank, ValueV::Number(n), op) == ValueV::Boolean(
            Boolean::False,
        ),
{
}

} // verus!
