//! Numeric binary operators and the variadic numeric reducers, with the
//! coercion rules: booleans and errors pass through a numeric operator
//! unchanged, text is parsed as a number (failing to the cast error), a
//! blank acts as the operator's identity, arrays broadcast elementwise, and
//! arrays of unequal length fill the missing positions with argument
//! errors.

use vstd::prelude::*;
use crate::number::{
    Num, sp_add, sp_sub, sp_mul, sp_div, sp_pow, sp_abs_num, sp_parse_num, add_num, sub_num,
    mul_num, div_num, pow_num, abs_num, parse_num_chars, str_chars,
};
use crate::types::{
    Value, ValueV, Error, ArithOp, Formula, FormulaV, Expression, Bindings, vview, fview,
    vview_seq, fview_seq, lemma_vview_seq_index, lemma_vview_seq_len, lemma_fview_seq_index,
    lemma_fview_seq_len,
};
use crate::calculate::{sp_formula_v, sp_env};

verus! {

/// The budget-exhaustion result: the same error an over-deep reference
/// chain reports.
pub open spec fn sp_budget() -> ValueV {
    ValueV::Error(Error::Reference)
}

pub open spec fn sp_apply_arith(op: ArithOp, a: Num, b: Num) -> Num {
    match op {
        ArithOp::Add => sp_add(a, b),
        ArithOp::Sub => sp_sub(a, b),
        ArithOp::Mul => sp_mul(a, b),
        ArithOp::Div => sp_div(a, b),
        ArithOp::Pow => sp_pow(a, b),
    }
}

pub fn apply_arith(op: ArithOp, a: Num, b: Num) -> (r: Num)
    ensures
        r == sp_apply_arith(op, a, b),
{
    match op {
        ArithOp::Add => add_num(a, b),
        ArithOp::Sub => sub_num(a, b),
        ArithOp::Mul => mul_num(a, b),
        ArithOp::Div => div_num(a, b),
        ArithOp::Pow => pow_num(a, b),
    }
}

/// The quotient; explicit zero divisors are handled by the dispatcher.
pub fn calculate_divide_operator(num1: Num, num2: Num) -> (r: Num)
    ensures
        r == sp_div(num1, num2),
{
    div_num(num1, num2)
}

/// The power: an exponent with no fractional part is raised by integer
/// powers, any other finite exponent through real exponentiation (a
/// non-finite exponent is not a number).
pub fn calculate_power_operator(num1: Num, num2: Num) -> (r: Num)
    ensures
        r == sp_pow(num1, num2),
{
    pow_num(num1, num2)
}

/// A numeric operator applied when the left operand is text: the text must
/// parse as a number, and the right operand follows the scalar coercions
/// (an array or date on the right is a value error).
pub open spec fn sp_num_rhs_text(t: Seq<char>, rhs: ValueV, op: ArithOp) -> ValueV {
    match sp_parse_num(t) {
        Some(nl) => match rhs {
            ValueV::Boolean(_) => rhs,
            ValueV::Error(_) => rhs,
            ValueV::Text(t2) => match sp_parse_num(t2) {
                Some(nr) => ValueV::Number(sp_apply_arith(op, nl, nr)),
                None => ValueV::Error(Error::Cast),
            },
            ValueV::Number(r) => ValueV::Number(sp_apply_arith(op, nl, r)),
            _ => ValueV::Error(Error::Value),
        },
        None => ValueV::Error(Error::Cast),
    }
}

fn num_rhs_text(t: &String, rhs: Value, op: ArithOp) -> (r: Value)
    ensures
        vview(r) == sp_num_rhs_text(t@, vview(rhs), op),
{
    let tc = str_chars(t.as_str());
    match parse_num_chars(&tc) {
        Some(nl) => match rhs {
            Value::Boolean(_) => rhs,
            Value::Error(_) => rhs,
            Value::Text(t2) => {
                let tc2 = str_chars(t2.as_str());
                match parse_num_chars(&tc2) {
                    Some(nr) => Value::Number(apply_arith(op, nl, nr)),
                    None => Value::Error(Error::Cast),
                }
            },
            Value::Number(rn) => Value::Number(apply_arith(op, nl, rn)),
            _ => Value::Error(Error::Value),
        },
        None => Value::Error(Error::Cast),
    }
}

/// The fold of a popped-off accumulator over the remaining array elements,
/// taken from the back (the order the evaluator consumes operands).
pub open spec fn sp_num_fold(temp: ValueV, s: Seq<ValueV>, op: ArithOp, prod: bool, fuel: nat) -> ValueV
    decreases fuel,
{
    if fuel == 0 {
        sp_budget()
    } else if s.len() == 0 {
        temp
    } else {
        let stepped = if prod {
            sp_numeric_product_operator(temp, s.last(), op, (fuel - 1) as nat)
        } else {
            sp_numeric_operator(temp, s.last(), op, (fuel - 1) as nat)
        };
        sp_num_fold(stepped, s.drop_last(), op, prod, (fuel - 1) as nat)
    }
}

/// A numeric operator with a number (or coerced blank) on the left.
pub open spec fn sp_num_rhs_number(l: Num, lhs: ValueV, rhs: ValueV, op: ArithOp, fuel: nat) -> ValueV
    decreases fuel,
{
    if fuel == 0 {
        sp_budget()
    } else {
        match rhs {
            ValueV::Boolean(_) => rhs,
            ValueV::Error(_) => rhs,
            ValueV::Text(t) => match sp_parse_num(t) {
                Some(nr) => ValueV::Number(sp_apply_arith(op, l, nr)),
                None => ValueV::Error(Error::Cast),
            },
            ValueV::Number(r) => ValueV::Number(sp_apply_arith(op, l, r)),
            ValueV::List(s) => {
                if s.len() == 0 {
                    ValueV::Error(Error::Argument)
                } else {
                    let temp = sp_num_fold(s.last(), s.drop_last(), op, false, (fuel - 1) as nat);
                    sp_numeric_operator(lhs, temp, op, (fuel - 1) as nat)
                }
            },
            ValueV::Date(_) => ValueV::Error(Error::Value),
            ValueV::Blank => ValueV::Number(sp_apply_arith(op, l, Num::Finite { neg: false, mant: 0, exp: 0 })),
        }
    }
}

/// The product variant: a blank right operand multiplies as a no-op unless
/// every operand so far was blank.
pub open spec fn sp_num_rhs_number_prod(l: Num, lhs: ValueV, rhs: ValueV, op: ArithOp, fuel: nat) -> ValueV
    decreases fuel,
{
    if fuel == 0 {
        sp_budget()
    } else {
        match rhs {
            ValueV::Boolean(_) => rhs,
            ValueV::Error(_) => rhs,
            ValueV::Text(t) => match sp_parse_num(t) {
                Some(nr) => ValueV::Number(sp_apply_arith(op, l, nr)),
                None => ValueV::Error(Error::Cast),
            },
            ValueV::Number(r) => ValueV::Number(sp_apply_arith(op, l, r)),
            ValueV::List(s) => {
                if s.len() == 0 {
                    ValueV::Error(Error::Argument)
                } else {
                    let temp = sp_num_fold(s.last(), s.drop_last(), op, true, (fuel - 1) as nat);
                    sp_numeric_product_operator(lhs, temp, op, (fuel - 1) as nat)
                }
            },
            ValueV::Date(_) => ValueV::Error(Error::Value),
            ValueV::Blank => match lhs {
                ValueV::Blank => ValueV::Blank,
                _ => ValueV::Number(l),
            },
        }
    }
}

/// Broadcasting with an array on the left: a number on the right folds the
/// array to a scalar first; an array on the right combines positionally
/// from the back, unmatched positions yielding argument errors.
pub open spec fn sp_num_rhs_iterator(ls: Seq<ValueV>, rhs: ValueV, op: ArithOp, fuel: nat) -> ValueV
    decreases fuel,
{
    if fuel == 0 {
        sp_budget()
    } else {
        match rhs {
            ValueV::Number(_) => {
                if ls.len() == 0 {
                    ValueV::Error(Error::Argument)
                } else {
                    let temp = sp_num_fold(ls.last(), ls.drop_last(), op, false, (fuel - 1) as nat);
                    sp_numeric_operator(temp, rhs, op, (fuel - 1) as nat)
                }
            },
            ValueV::List(rs) => ValueV::List(sp_broadcast(ls, rs, op, (fuel - 1) as nat)),
            _ => ValueV::Error(Error::Value),
        }
    }
}

/// Pairs array elements from the back (the order the evaluator consumes
/// them); the longer side's unmatched positions become argument errors.
pub open spec fn sp_broadcast(ls: Seq<ValueV>, rs: Seq<ValueV>, op: ArithOp, fuel: nat) -> Seq<ValueV>
    decreases fuel,
{
    if fuel == 0 {
        seq![sp_budget()]
    } else {
        let n = if ls.len() >= rs.len() {
            ls.len()
        } else {
            rs.len()
        };
        Seq::new(
            n,
            |i: int|
                if i < ls.len() && i < rs.len() {
                    sp_numeric_operator(
                        ls[ls.len() - 1 - i],
                        rs[rs.len() - 1 - i],
                        op,
                        (fuel - 1) as nat,
                    )
                } else {
                    ValueV::Error(Error::Argument)
                },
        )
    }
}

/// A binary numeric operator over two values, with the full coercion and
/// broadcasting rules.
pub open spec fn sp_numeric_operator(lhs: ValueV, rhs: ValueV, op: ArithOp, fuel: nat) -> ValueV
    decreases fuel,
{
    if fuel == 0 {
        sp_budget()
    } else {
        match lhs {
            ValueV::Boolean(_) => lhs,
            ValueV::Error(_) => lhs,
            ValueV::Text(t) => sp_num_rhs_text(t, rhs, op),
            ValueV::Number(l) => sp_num_rhs_number(l, lhs, rhs, op, (fuel - 1) as nat),
            ValueV::List(s) => sp_num_rhs_iterator(s, rhs, op, (fuel - 1) as nat),
            ValueV::Date(_) => ValueV::Error(Error::Value),
            ValueV::Blank => sp_num_rhs_number(
                Num::Finite { neg: false, mant: 0, exp: 0 },
                lhs,
                rhs,
                op,
                (fuel - 1) as nat,
            ),
        }
    }
}

/// The product-reducer variant of the numeric operator: blanks act as one
/// (or keep the whole fold blank).
pub open spec fn sp_numeric_product_operator(lhs: ValueV, rhs: ValueV, op: ArithOp, fuel: nat) -> ValueV
    decreases fuel,
{
    if fuel == 0 {
        sp_budget()
    } else {
        match lhs {
            ValueV::Boolean(_) => lhs,
            ValueV::Error(_) => lhs,
            ValueV::Text(t) => sp_num_rhs_text(t, rhs, op),
            ValueV::Number(l) => sp_num_rhs_number_prod(l, lhs, rhs, op, (fuel - 1) as nat),
            ValueV::List(s) => sp_num_rhs_iterator(s, rhs, op, (fuel - 1) as nat),
            ValueV::Date(_) => ValueV::Error(Error::Value),
            ValueV::Blank => sp_num_rhs_number_prod(
                Num::Finite { neg: false, mant: 1, exp: 0 },
                lhs,
                rhs,
                op,
                (fuel - 1) as nat,
            ),
        }
    }
}

} // verus!

verus! {

#[verifier::rlimit(80)]
fn num_fold_x(temp: Value, vec: Vec<Value>, op: ArithOp, prod: bool, fuel: u64) -> (r: Value)
    ensures
        vview(r) == sp_num_fold(vview(temp), vview_seq(vec@), op, prod, fuel as nat),
    decreases fuel, 0int,
{
    if fuel == 0 {
        Value::Error(Error::Reference)
    } else {
        let mut vec = vec;
        let ghost ov_vec = vec@;
        match vec.pop() {
            None => {
                proof {
                    assert(vview_seq(vec@).len() == 0);
                }
                temp
            },
            Some(top) => {
                proof {
                    assert(ov_vec =~= vec@.push(top));
                    crate::types::lemma_vview_push(vec@, top);
                    assert(vview_seq(vec@) =~= vview_seq(vec@.push(top)).drop_last());
                    assert(vview_seq(vec@.push(top)).last() == vview(top));
                }
                let stepped = if prod {
                    calculate_numeric_product_operator(temp, top, op, fuel - 1)
                } else {
                    calculate_numeric_operator(temp, top, op, fuel - 1)
                };
                num_fold_x(stepped, vec, op, prod, fuel - 1)
            },
        }
    }
}

fn bc_elem(ls: &Vec<Value>, rs: &Vec<Value>, i: usize, op: ArithOp, fuel: u64) -> (r: Value)
    requires
        fuel >= 1,
        i < ls@.len() || i < rs@.len(),
    ensures
        vview(r) == (if (i as int) < vview_seq(ls@).len() && (i as int) < vview_seq(rs@).len() {
            sp_numeric_operator(
                vview_seq(ls@)[vview_seq(ls@).len() - 1 - i],
                vview_seq(rs@)[vview_seq(rs@).len() - 1 - i],
                op,
                (fuel - 1) as nat,
            )
        } else {
            ValueV::Error(Error::Argument)
        }),
    decreases fuel, 0int,
{
    proof {
        lemma_vview_seq_len(ls@);
        lemma_vview_seq_len(rs@);
    }
    let ll = ls.len();
    let lr = rs.len();
    if i < ll && i < lr {
        let x = crate::types::copy_value(&ls[ll - 1 - i]);
        let y = crate::types::copy_value(&rs[lr - 1 - i]);
        proof {
            lemma_vview_seq_index(ls@, ll - 1 - i);
            lemma_vview_seq_index(rs@, lr - 1 - i);
        }
        calculate_numeric_operator(x, y, op, fuel - 1)
    } else {
        Value::Error(Error::Argument)
    }
}

#[verifier::rlimit(100)]
fn bc_elems(ls: &Vec<Value>, rs: &Vec<Value>, k: usize, n: usize, op: ArithOp, fuel: u64) -> (r:
    Vec<Value>)
    requires
        fuel >= 1,
        n == (if ls@.len() >= rs@.len() {
            ls@.len()
        } else {
            rs@.len()
        }),
        k <= n,
    ensures
        vview_seq(r@) =~= sp_broadcast(vview_seq(ls@), vview_seq(rs@), op, fuel as nat).subrange(
            n - k,
            n as int,
        ),
    decreases fuel, k as int + 1,
{
    proof {
        lemma_vview_seq_len(ls@);
        lemma_vview_seq_len(rs@);
    }
    if k == 0 {
        let out: Vec<Value> = Vec::new();
        proof {
            assert(vview_seq(out@) =~= sp_broadcast(
                vview_seq(ls@),
                vview_seq(rs@),
                op,
                fuel as nat,
            ).subrange(n as int, n as int));
        }
        out
    } else {
        let v = bc_elem(ls, rs, n - k, op, fuel);
        let rest = bc_elems(ls, rs, k - 1, n, op, fuel);
        let out = crate::types::cons_value(v, rest);
        proof {
            let full = sp_broadcast(vview_seq(ls@), vview_seq(rs@), op, fuel as nat);
            assert(full.len() == n);
            assert(full[n - k] == vview(v));
            assert(full.subrange(n - k, n as int) =~= seq![full[n - k]] + full.subrange(
                n - k + 1,
                n as int,
            ));
            assert(vview_seq(out@) =~= full.subrange(n - k, n as int));
        }
        out
    }
}

#[verifier::rlimit(100)]
fn broadcast_x(ls: Vec<Value>, rs: Vec<Value>, op: ArithOp, fuel: u64) -> (r: Vec<Value>)
    ensures
        vview_seq(r@) == sp_broadcast(vview_seq(ls@), vview_seq(rs@), op, fuel as nat),
    decreases fuel, ls@.len() + rs@.len() + 2,
{
    if fuel == 0 {
        let mut out: Vec<Value> = Vec::new();
        out.push(Value::Error(Error::Reference));
        proof {
            assert(out@.len() == 1);
            assert(out@.drop_last() =~= Seq::<Value>::empty());
            assert(vview_seq(out@.drop_last()) =~= Seq::<ValueV>::empty());
            assert(vview_seq(out@) == vview_seq(out@.drop_last()).push(vview(out@.last())));
            assert(vview_seq(out@) =~= seq![sp_budget()]);
        }
        return out;
    }
    let ll = ls.len();
    let lr = rs.len();
    let n: usize = if ll >= lr {
        ll
    } else {
        lr
    };
    proof {
        lemma_vview_seq_len(ls@);
        lemma_vview_seq_len(rs@);
    }
    let out = bc_elems(&ls, &rs, n, n, op, fuel);
    proof {
        let full = sp_broadcast(vview_seq(ls@), vview_seq(rs@), op, fuel as nat);
        assert(full.subrange(0, n as int) =~= full);
        assert(vview_seq(out@) =~= full);
    }
    out
}

#[verifier::rlimit(80)]
fn num_rhs_number_x(l: Num, lhs: Value, rhs: Value, op: ArithOp, fuel: u64) -> (r: Value)
    ensures
        vview(r) == sp_num_rhs_number(l, vview(lhs), vview(rhs), op, fuel as nat),
    decreases fuel, 0int,
{
    if fuel == 0 {
        Value::Error(Error::Reference)
    } else {
        match rhs {
            Value::Boolean(b) => Value::Boolean(b),
            Value::Error(e) => Value::Error(e),
            Value::Text(t) => {
                let tc = str_chars(t.as_str());
                match parse_num_chars(&tc) {
                    Some(nr) => Value::Number(apply_arith(op, l, nr)),
                    None => Value::Error(Error::Cast),
                }
            },
            Value::Number(rn) => Value::Number(apply_arith(op, l, rn)),
            Value::Iterator(value_vec) => {
                let mut value_vec = value_vec;
                let ghost ov_value_vec = value_vec@;
                match value_vec.pop() {
                    Some(temp) => {
                        proof {
                            assert(ov_value_vec =~= value_vec@.push(temp));
                            crate::types::lemma_vview_push(value_vec@, temp);
                            assert(vview_seq(value_vec@) =~= vview_seq(value_vec@.push(temp)).drop_last());
                            assert(vview_seq(value_vec@.push(temp)).last() == vview(temp));
                        }
                        let folded = num_fold_x(temp, value_vec, op, false, fuel - 1);
                        calculate_numeric_operator(lhs, folded, op, fuel - 1)
                    },
                    None => {
                        proof {
                            assert(vview_seq(value_vec@).len() == 0);
                        }
                        Value::Error(Error::Argument)
                    },
                }
            },
            Value::Date(_) => Value::Error(Error::Value),
            Value::Blank => Value::Number(apply_arith(op, l, Num::Finite { neg: false, mant: 0, exp: 0 })),
        }
    }
}

#[verifier::rlimit(80)]
fn num_rhs_number_prod_x(l: Num, lhs: Value, rhs: Value, op: ArithOp, fuel: u64) -> (r: Value)
    ensures
        vview(r) == sp_num_rhs_number_prod(l, vview(lhs), vview(rhs), op, fuel as nat),
    decreases fuel, 0int,
{
    if fuel == 0 {
        Value::Error(Error::Reference)
    } else {
        match rhs {
            Value::Boolean(b) => Value::Boolean(b),
            Value::Error(e) => Value::Error(e),
            Value::Text(t) => {
                let tc = str_chars(t.as_str());
                match parse_num_chars(&tc) {
                    Some(nr) => Value::Number(apply_arith(op, l, nr)),
                    None => Value::Error(Error::Cast),
                }
            },
            Value::Number(rn) => Value::Number(apply_arith(op, l, rn)),
            Value::Iterator(value_vec) => {
                let mut value_vec = value_vec;
                let ghost ov_value_vec = value_vec@;
                match value_vec.pop() {
                    Some(temp) => {
                        proof {
                            assert(ov_value_vec =~= value_vec@.push(temp));
                            crate::types::lemma_vview_push(value_vec@, temp);
                            assert(vview_seq(value_vec@) =~= vview_seq(value_vec@.push(temp)).drop_last());
                            assert(vview_seq(value_vec@.push(temp)).last() == vview(temp));
                        }
                        let folded = num_fold_x(temp, value_vec, op, true, fuel - 1);
                        calculate_numeric_product_operator(lhs, folded, op, fuel - 1)
                    },
                    None => {
                        proof {
                            assert(vview_seq(value_vec@).len() == 0);
                        }
                        Value::Error(Error::Argument)
                    },
                }
            },
            Value::Date(_) => Value::Error(Error::Value),
            Value::Blank => match lhs {
                Value::Blank => Value::Blank,
                _ => Value::Number(l),
            },
        }
    }
}

#[verifier::rlimit(80)]
fn num_rhs_iterator_x(lhs_vec: Vec<Value>, rhs: Value, op: ArithOp, fuel: u64) -> (r: Value)
    ensures
        vview(r) == sp_num_rhs_iterator(vview_seq(lhs_vec@), vview(rhs), op, fuel as nat),
    decreases fuel, 0int,
{
    if fuel == 0 {
        Value::Error(Error::Reference)
    } else {
        match rhs {
            Value::Number(_) => {
                let mut lhs_vec = lhs_vec;
                let ghost ov_lhs_vec = lhs_vec@;
                match lhs_vec.pop() {
                    Some(temp) => {
                        proof {
                            assert(ov_lhs_vec =~= lhs_vec@.push(temp));
                            crate::types::lemma_vview_push(lhs_vec@, temp);
                            assert(vview_seq(lhs_vec@) =~= vview_seq(lhs_vec@.push(temp)).drop_last());
                            assert(vview_seq(lhs_vec@.push(temp)).last() == vview(temp));
                        }
                        let folded = num_fold_x(temp, lhs_vec, op, false, fuel - 1);
                        calculate_numeric_operator(folded, rhs, op, fuel - 1)
                    },
                    None => {
                        proof {
                            assert(vview_seq(lhs_vec@).len() == 0);
                        }
                        Value::Error(Error::Argument)
                    },
                }
            },
            Value::Iterator(rhs_vec) => {
                let out = broadcast_x(lhs_vec, rhs_vec, op, fuel - 1);
                Value::Iterator(out)
            },
            _ => Value::Error(Error::Value),
        }
    }
}

/// A binary numeric operator over two values, with the full coercion and
/// broadcasting rules of the dispatcher.
#[verifier::rlimit(80)]
pub fn calculate_numeric_operator(lhs: Value, rhs: Value, op: ArithOp, fuel: u64) -> (r: Value)
    ensures
        vview(r) == sp_numeric_operator(vview(lhs), vview(rhs), op, fuel as nat),
    decreases fuel, 0int,
{
    if fuel == 0 {
        Value::Error(Error::Reference)
    } else {
        match lhs {
            Value::Boolean(b) => Value::Boolean(b),
            Value::Error(e) => Value::Error(e),
            Value::Text(t) => num_rhs_text(&t, rhs, op),
            Value::Number(l) => num_rhs_number_x(l, Value::Number(l), rhs, op, fuel - 1),
            Value::Iterator(lhs_vec) => num_rhs_iterator_x(lhs_vec, rhs, op, fuel - 1),
            Value::Date(_) => Value::Error(Error::Value),
            Value::Blank => num_rhs_number_x(
                Num::Finite { neg: false, mant: 0, exp: 0 },
                Value::Blank,
                rhs,
                op,
                fuel - 1,
            ),
        }
    }
}

#[verifier::rlimit(80)]
fn calculate_numeric_product_operator(lhs: Value, rhs: Value, op: ArithOp, fuel: u64) -> (r: Value)
    ensures
        vview(r) == sp_numeric_product_operator(vview(lhs), vview(rhs), op, fuel as nat),
    decreases fuel, 0int,
{
    if fuel == 0 {
        Value::Error(Error::Reference)
    } else {
        match lhs {
            Value::Boolean(b) => Value::Boolean(b),
            Value::Error(e) => Value::Error(e),
            Value::Text(t) => num_rhs_text(&t, rhs, op),
            Value::Number(l) => num_rhs_number_prod_x(l, Value::Number(l), rhs, op, fuel - 1),
            Value::Iterator(lhs_vec) => num_rhs_iterator_x(lhs_vec, rhs, op, fuel - 1),
            Value::Date(_) => Value::Error(Error::Value),
            Value::Blank => num_rhs_number_prod_x(
                Num::Finite { neg: false, mant: 1, exp: 0 },
                Value::Blank,
                rhs,
                op,
                fuel - 1,
            ),
        }
    }
}

/// The absolute value of a numeric operand; booleans, errors and text pass
/// through, a blank is zero, arrays and dates are value errors.
pub open spec fn sp_abs(v: ValueV) -> ValueV {
    match v {
        ValueV::Boolean(_) => v,
        ValueV::Error(_) => v,
        ValueV::Text(_) => v,
        ValueV::Number(l) => ValueV::Number(sp_abs_num(l)),
        ValueV::Blank => ValueV::Number(Num::Finite { neg: false, mant: 0, exp: 0 }),
        _ => ValueV::Error(Error::Value),
    }
}

pub fn calculate_abs(value: Value) -> (r: Value)
    ensures
        vview(r) == sp_abs(vview(value)),
{
    match value {
        Value::Boolean(_) => value,
        Value::Error(_) => value,
        Value::Text(_) => value,
        Value::Number(l) => Value::Number(abs_num(l)),
        Value::Blank => Value::Number(Num::Finite { neg: false, mant: 0, exp: 0 }),
        _ => Value::Error(Error::Value),
    }
}

} // verus!

verus! {

/// The fold of a reducer's accumulator over operand formulas, consumed from
/// the last operand to the first.
pub open spec fn sp_collective(
    acc: ValueV,
    values: Seq<FormulaV>,
    env: Option<Bindings>,
    op: ArithOp,
    prod: bool,
    fuel: nat,
) -> ValueV
    decreases fuel,
{
    if fuel == 0 {
        sp_budget()
    } else if values.len() == 0 {
        acc
    } else {
        let v = sp_formula_v(values.last(), env, (fuel - 1) as nat);
        let step = if prod {
            sp_numeric_product_operator(acc, v, op, (fuel - 1) as nat)
        } else {
            sp_numeric_operator(acc, v, op, (fuel - 1) as nat)
        };
        sp_collective(step, values.drop_last(), env, op, prod, (fuel - 1) as nat)
    }
}

pub(crate) fn collective_ref(
    acc: Value,
    values: &Vec<Formula>,
    k: usize,
    refs: Option<&Bindings>,
    op: ArithOp,
    prod: bool,
    fuel: u64,
) -> (r: Value)
    requires
        fuel <= crate::calculate::MAX_FUEL,
        k <= values@.len(),
    ensures
        vview(r) == sp_collective(
            vview(acc),
            fview_seq(values@.subrange(0, k as int)),
            sp_env(refs),
            op,
            prod,
            fuel as nat,
        ),
    decreases fuel, 0int,
{
    if fuel == 0 {
        Value::Error(Error::Reference)
    } else if k == 0 {
        proof {
            assert(values@.subrange(0, 0) =~= Seq::<Formula>::empty());
        }
        acc
    } else {
        proof {
            crate::types::lemma_fsub_step(values@, k as int);
        }
        let v = crate::calculate::calculate_formula_ref(&values[k - 1], refs, fuel - 1);
        let step = if prod {
            calculate_numeric_product_operator(acc, v, op, fuel - 1)
        } else {
            calculate_numeric_operator(acc, v, op, fuel - 1)
        };
        collective_ref(step, values, k - 1, refs, op, prod, fuel - 1)
    }
}

/// A variadic numeric reducer (such as the sum), folding operands from the
/// last to the first into the given identity value.
pub fn calculate_collective_operator(
    collective_value: Value,
    exp: &Expression,
    refs: Option<&Bindings>,
    op: ArithOp,
    fuel: u64,
) -> (r: Value)
    requires
        fuel <= crate::calculate::MAX_FUEL,
    ensures
        vview(r) == sp_collective(
            vview(collective_value),
            fview_seq(exp.values@),
            sp_env(refs),
            op,
            false,
            fuel as nat,
        ),
{
    let k = exp.values.len();
    proof {
        assert(exp.values@.subrange(0, k as int) =~= exp.values@);
    }
    collective_ref(collective_value, &exp.values, k, refs, op, false, fuel)
}

/// The product reducer's result: a fold that stayed blank (every operand
/// blank) collapses to zero.
pub open spec fn sp_collective_product(
    acc: ValueV,
    values: Seq<FormulaV>,
    env: Option<Bindings>,
    op: ArithOp,
    fuel: nat,
) -> ValueV {
    let out = sp_collective(acc, values, env, op, true, fuel);
    match out {
        ValueV::Blank => ValueV::Number(Num::Finite { neg: false, mant: 0, exp: 0 }),
        _ => out,
    }
}

/// The product reducer: blanks multiply as one unless every operand is
/// blank, in which case the result is zero.
pub fn calculate_collective_product_operator(
    collective_value: Value,
    exp: &Expression,
    refs: Option<&Bindings>,
    op: ArithOp,
    fuel: u64,
) -> (r: Value)
    requires
        fuel <= crate::calculate::MAX_FUEL,
    ensures
        vview(r) == sp_collective_product(
            vview(collective_value),
            fview_seq(exp.values@),
            sp_env(refs),
            op,
            fuel as nat,
        ),
{
    let k = exp.values.len();
    proof {
        assert(exp.values@.subrange(0, k as int) =~= exp.values@);
    }
    let out = collective_ref(collective_value, &exp.values, k, refs, op, true, fuel);
    match out {
        Value::Blank => Value::Number(Num::Finite { neg: false, mant: 0, exp: 0 }),
        _ => out,
    }
}

} // verus!

verus! {

/// Saturating steps of the element count (the saturation bound is far
/// beyond any reachable count).
pub open spec fn sp_cnt_inc(c: int) -> int {
    if c < 0x4000_0000_0000_0000 {
        c + 1
    } else {
        c
    }
}

pub open spec fn sp_cnt_dec(c: int) -> int {
    if c > -0x4000_0000_0000_0000 {
        c - 1
    } else {
        c
    }
}

/// A signed count as a number.
pub open spec fn sp_num_of_count(c: int) -> Num {
    if c >= 0 {
        crate::number::sp_norm(false, c as nat, 0)
    } else {
        crate::number::sp_norm(true, (-c) as nat, 0)
    }
}

fn cnt_inc(c: i64) -> (r: i64)
    ensures
        r as int == sp_cnt_inc(c as int),
        -0x4000_0000_0000_0000 <= c <= 0x4000_0000_0000_0000 ==> -0x4000_0000_0000_0000 <= r
            <= 0x4000_0000_0000_0000,
{
    if c < 0x4000_0000_0000_0000 {
        c + 1
    } else {
        c
    }
}

fn cnt_dec(c: i64) -> (r: i64)
    ensures
        r as int == sp_cnt_dec(c as int),
        -0x4000_0000_0000_0000 <= c <= 0x4000_0000_0000_0000 ==> -0x4000_0000_0000_0000 <= r
            <= 0x4000_0000_0000_0000,
{
    if c > -0x4000_0000_0000_0000 {
        c - 1
    } else {
        c
    }
}

/// The averaging fold inside an array operand: blanks found in the array
/// leave the element count untouched while other elements raise it.
pub open spec fn sp_avg_fold(temp: ValueV, s: Seq<ValueV>, count: int, fuel: nat) -> (ValueV, int)
    decreases fuel,
{
    if fuel == 0 {
        (sp_budget(), count)
    } else if s.len() == 0 {
        (temp, count)
    } else {
        let t2 = sp_numeric_operator(temp, s.last(), ArithOp::Add, (fuel - 1) as nat);
        let c2 = if s.last() is Blank {
            count
        } else {
            sp_cnt_inc(count)
        };
        sp_avg_fold(t2, s.drop_last(), c2, (fuel - 1) as nat)
    }
}

/// The averaging step with a number (or coerced blank) on the left: a
/// blank scalar on the right is excluded from the divisor, and an array on
/// the right counts its non-blank elements.
pub open spec fn sp_avg_rhs_number(
    count: int,
    l: Num,
    lhs: ValueV,
    rhs: ValueV,
    fuel: nat,
) -> (ValueV, int)
    decreases fuel,
{
    if fuel == 0 {
        (sp_budget(), count)
    } else {
        match rhs {
            ValueV::Boolean(_) => (rhs, count),
            ValueV::Error(_) => (rhs, count),
            ValueV::Text(t) => match sp_parse_num(t) {
                Some(nr) => (ValueV::Number(sp_apply_arith(ArithOp::Add, l, nr)), count),
                None => (ValueV::Error(Error::Cast), count),
            },
            ValueV::Number(r) => (ValueV::Number(sp_apply_arith(ArithOp::Add, l, r)), count),
            ValueV::List(s) => {
                if s.len() == 0 {
                    (ValueV::Error(Error::Argument), count)
                } else {
                    let c1 = if s.last() is Blank {
                        sp_cnt_dec(count)
                    } else {
                        count
                    };
                    let fc = sp_avg_fold(s.last(), s.drop_last(), c1, (fuel - 1) as nat);
                    (sp_numeric_operator(lhs, fc.0, ArithOp::Add, (fuel - 1) as nat), fc.1)
                }
            },
            ValueV::Date(_) => (ValueV::Error(Error::Value), count),
            ValueV::Blank => (
                ValueV::Number(
                    sp_apply_arith(ArithOp::Add, l, Num::Finite { neg: false, mant: 0, exp: 0 }),
                ),
                sp_cnt_dec(count),
            ),
        }
    }
}

/// The averaging step with an array accumulator: folding it against a
/// number counts every folded element.
pub open spec fn sp_avg_rhs_iterator(
    count: int,
    ls: Seq<ValueV>,
    rhs: ValueV,
    fuel: nat,
) -> (ValueV, int)
    decreases fuel,
{
    if fuel == 0 {
        (sp_budget(), count)
    } else {
        match rhs {
            ValueV::Number(_) => {
                if ls.len() == 0 {
                    (ValueV::Error(Error::Argument), count)
                } else {
                    let fc = sp_avg_count_fold(ls.last(), ls.drop_last(), count, (fuel - 1) as nat);
                    (sp_numeric_operator(fc.0, rhs, ArithOp::Add, (fuel - 1) as nat), fc.1)
                }
            },
            _ => (ValueV::Error(Error::Value), count),
        }
    }
}

/// The fold that counts every element, blank or not.
pub open spec fn sp_avg_count_fold(temp: ValueV, s: Seq<ValueV>, count: int, fuel: nat) -> (
    ValueV,
    int,
)
    decreases fuel,
{
    if fuel == 0 {
        (sp_budget(), count)
    } else if s.len() == 0 {
        (temp, count)
    } else {
        let t2 = sp_numeric_operator(temp, s.last(), ArithOp::Add, (fuel - 1) as nat);
        sp_avg_count_fold(t2, s.drop_last(), sp_cnt_inc(count), (fuel - 1) as nat)
    }
}

/// One averaging accumulation step.
pub open spec fn sp_avg_operator(lhs: ValueV, rhs: ValueV, count: int, fuel: nat) -> (ValueV, int)
    decreases fuel,
{
    if fuel == 0 {
        (sp_budget(), count)
    } else {
        match lhs {
            ValueV::Boolean(_) => (lhs, count),
            ValueV::Error(_) => (lhs, count),
            ValueV::Text(t) => (sp_num_rhs_text(t, rhs, ArithOp::Add), count),
            ValueV::Number(l) => sp_avg_rhs_number(count, l, lhs, rhs, (fuel - 1) as nat),
            ValueV::List(ls) => sp_avg_rhs_iterator(count, ls, rhs, (fuel - 1) as nat),
            ValueV::Date(_) => (ValueV::Error(Error::Value), count),
            ValueV::Blank => sp_avg_rhs_number(
                sp_cnt_dec(count),
                Num::Finite { neg: false, mant: 0, exp: 0 },
                lhs,
                rhs,
                (fuel - 1) as nat,
            ),
        }
    }
}

/// The averaging loop over the operand formulas, from the last to the
/// first, raising the count once per operand position.
pub open spec fn sp_avg_loop(
    acc: ValueV,
    count: int,
    values: Seq<FormulaV>,
    env: Option<Bindings>,
    fuel: nat,
) -> (ValueV, int)
    decreases fuel,
{
    if fuel == 0 {
        (sp_budget(), count)
    } else if values.len() == 0 {
        (acc, count)
    } else {
        let v = sp_formula_v(values.last(), env, (fuel - 1) as nat);
        let step = sp_avg_operator(acc, v, sp_cnt_inc(count), (fuel - 1) as nat);
        sp_avg_loop(step.0, step.1, values.drop_last(), env, (fuel - 1) as nat)
    }
}

/// The average: the accumulated sum divided by the final element count, or
/// the division-by-zero error when nothing was counted.
pub open spec fn sp_average(
    acc: ValueV,
    values: Seq<FormulaV>,
    env: Option<Bindings>,
    fuel: nat,
) -> ValueV {
    let lc = sp_avg_loop(acc, 0, values, env, fuel);
    if lc.1 == 0 {
        ValueV::Error(Error::Div0)
    } else {
        sp_numeric_operator(lc.0, ValueV::Number(sp_num_of_count(lc.1)), ArithOp::Div, fuel)
    }
}

} // verus!

verus! {

#[verifier::rlimit(80)]
fn avg_fold_x(temp: Value, vec: Vec<Value>, count: i64, fuel: u64) -> (r: (Value, i64))
    requires
        -0x4000_0000_0000_0000 <= count <= 0x4000_0000_0000_0000,
    ensures
        (vview(r.0), r.1 as int) == sp_avg_fold(vview(temp), vview_seq(vec@), count as int, fuel as nat),
        -0x4000_0000_0000_0000 <= r.1 <= 0x4000_0000_0000_0000,
    decreases fuel, 0int,
{
    if fuel == 0 {
        (Value::Error(Error::Reference), count)
    } else {
        let mut vec = vec;
        let ghost ov_vec = vec@;
        match vec.pop() {
            None => {
                proof {
                    assert(vview_seq(vec@).len() == 0);
                }
                (temp, count)
            },
            Some(top) => {
                proof {
                    assert(ov_vec =~= vec@.push(top));
                    crate::types::lemma_vview_push(vec@, top);
                    assert(vview_seq(vec@) =~= vview_seq(vec@.push(top)).drop_last());
                    assert(vview_seq(vec@.push(top)).last() == vview(top));
                }
                let isb = matches!(top, Value::Blank);
                let t2 = calculate_numeric_operator(temp, top, ArithOp::Add, fuel - 1);
                let c2 = if isb {
                    count
                } else {
                    cnt_inc(count)
                };
                avg_fold_x(t2, vec, c2, fuel - 1)
            },
        }
    }
}

#[verifier::rlimit(80)]
fn avg_count_fold_x(temp: Value, vec: Vec<Value>, count: i64, fuel: u64) -> (r: (Value, i64))
    requires
        -0x4000_0000_0000_0000 <= count <= 0x4000_0000_0000_0000,
    ensures
        (vview(r.0), r.1 as int) == sp_avg_count_fold(
            vview(temp),
            vview_seq(vec@),
            count as int,
            fuel as nat,
        ),
        -0x4000_0000_0000_0000 <= r.1 <= 0x4000_0000_0000_0000,
    decreases fuel, 0int,
{
    if fuel == 0 {
        (Value::Error(Error::Reference), count)
    } else {
        let mut vec = vec;
        let ghost ov_vec = vec@;
        match vec.pop() {
            None => {
                proof {
                    assert(vview_seq(vec@).len() == 0);
                }
                (temp, count)
            },
            Some(top) => {
                proof {
                    assert(ov_vec =~= vec@.push(top));
                    crate::types::lemma_vview_push(vec@, top);
                    assert(vview_seq(vec@) =~= vview_seq(vec@.push(top)).drop_last());
                    assert(vview_seq(vec@.push(top)).last() == vview(top));
                }
                let t2 = calculate_numeric_operator(temp, top, ArithOp::Add, fuel - 1);
                avg_count_fold_x(t2, vec, cnt_inc(count), fuel - 1)
            },
        }
    }
}

#[verifier::rlimit(80)]
fn avg_rhs_number_x(count: i64, l: Num, lhs: Value, rhs: Value, fuel: u64) -> (r: (Value, i64))
    requires
        -0x4000_0000_0000_0000 <= count <= 0x4000_0000_0000_0000,
    ensures
        (vview(r.0), r.1 as int) == sp_avg_rhs_number(
            count as int,
            l,
            vview(lhs),
            vview(rhs),
            fuel as nat,
        ),
        -0x4000_0000_0000_0000 <= r.1 <= 0x4000_0000_0000_0000,
    decreases fuel, 0int,
{
    if fuel == 0 {
        (Value::Error(Error::Reference), count)
    } else {
        match rhs {
            Value::Boolean(b) => (Value::Boolean(b), count),
            Value::Error(e) => (Value::Error(e), count),
            Value::Text(t) => {
                let tc = str_chars(t.as_str());
                match parse_num_chars(&tc) {
                    Some(nr) => (Value::Number(apply_arith(ArithOp::Add, l, nr)), count),
                    None => (Value::Error(Error::Cast), count),
                }
            },
            Value::Number(rn) => (Value::Number(apply_arith(ArithOp::Add, l, rn)), count),
            Value::Iterator(value_vec) => {
                let mut value_vec = value_vec;
                let ghost ov_value_vec = value_vec@;
                match value_vec.pop() {
                    Some(temp) => {
                        proof {
                            assert(ov_value_vec =~= value_vec@.push(temp));
                            crate::types::lemma_vview_push(value_vec@, temp);
                            assert(vview_seq(value_vec@) =~= vview_seq(value_vec@.push(temp)).drop_last());
                            assert(vview_seq(value_vec@.push(temp)).last() == vview(temp));
                        }
                        let c1 = if matches!(temp, Value::Blank) {
                            cnt_dec(count)
                        } else {
                            count
                        };
                        let fc = avg_fold_x(temp, value_vec, c1, fuel - 1);
                        let out = calculate_numeric_operator(lhs, fc.0, ArithOp::Add, fuel - 1);
                        (out, fc.1)
                    },
                    None => {
                        proof {
                            assert(vview_seq(value_vec@).len() == 0);
                        }
                        (Value::Error(Error::Argument), count)
                    },
                }
            },
            Value::Date(_) => (Value::Error(Error::Value), count),
            Value::Blank => (
                Value::Number(
                    apply_arith(ArithOp::Add, l, Num::Finite { neg: false, mant: 0, exp: 0 }),
                ),
                cnt_dec(count),
            ),
        }
    }
}

#[verifier::rlimit(80)]
fn avg_rhs_iterator_x(count: i64, lhs_vec: Vec<Value>, rhs: Value, fuel: u64) -> (r: (Value, i64))
    requires
        -0x4000_0000_0000_0000 <= count <= 0x4000_0000_0000_0000,
    ensures
        (vview(r.0), r.1 as int) == sp_avg_rhs_iterator(
            count as int,
            vview_seq(lhs_vec@),
            vview(rhs),
            fuel as nat,
        ),
        -0x4000_0000_0000_0000 <= r.1 <= 0x4000_0000_0000_0000,
    decreases fuel, 0int,
{
    if fuel == 0 {
        (Value::Error(Error::Reference), count)
    } else {
        match rhs {
            Value::Number(_) => {
                let mut lhs_vec = lhs_vec;
                let ghost ov_lhs_vec = lhs_vec@;
                match lhs_vec.pop() {
                    Some(temp) => {
                        proof {
                            assert(ov_lhs_vec =~= lhs_vec@.push(temp));
                            crate::types::lemma_vview_push(lhs_vec@, temp);
                            assert(vview_seq(lhs_vec@) =~= vview_seq(lhs_vec@.push(temp)).drop_last());
                            assert(vview_seq(lhs_vec@.push(temp)).last() == vview(temp));
                        }
                        let fc = avg_count_fold_x(temp, lhs_vec, count, fuel - 1);
                        let out = calculate_numeric_operator(fc.0, rhs, ArithOp::Add, fuel - 1);
                        (out, fc.1)
                    },
                    None => {
                        proof {
                            assert(vview_seq(lhs_vec@).len() == 0);
                        }
                        (Value::Error(Error::Argument), count)
                    },
                }
            },
            _ => (Value::Error(Error::Value), count),
        }
    }
}

#[verifier::rlimit(80)]
fn avg_operator_x(lhs: Value, rhs: Value, count: i64, fuel: u64) -> (r: (Value, i64))
    requires
        -0x4000_0000_0000_0000 <= count <= 0x4000_0000_0000_0000,
    ensures
        (vview(r.0), r.1 as int) == sp_avg_operator(
            vview(lhs),
            vview(rhs),
            count as int,
            fuel as nat,
        ),
        -0x4000_0000_0000_0000 <= r.1 <= 0x4000_0000_0000_0000,
    decreases fuel, 0int,
{
    if fuel == 0 {
        (Value::Error(Error::Reference), count)
    } else {
        match lhs {
            Value::Boolean(b) => (Value::Boolean(b), count),
            Value::Error(e) => (Value::Error(e), count),
            Value::Text(t) => (num_rhs_text(&t, rhs, ArithOp::Add), count),
            Value::Number(l) => avg_rhs_number_x(count, l, Value::Number(l), rhs, fuel - 1),
            Value::Iterator(ls) => avg_rhs_iterator_x(count, ls, rhs, fuel - 1),
            Value::Date(_) => (Value::Error(Error::Value), count),
            Value::Blank => avg_rhs_number_x(
                cnt_dec(count),
                Num::Finite { neg: false, mant: 0, exp: 0 },
                Value::Blank,
                rhs,
                fuel - 1,
            ),
        }
    }
}

#[verifier::rlimit(100)]
pub(crate) fn avg_loop_x(
    acc: Value,
    count: i64,
    values: &Vec<Formula>,
    k: usize,
    refs: Option<&Bindings>,
    fuel: u64,
) -> (r: (Value, i64))
    requires
        k <= values@.len(),
        -0x4000_0000_0000_0000 <= count <= 0x4000_0000_0000_0000,
        fuel <= crate::calculate::MAX_FUEL,
    ensures
        (vview(r.0), r.1 as int) == sp_avg_loop(
            vview(acc),
            count as int,
            fview_seq(values@.subrange(0, k as int)),
            sp_env(refs),
            fuel as nat,
        ),
        -0x4000_0000_0000_0000 <= r.1 <= 0x4000_0000_0000_0000,
    decreases fuel, 0int,
{
    if fuel == 0 {
        (Value::Error(Error::Reference), count)
    } else if k == 0 {
        proof {
            assert(values@.subrange(0, 0) =~= Seq::<Formula>::empty());
        }
        (acc, count)
    } else {
        proof {
            crate::types::lemma_fsub_step(values@, k as int);
        }
        let v = crate::calculate::calculate_formula_ref(&values[k - 1], refs, fuel - 1);
        let step = avg_operator_x(acc, v, cnt_inc(count), fuel - 1);
        avg_loop_x(step.0, step.1, values, k - 1, refs, fuel - 1)
    }
}

/// The average reducer: the accumulated sum divided by the count of
/// counted elements, with blanks excluded from the divisor; averaging
/// nothing is a division-by-zero error.
pub fn calculate_average(
    collective_value: Value,
    exp: &Expression,
    refs: Option<&Bindings>,
    fuel: u64,
) -> (r: Value)
    requires
        fuel <= 0x0800_0000_0000_0000,
    ensures
        vview(r) == sp_average(
            vview(collective_value),
            fview_seq(exp.values@),
            sp_env(refs),
            fuel as nat,
        ),
{
    let k = exp.values.len();
    proof {
        assert(exp.values@.subrange(0, k as int) =~= exp.values@);
    }
    let lc = avg_loop_x(collective_value, 0, &exp.values, k, refs, fuel);
    if lc.1 == 0 {
        Value::Error(Error::Div0)
    } else {
        let cnum = Num::from_i64(lc.1);
        proof {
            assert(cnum == sp_num_of_count(lc.1 as int));
        }
        calculate_numeric_operator(lc.0, Value::Number(cnum), ArithOp::Div, fuel)
    }
}

} // verus!
