//! Boolean coercion, the logical reducers' operator, negation and the
//! blank test.  A blank operand acts as the reducer's identity; the OR and
//! XOR folds propagate an error operand (as a cast error), while AND turns
//! error operands into value errors.

use vstd::prelude::*;
use crate::number::{
    Num, sp_is_zero, sp_neg_num, neg_num, sp_parse_num, parse_num_chars, str_chars, sp_fold_u,
    fold_u_x,
};
use crate::types::{
    Value, ValueV, Error, Boolean, BoolOp, CmpOp, Formula, FormulaV, Expression, Bindings,
    sp_boolean, vview, fview, vview_seq, fview_seq, lemma_vview_seq_index, lemma_vview_seq_len,
    lemma_fview_seq_index, lemma_fview_seq_len,
};
use crate::calculate::{sp_formula_v, sp_env};

verus! {

pub open spec fn sp_budget_b() -> ValueV {
    ValueV::Error(Error::Reference)
}

pub open spec fn sp_bool_apply(op: BoolOp, a: bool, b: bool) -> bool {
    match op {
        BoolOp::Or => a || b,
        BoolOp::And => a && b,
        BoolOp::Xor => a != b,
    }
}

/// Whether text spells TRUE or FALSE, case-insensitively.
pub open spec fn sp_word_bool(t: Seq<char>) -> Option<Boolean> {
    if t.len() == 4 && sp_fold_u(t[0]) == 116 && sp_fold_u(t[1]) == 114 && sp_fold_u(t[2]) == 117
        && sp_fold_u(t[3]) == 101 {
        Some(Boolean::True)
    } else if t.len() == 5 && sp_fold_u(t[0]) == 102 && sp_fold_u(t[1]) == 97 && sp_fold_u(t[2])
        == 108 && sp_fold_u(t[3]) == 115 && sp_fold_u(t[4]) == 101 {
        Some(Boolean::False)
    } else {
        None
    }
}

/// Recognizes TRUE/FALSE text, case-insensitively.
pub fn word_bool_x(t: &Vec<char>) -> (r: Option<Boolean>)
    ensures
        r == sp_word_bool(t@),
{
    if t.len() == 4 && fold_u_x(t[0]) == 116 && fold_u_x(t[1]) == 114 && fold_u_x(t[2]) == 117
        && fold_u_x(t[3]) == 101 {
        Some(Boolean::True)
    } else if t.len() == 5 && fold_u_x(t[0]) == 102 && fold_u_x(t[1]) == 97 && fold_u_x(t[2])
        == 108 && fold_u_x(t[3]) == 115 && fold_u_x(t[4]) == 101 {
        Some(Boolean::False)
    } else {
        None
    }
}

/// Reversed elementwise boolean coercion of an array (the order the
/// evaluator consumes elements).
pub open spec fn sp_cast_list(s: Seq<ValueV>) -> Seq<ValueV>
    decreases s,
{
    if s.len() == 0 {
        Seq::empty()
    } else {
        seq![sp_cast_value_to_boolean(s.last())] + sp_cast_list(s.drop_last())
    }
}

/// Boolean coercion: numbers are true when nonzero, text must spell
/// TRUE/FALSE, booleans, blanks and errors pass through, arrays coerce
/// elementwise (reversing), dates fail to cast.
pub open spec fn sp_cast_value_to_boolean(v: ValueV) -> ValueV
    decreases v,
{
    match v {
        ValueV::Boolean(_) => v,
        ValueV::Blank => v,
        ValueV::Error(_) => v,
        ValueV::Text(t) => match sp_word_bool(t) {
            Some(b) => ValueV::Boolean(b),
            None => ValueV::Error(Error::Cast),
        },
        ValueV::Number(l) => if !sp_is_zero(l) {
            ValueV::Boolean(Boolean::True)
        } else {
            ValueV::Boolean(Boolean::False)
        },
        ValueV::List(s) => ValueV::List(sp_cast_list(s)),
        ValueV::Date(_) => ValueV::Error(Error::Cast),
    }
}

#[verifier::rlimit(80)]
fn cast_bool_ref(v: &Value) -> (r: Value)
    ensures
        vview(r) == sp_cast_value_to_boolean(vview(*v)),
    decreases v,
{
    match v {
        Value::Boolean(b) => Value::Boolean(*b),
        Value::Blank => Value::Blank,
        Value::Error(e) => Value::Error(*e),
        Value::Text(t) => {
            let tc = str_chars(t.as_str());
            match word_bool_x(&tc) {
                Some(b) => Value::Boolean(b),
                None => Value::Error(Error::Cast),
            }
        },
        Value::Number(l) => {
            if !l.is_zero() {
                Value::Boolean(Boolean::True)
            } else {
                Value::Boolean(Boolean::False)
            }
        },
        Value::Date(_) => Value::Error(Error::Cast),
        Value::Iterator(vec) => {
            let n = vec.len();
            let mut out: Vec<Value> = Vec::new();
            let mut j: usize = 0;
            while j < n
                invariant
                    j <= n,
                    n == vec@.len(),
                    *v == Value::Iterator(*vec),
                    vview_seq(out@) =~= sp_cast_list(vview_seq(vec@.subrange(n - j, n as int))),
                decreases n - j,
            {
                proof {
                    assert(decreases_to!(*v => (*v)->Iterator_0));
                    assert((*v)->Iterator_0 == *vec);
                    assert(decreases_to!(*vec => vec@[n - 1 - j]));
                }
                let c = cast_bool_ref(&vec[n - 1 - j]);
                let ghost prevout = out@;
                let ghost cv = c;
                out.push(c);
                j = j + 1;
                proof {
                    let sub = vview_seq(vec@.subrange(n - j, n as int));
                    assert(vec@.subrange(n - j, n as int).drop_last() =~= vec@.subrange(
                        n - j,
                        n as int - 1,
                    ));
                    lemma_cast_sub_step(vec@, n as int, j as int);
                    assert(out@ =~= prevout.push(cv));
                    crate::types::lemma_vview_push(prevout, cv);
                    assert(vview_seq(out@) =~= vview_seq(prevout).push(vview(cv)));
                    assert(vview_seq(out@) =~= sp_cast_list(vview_seq(vec@.subrange(n - j, n as int))));
                }
            }
            proof {
                assert(vec@.subrange(0, n as int) =~= vec@);
                assert(vview(Value::Iterator(out)) =~= sp_cast_value_to_boolean(vview(*v)));
            }
            Value::Iterator(out)
        },
    }
}

/// Appending the next reversed cast element extends the cast list.
proof fn lemma_cast_sub_step(s: Seq<Value>, n: int, j: int)
    requires
        1 <= j <= n,
        n == s.len(),
    ensures
        sp_cast_list(vview_seq(s.subrange(n - j, n))) =~= sp_cast_list(
            vview_seq(s.subrange(n - j + 1, n)),
        ).push(sp_cast_value_to_boolean(vview(s[n - j]))),
    decreases j,
{
    let sub = s.subrange(n - j, n);
    crate::types::lemma_vview_seq_len(sub);
    if j == 1 {
        assert(sub.len() == 1);
        assert(sub.drop_last() =~= Seq::<Value>::empty());
        assert(sub.last() == sub[0]);
        assert(vview_seq(sub) =~= Seq::empty().push(vview(sub[0])));
        assert(vview_seq(sub).last() == vview(sub[0]));
        assert(vview_seq(sub).drop_last() =~= Seq::<ValueV>::empty());
        assert(s.subrange(n - j + 1, n) =~= Seq::<Value>::empty());
        assert(sub[0] == s[n - 1]);
        assert(sp_cast_list(Seq::<ValueV>::empty()) =~= Seq::<ValueV>::empty());
        assert(sp_cast_list(vview_seq(sub)) == seq![
            sp_cast_value_to_boolean(vview_seq(sub).last()),
        ] + sp_cast_list(vview_seq(sub).drop_last()));
        assert(sp_cast_list(vview_seq(sub)) =~= seq![sp_cast_value_to_boolean(vview(s[n - 1]))]);
    } else {
        lemma_cast_sub_step(s.drop_last(), n - 1, j - 1);
        let subp = s.subrange(n - j, n - 1);
        assert(s.drop_last().subrange(n - 1 - (j - 1), n - 1) =~= subp);
        assert(s.drop_last().subrange(n - 1 - (j - 1) + 1, n - 1) =~= s.subrange(n - j + 1, n - 1));
        assert(s.drop_last()[n - 1 - (j - 1)] == s[n - j]);
        // unfold both cast lists at their last element, s[n-1]
        assert(sub.last() == s[n - 1]);
        assert(sub.drop_last() =~= subp);
        assert(vview_seq(sub).last() == vview(s[n - 1]));
        assert(vview_seq(sub).drop_last() =~= vview_seq(subp));
        assert(sp_cast_list(vview_seq(sub)) == seq![
            sp_cast_value_to_boolean(vview_seq(sub).last()),
        ] + sp_cast_list(vview_seq(sub).drop_last()));
        let sub2 = s.subrange(n - j + 1, n);
        assert(sub2.last() == s[n - 1]);
        assert(sub2.drop_last() =~= s.subrange(n - j + 1, n - 1));
        assert(vview_seq(sub2).last() == vview(s[n - 1]));
        assert(vview_seq(sub2).drop_last() =~= vview_seq(s.subrange(n - j + 1, n - 1)));
        assert(sp_cast_list(vview_seq(sub2)) == seq![
            sp_cast_value_to_boolean(vview_seq(sub2).last()),
        ] + sp_cast_list(vview_seq(sub2).drop_last()));
    }
}

/// Boolean coercion of a value.
pub fn cast_value_to_boolean(value: Value) -> (r: Value)
    ensures
        vview(r) == sp_cast_value_to_boolean(vview(value)),
{
    cast_bool_ref(&value)
}

} // verus!

verus! {

/// The boolean fold of an accumulator over remaining array elements, from
/// the back.
pub open spec fn sp_bool_vfold(temp: ValueV, s: Seq<ValueV>, op: BoolOp, ae: bool, fuel: nat) -> ValueV
    decreases fuel,
{
    if fuel == 0 {
        sp_budget_b()
    } else if s.len() == 0 {
        temp
    } else {
        let stepped = sp_boolean_operator(temp, s.last(), op, ae, (fuel - 1) as nat);
        sp_bool_vfold(stepped, s.drop_last(), op, ae, (fuel - 1) as nat)
    }
}

/// The right-hand cases when the left side coerced to a boolean.
pub open spec fn sp_bool_rhs_boolean(l: Boolean, rh: ValueV, op: BoolOp, ae: bool, fuel: nat) -> ValueV
    decreases fuel,
{
    if fuel == 0 {
        sp_budget_b()
    } else {
        match rh {
            ValueV::Boolean(r) => ValueV::Boolean(
                sp_boolean(sp_bool_apply(op, l is True, r is True)),
            ),
            ValueV::List(s) => {
                if s.len() == 0 {
                    ValueV::Error(Error::Argument)
                } else {
                    let temp = sp_bool_vfold(s.last(), s.drop_last(), op, ae, (fuel - 1) as nat);
                    match sp_cast_value_to_boolean(temp) {
                        ValueV::Boolean(r) => ValueV::Boolean(
                            sp_boolean(sp_bool_apply(op, l is True, r is True)),
                        ),
                        _ => ValueV::Error(Error::Value),
                    }
                }
            },
            ValueV::Blank => ValueV::Boolean(l),
            _ => ValueV::Error(Error::Value),
        }
    }
}

/// The right-hand cases when the left side is an error and the reducer
/// lets errors flow: a boolean right side wins, another error casts.
pub open spec fn sp_bool_rhs_error(rh: ValueV) -> ValueV {
    match rh {
        ValueV::Boolean(_) => rh,
        ValueV::Error(_) => ValueV::Error(Error::Cast),
        _ => ValueV::Error(Error::Value),
    }
}

/// The right-hand cases when the left side coerced to an array.
pub open spec fn sp_bool_rhs_iterator(rh: ValueV, ls: Seq<ValueV>, op: BoolOp, ae: bool, fuel: nat) -> ValueV
    decreases fuel,
{
    if fuel == 0 {
        sp_budget_b()
    } else {
        match rh {
            ValueV::Boolean(r) => {
                if ls.len() == 0 {
                    ValueV::Error(Error::Argument)
                } else {
                    let temp = sp_bool_vfold(ls.last(), ls.drop_last(), op, ae, (fuel - 1) as nat);
                    match sp_cast_value_to_boolean(temp) {
                        ValueV::Boolean(l) => ValueV::Boolean(
                            sp_boolean(sp_bool_apply(op, l is True, r is True)),
                        ),
                        _ => ValueV::Error(Error::Value),
                    }
                }
            },
            _ => ValueV::Error(Error::Value),
        }
    }
}

/// One step of a logical reducer: both sides are coerced to booleans; a
/// blank left side acts as the reducer's identity (false for OR and XOR,
/// true for AND).
pub open spec fn sp_boolean_operator(lhs: ValueV, rhs: ValueV, op: BoolOp, ae: bool, fuel: nat) -> ValueV
    decreases fuel,
{
    if fuel == 0 {
        sp_budget_b()
    } else {
        let lh = sp_cast_value_to_boolean(lhs);
        match lh {
            ValueV::Boolean(l) => sp_bool_rhs_boolean(
                l,
                sp_cast_value_to_boolean(rhs),
                op,
                ae,
                (fuel - 1) as nat,
            ),
            ValueV::Error(_) => if ae {
                sp_bool_rhs_error(sp_cast_value_to_boolean(rhs))
            } else {
                ValueV::Error(Error::Value)
            },
            ValueV::List(ls) => sp_bool_rhs_iterator(
                sp_cast_value_to_boolean(rhs),
                ls,
                op,
                ae,
                (fuel - 1) as nat,
            ),
            ValueV::Blank => sp_bool_rhs_boolean(
                sp_boolean(!ae),
                sp_cast_value_to_boolean(rhs),
                op,
                ae,
                (fuel - 1) as nat,
            ),
            _ => ValueV::Error(Error::Value),
        }
    }
}

#[verifier::rlimit(80)]
fn bool_vfold_x(temp: Value, vec: Vec<Value>, op: BoolOp, ae: bool, fuel: u64) -> (r: Value)
    ensures
        vview(r) == sp_bool_vfold(vview(temp), vview_seq(vec@), op, ae, fuel as nat),
    decreases fuel, 0int,
{
    if fuel == 0 {
        Value::Error(Error::Reference)
    } else {
        let mut vec = vec;
        let ghost ov_vec = vec@;
        match vec.pop() {
            None => {
                proof {
                    assert(vview_seq(vec@).len() == 0);
                }
                temp
            },
            Some(top) => {
                proof {
                    assert(ov_vec =~= vec@.push(top));
                    crate::types::lemma_vview_push(vec@, top);
                    assert(vview_seq(vec@) =~= vview_seq(vec@.push(top)).drop_last());
                    assert(vview_seq(vec@.push(top)).last() == vview(top));
                }
                let stepped = calculate_boolean_operator(temp, top, op, ae, fuel - 1);
                bool_vfold_x(stepped, vec, op, ae, fuel - 1)
            },
        }
    }
}

#[verifier::rlimit(80)]
fn bool_rhs_boolean_x(l: Boolean, rh: Value, op: BoolOp, ae: bool, fuel: u64) -> (r: Value)
    ensures
        vview(r) == sp_bool_rhs_boolean(l, vview(rh), op, ae, fuel as nat),
    decreases fuel, 0int,
{
    if fuel == 0 {
        Value::Error(Error::Reference)
    } else {
        match rh {
            Value::Boolean(rb) => Value::Boolean(
                Boolean::from_bool(apply_bool_x(op, l.to_bool(), rb.to_bool())),
            ),
            Value::Iterator(vec) => {
                let mut vec = vec;
                let ghost ov_vec = vec@;
                match vec.pop() {
                    Some(temp) => {
                        proof {
                            assert(ov_vec =~= vec@.push(temp));
                            crate::types::lemma_vview_push(vec@, temp);
                            assert(vview_seq(vec@) =~= vview_seq(vec@.push(temp)).drop_last());
                            assert(vview_seq(vec@.push(temp)).last() == vview(temp));
                        }
                        let folded = bool_vfold_x(temp, vec, op, ae, fuel - 1);
                        let casted = cast_value_to_boolean(folded);
                        match casted {
                            Value::Boolean(rb) => Value::Boolean(
                                Boolean::from_bool(apply_bool_x(op, l.to_bool(), rb.to_bool())),
                            ),
                            _ => Value::Error(Error::Value),
                        }
                    },
                    None => {
                        proof {
                            assert(vview_seq(vec@).len() == 0);
                        }
                        Value::Error(Error::Argument)
                    },
                }
            },
            Value::Blank => Value::Boolean(l),
            _ => Value::Error(Error::Value),
        }
    }
}

fn apply_bool_x(op: BoolOp, a: bool, b: bool) -> (r: bool)
    ensures
        r == sp_bool_apply(op, a, b),
{
    match op {
        BoolOp::Or => a || b,
        BoolOp::And => a && b,
        BoolOp::Xor => a != b,
    }
}

fn bool_rhs_error_x(rh: Value) -> (r: Value)
    ensures
        vview(r) == sp_bool_rhs_error(vview(rh)),
{
    match rh {
        Value::Boolean(b) => Value::Boolean(b),
        Value::Error(_) => Value::Error(Error::Cast),
        _ => Value::Error(Error::Value),
    }
}

#[verifier::rlimit(80)]
fn bool_rhs_iterator_x(rh: Value, ls: Vec<Value>, op: BoolOp, ae: bool, fuel: u64) -> (r: Value)
    ensures
        vview(r) == sp_bool_rhs_iterator(vview(rh), vview_seq(ls@), op, ae, fuel as nat),
    decreases fuel, 0int,
{
    if fuel == 0 {
        Value::Error(Error::Reference)
    } else {
        match rh {
            Value::Boolean(rb) => {
                let mut ls = ls;
                let ghost ov_ls = ls@;
                match ls.pop() {
                    Some(temp) => {
                        proof {
                            assert(ov_ls =~= ls@.push(temp));
                            crate::types::lemma_vview_push(ls@, temp);
                            assert(vview_seq(ls@) =~= vview_seq(ls@.push(temp)).drop_last());
                            assert(vview_seq(ls@.push(temp)).last() == vview(temp));
                        }
                        let folded = bool_vfold_x(temp, ls, op, ae, fuel - 1);
                        let casted = cast_value_to_boolean(folded);
                        match casted {
                            Value::Boolean(lb) => Value::Boolean(
                                Boolean::from_bool(apply_bool_x(op, lb.to_bool(), rb.to_bool())),
                            ),
                            _ => Value::Error(Error::Value),
                        }
                    },
                    None => {
                        proof {
                            assert(vview_seq(ls@).len() == 0);
                        }
                        Value::Error(Error::Argument)
                    },
                }
            },
            _ => Value::Error(Error::Value),
        }
    }
}

/// One step of a logical reducer over two values.
#[verifier::rlimit(80)]
pub fn calculate_boolean_operator(lhs: Value, rhs: Value, op: BoolOp, allow_error: bool, fuel: u64) -> (r: Value)
    ensures
        vview(r) == sp_boolean_operator(vview(lhs), vview(rhs), op, allow_error, fuel as nat),
    decreases fuel, 0int,
{
    if fuel == 0 {
        Value::Error(Error::Reference)
    } else {
        let lh = cast_value_to_boolean(lhs);
        match lh {
            Value::Boolean(l) => bool_rhs_boolean_x(
                l,
                cast_value_to_boolean(rhs),
                op,
                allow_error,
                fuel - 1,
            ),
            Value::Error(e) => {
                if allow_error {
                    bool_rhs_error_x(cast_value_to_boolean(rhs))
                } else {
                    Value::Error(Error::Value)
                }
            },
            Value::Iterator(ls) => bool_rhs_iterator_x(
                cast_value_to_boolean(rhs),
                ls,
                op,
                allow_error,
                fuel - 1,
            ),
            Value::Blank => bool_rhs_boolean_x(
                Boolean::from_bool(!allow_error),
                cast_value_to_boolean(rhs),
                op,
                allow_error,
                fuel - 1,
            ),
            _ => Value::Error(Error::Value),
        }
    }
}

/// The fold of a logical reducer over its operand formulas, from the last
/// operand to the first.
pub open spec fn sp_bool_formula_fold(
    acc: ValueV,
    values: Seq<FormulaV>,
    env: Option<Bindings>,
    op: BoolOp,
    ae: bool,
    fuel: nat,
) -> ValueV
    decreases fuel,
{
    if fuel == 0 {
        sp_budget_b()
    } else if values.len() == 0 {
        acc
    } else {
        let v = sp_formula_v(values.last(), env, (fuel - 1) as nat);
        let step = sp_boolean_operator(acc, v, op, ae, (fuel - 1) as nat);
        sp_bool_formula_fold(step, values.drop_last(), env, op, ae, (fuel - 1) as nat)
    }
}

/// A logical reducer: the last operand is evaluated and coerced, the rest
/// fold in from right to left, and a final array result is folded to one
/// boolean.
pub open spec fn sp_boolean_reduce(
    values: Seq<FormulaV>,
    env: Option<Bindings>,
    op: BoolOp,
    ae: bool,
    fuel: nat,
) -> ValueV
    decreases fuel,
{
    if fuel == 0 {
        sp_budget_b()
    } else {
        let r0 = if values.len() == 0 {
            ValueV::Error(Error::Argument)
        } else {
            sp_formula_v(values.last(), env, (fuel - 1) as nat)
        };
        let r1 = sp_cast_value_to_boolean(r0);
        let r2 = if values.len() == 0 {
            r1
        } else {
            sp_bool_formula_fold(r1, values.drop_last(), env, op, ae, (fuel - 1) as nat)
        };
        crate::calculate::iterator::sp_convert_iterator(r2, op, ae, (fuel - 1) as nat)
    }
}

fn bool_formula_fold_x(
    acc: Value,
    values: &Vec<Formula>,
    k: usize,
    refs: Option<&Bindings>,
    op: BoolOp,
    ae: bool,
    fuel: u64,
) -> (r: Value)
    requires
        fuel <= crate::calculate::MAX_FUEL,
        k <= values@.len(),
    ensures
        vview(r) == sp_bool_formula_fold(
            vview(acc),
            fview_seq(values@.subrange(0, k as int)),
            sp_env(refs),
            op,
            ae,
            fuel as nat,
        ),
    decreases fuel, 0int,
{
    if fuel == 0 {
        Value::Error(Error::Reference)
    } else if k == 0 {
        proof {
            assert(values@.subrange(0, 0) =~= Seq::<Formula>::empty());
        }
        acc
    } else {
        proof {
            crate::types::lemma_fsub_step(values@, k as int);
        }
        let v = crate::calculate::calculate_formula_ref(&values[k - 1], refs, fuel - 1);
        let step = calculate_boolean_operator(acc, v, op, ae, fuel - 1);
        bool_formula_fold_x(step, values, k - 1, refs, op, ae, fuel - 1)
    }
}

/// A logical reducer over operand formulas (OR, AND or XOR).
pub fn calculate_boolean(
    exp: &Expression,
    refs: Option<&Bindings>,
    op: BoolOp,
    allow_error: bool,
    fuel: u64,
) -> (r: Value)
    requires
        fuel <= crate::calculate::MAX_FUEL,
    ensures
        vview(r) == sp_boolean_reduce(
            fview_seq(exp.values@),
            sp_env(refs),
            op,
            allow_error,
            fuel as nat,
        ),
    decreases fuel, 0int,
{
    if fuel == 0 {
        Value::Error(Error::Reference)
    } else {
        let n = exp.values.len();
        proof {
            lemma_fview_seq_len(exp.values@);
        }
        let r0 = if n == 0 {
            Value::Error(Error::Argument)
        } else {
            proof {
                lemma_fview_seq_index(exp.values@, n as int - 1);
            }
            crate::calculate::calculate_formula_ref(&exp.values[n - 1], refs, fuel - 1)
        };
        let r1 = cast_value_to_boolean(r0);
        let r2 = if n == 0 {
            r1
        } else {
            proof {
                assert(exp.values@.subrange(0, n as int - 1) =~= exp.values@.drop_last());
                assert(fview_seq(exp.values@).drop_last() =~= fview_seq(exp.values@.drop_last()));
            }
            bool_formula_fold_x(r1, &exp.values, n - 1, refs, op, allow_error, fuel - 1)
        };
        crate::calculate::iterator::convert_iterator_to_result(r2, op, allow_error, fuel - 1)
    }
}

/// Logical negation (NOT): booleans flip, errors pass, text must spell
/// TRUE/FALSE, a number negates its non-zero test, a blank negates to
/// true; arrays and dates are value errors.
pub open spec fn sp_negation(v: ValueV) -> ValueV {
    match v {
        ValueV::Boolean(l) => ValueV::Boolean(
            match l {
                Boolean::True => Boolean::False,
                Boolean::False => Boolean::True,
            },
        ),
        ValueV::Error(_) => v,
        ValueV::Text(t) => match sp_word_bool(t) {
            Some(Boolean::True) => ValueV::Boolean(Boolean::False),
            Some(Boolean::False) => ValueV::Boolean(Boolean::True),
            None => ValueV::Error(Error::Cast),
        },
        ValueV::Number(l) => ValueV::Boolean(sp_boolean(sp_is_zero(l))),
        ValueV::Blank => ValueV::Boolean(Boolean::True),
        _ => ValueV::Error(Error::Value),
    }
}

pub fn calculate_negation(value: Value) -> (r: Value)
    ensures
        vview(r) == sp_negation(vview(value)),
{
    match value {
        Value::Boolean(l) => Value::Boolean(
            match l {
                Boolean::True => Boolean::False,
                Boolean::False => Boolean::True,
            },
        ),
        Value::Error(_) => value,
        Value::Text(t) => {
            let tc = str_chars(t.as_str());
            match word_bool_x(&tc) {
                Some(Boolean::True) => Value::Boolean(Boolean::False),
                Some(Boolean::False) => Value::Boolean(Boolean::True),
                None => Value::Error(Error::Cast),
            }
        },
        Value::Number(l) => Value::Boolean(Boolean::from_bool(l.is_zero())),
        Value::Blank => Value::Boolean(Boolean::True),
        _ => Value::Error(Error::Value),
    }
}

/// Reversed elementwise numeric negation of an array.
pub open spec fn sp_negate_list(s: Seq<ValueV>) -> Seq<ValueV>
    decreases s,
{
    if s.len() == 0 {
        Seq::empty()
    } else {
        seq![sp_negate(s.last())] + sp_negate_list(s.drop_last())
    }
}

/// Numeric negation: numbers negate, blanks stay blank, arrays negate
/// elementwise (reversing); everything else is a value error.
pub open spec fn sp_negate(v: ValueV) -> ValueV
    decreases v,
{
    match v {
        ValueV::Number(n) => ValueV::Number(sp_neg_num(n)),
        ValueV::List(s) => ValueV::List(sp_negate_list(s)),
        ValueV::Blank => ValueV::Blank,
        _ => ValueV::Error(Error::Value),
    }
}

#[verifier::rlimit(80)]
fn negate_ref(v: &Value) -> (r: Value)
    ensures
        vview(r) == sp_negate(vview(*v)),
    decreases v,
{
    match v {
        Value::Number(n) => Value::Number(neg_num(*n)),
        Value::Blank => Value::Blank,
        Value::Iterator(vec) => {
            let n = vec.len();
            let mut out: Vec<Value> = Vec::new();
            let mut j: usize = 0;
            while j < n
                invariant
                    j <= n,
                    n == vec@.len(),
                    *v == Value::Iterator(*vec),
                    vview_seq(out@) =~= sp_negate_list(vview_seq(vec@.subrange(n - j, n as int))),
                decreases n - j,
            {
                proof {
                    assert(decreases_to!(*v => (*v)->Iterator_0));
                    assert((*v)->Iterator_0 == *vec);
                    assert(decreases_to!(*vec => vec@[n - 1 - j]));
                }
                let c = negate_ref(&vec[n - 1 - j]);
                let ghost prevout = out@;
                let ghost cv = c;
                out.push(c);
                j = j + 1;
                proof {
                    assert(vec@.subrange(n - j, n as int).drop_last() =~= vec@.subrange(
                        n - j,
                        n as int - 1,
                    ));
                    lemma_negate_sub_step(vec@, n as int, j as int);
                    assert(out@ =~= prevout.push(cv));
                    crate::types::lemma_vview_push(prevout, cv);
                    assert(vview_seq(out@) =~= vview_seq(prevout).push(vview(cv)));
                    assert(vview_seq(out@) =~= sp_negate_list(
                        vview_seq(vec@.subrange(n - j, n as int)),
                    ));
                }
            }
            proof {
                assert(vec@.subrange(0, n as int) =~= vec@);
                assert(vview(Value::Iterator(out)) =~= sp_negate(vview(*v)));
            }
            Value::Iterator(out)
        },
        _ => Value::Error(Error::Value),
    }
}

proof fn lemma_negate_sub_step(s: Seq<Value>, n: int, j: int)
    requires
        1 <= j <= n,
        n == s.len(),
    ensures
        sp_negate_list(vview_seq(s.subrange(n - j, n))) =~= sp_negate_list(
            vview_seq(s.subrange(n - j + 1, n)),
        ).push(sp_negate(vview(s[n - j]))),
    decreases j,
{
    let sub = s.subrange(n - j, n);
    crate::types::lemma_vview_seq_len(sub);
    if j == 1 {
        assert(sub.len() == 1);
        assert(sub.drop_last() =~= Seq::<Value>::empty());
        assert(sub.last() == sub[0]);
        assert(vview_seq(sub) =~= Seq::empty().push(vview(sub[0])));
        assert(vview_seq(sub).last() == vview(sub[0]));
        assert(vview_seq(sub).drop_last() =~= Seq::<ValueV>::empty());
        assert(s.subrange(n - j + 1, n) =~= Seq::<Value>::empty());
        assert(sub[0] == s[n - 1]);
        assert(sp_negate_list(Seq::<ValueV>::empty()) =~= Seq::<ValueV>::empty());
        assert(sp_negate_list(vview_seq(sub)) == seq![sp_negate(vview_seq(sub).last())]
            + sp_negate_list(vview_seq(sub).drop_last()));
        assert(sp_negate_list(vview_seq(sub)) =~= seq![sp_negate(vview(s[n - 1]))]);
    } else {
        lemma_negate_sub_step(s.drop_last(), n - 1, j - 1);
        assert(s.drop_last().subrange(n - 1 - (j - 1), n - 1) =~= s.subrange(n - j, n - 1));
        assert(s.drop_last().subrange(n - 1 - (j - 1) + 1, n - 1) =~= s.subrange(n - j + 1, n - 1));
        assert(s.drop_last()[n - 1 - (j - 1)] == s[n - j]);
        assert(sub.last() == s[n - 1]);
        assert(sub.drop_last() =~= s.subrange(n - j, n - 1));
        assert(vview_seq(sub).last() == vview(s[n - 1]));
        assert(vview_seq(sub).drop_last() =~= vview_seq(s.subrange(n - j, n - 1)));
        assert(sp_negate_list(vview_seq(sub)) == seq![sp_negate(vview_seq(sub).last())]
            + sp_negate_list(vview_seq(sub).drop_last()));
        let sub2 = s.subrange(n - j + 1, n);
        assert(sub2.last() == s[n - 1]);
        assert(sub2.drop_last() =~= s.subrange(n - j + 1, n - 1));
        assert(vview_seq(sub2).last() == vview(s[n - 1]));
        assert(vview_seq(sub2).drop_last() =~= vview_seq(s.subrange(n - j + 1, n - 1)));
        assert(sp_negate_list(vview_seq(sub2)) == seq![sp_negate(vview_seq(sub2).last())]
            + sp_negate_list(vview_seq(sub2).drop_last()));
    }
}

/// Numeric negation (the unary minus).
pub fn calculate_negate(value: Value) -> (r: Value)
    ensures
        vview(r) == sp_negate(vview(value)),
{
    negate_ref(&value)
}

/// The blank test: blanks, empty text, and the value and reference errors
/// are blank; everything else is not.
pub open spec fn sp_isblank(v: ValueV) -> ValueV {
    match v {
        ValueV::Text(s) => if s.len() == 0 {
            ValueV::Boolean(Boolean::True)
        } else {
            ValueV::Boolean(Boolean::False)
        },
        ValueV::Blank => ValueV::Boolean(Boolean::True),
        ValueV::Error(Error::Value) => ValueV::Boolean(Boolean::True),
        ValueV::Error(Error::Reference) => ValueV::Boolean(Boolean::True),
        _ => ValueV::Boolean(Boolean::False),
    }
}

pub fn calculate_isblank(value: Value) -> (r: Value)
    ensures
        vview(r) == sp_isblank(vview(value)),
{
    match value {
        Value::Text(s) => {
            if s.as_str().unicode_len() == 0 {
                Value::Boolean(Boolean::True)
            } else {
                Value::Boolean(Boolean::False)
            }
        },
        Value::Blank => Value::Boolean(Boolean::True),
        Value::Error(Error::Value) => Value::Boolean(Boolean::True),
        Value::Error(Error::Reference) => Value::Boolean(Boolean::True),
        _ => Value::Boolean(Boolean::False),
    }
}

/// The error test.
pub open spec fn sp_iserror(v: ValueV) -> ValueV {
    match v {
        ValueV::Error(_) => ValueV::Boolean(Boolean::True),
        _ => ValueV::Boolean(Boolean::False),
    }
}

pub fn calculate_iserror(value: Value) -> (r: Value)
    ensures
        vview(r) == sp_iserror(vview(value)),
{
    match value {
        Value::Error(_) => Value::Boolean(Boolean::True),
        _ => Value::Boolean(Boolean::False),
    }
}

} // verus!

verus! {

/// Comparison over scalars with the blank asymmetry: a blank equals a
/// blank and empty text, never a number; ordering against a blank is
/// always false.  Two numbers compare under the partial numeric order.
pub open spec fn sp_comparison_operator(lhs: ValueV, rhs: ValueV, op: CmpOp) -> ValueV {
    match lhs {
        ValueV::Text(l) => match rhs {
            ValueV::Text(r) => match op {
                CmpOp::Eq => ValueV::Boolean(sp_boolean(l == r)),
                CmpOp::Ne => ValueV::Boolean(sp_boolean(l != r)),
                _ => ValueV::Error(Error::Value),
            },
            ValueV::Blank => ValueV::Boolean(sp_boolean(l.len() == 0)),
            _ => ValueV::Error(Error::Value),
        },
        ValueV::Number(l) => match rhs {
            ValueV::Number(r) => ValueV::Boolean(sp_boolean(sp_num_cmp(l, r, op))),
            ValueV::Blank => ValueV::Boolean(Boolean::False),
            _ => ValueV::Error(Error::Value),
        },
        ValueV::Blank => match rhs {
            ValueV::Number(_) => ValueV::Boolean(Boolean::False),
            ValueV::Text(r) => ValueV::Boolean(sp_boolean(r.len() == 0)),
            ValueV::Blank => ValueV::Boolean(Boolean::True),
            _ => ValueV::Error(Error::Value),
        },
        _ => ValueV::Error(Error::Value),
    }
}

/// The numeric comparison table: equality through the difference test,
/// order through the partial order (false wherever a side is not a
/// number).
pub open spec fn sp_num_cmp(l: Num, r: Num, op: CmpOp) -> bool {
    match op {
        CmpOp::Eq => crate::number::sp_eq_num(l, r),
        CmpOp::Ne => crate::number::sp_neq_num(l, r),
        CmpOp::Gt => crate::number::sp_ord_num(l, r) == Some(1i8),
        CmpOp::Lt => crate::number::sp_ord_num(l, r) == Some(-1i8),
        CmpOp::Ge => crate::number::sp_ord_num(l, r) == Some(1i8) || crate::number::sp_ord_num(
            l,
            r,
        ) == Some(0i8),
        CmpOp::Le => crate::number::sp_ord_num(l, r) == Some(-1i8) || crate::number::sp_ord_num(
            l,
            r,
        ) == Some(0i8),
    }
}

fn num_cmp_x(l: Num, r: Num, op: CmpOp) -> (b: bool)
    ensures
        b == sp_num_cmp(l, r, op),
{
    match op {
        CmpOp::Eq => crate::number::eq_num(l, r),
        CmpOp::Ne => crate::number::neq_num(l, r),
        CmpOp::Gt => {
            let c = crate::number::ord_num(l, r);
            matches!(c, Some(1i8))
        },
        CmpOp::Lt => {
            let c = crate::number::ord_num(l, r);
            matches!(c, Some(-1i8))
        },
        CmpOp::Ge => {
            let c = crate::number::ord_num(l, r);
            matches!(c, Some(1i8)) || matches!(c, Some(0i8))
        },
        CmpOp::Le => {
            let c = crate::number::ord_num(l, r);
            matches!(c, Some(-1i8)) || matches!(c, Some(0i8))
        },
    }
}

/// Compares two scalar operands.
pub fn calculate_comparison_operator(lhs: Value, rhs: Value, op: CmpOp) -> (r: Value)
    ensures
        vview(r) == sp_comparison_operator(vview(lhs), vview(rhs), op),
{
    match lhs {
        Value::Text(l) => match rhs {
            Value::Text(r2) => match op {
                CmpOp::Eq => Value::Boolean(
                    Boolean::from_bool(crate::types::str_eq(l.as_str(), r2.as_str())),
                ),
                CmpOp::Ne => Value::Boolean(
                    Boolean::from_bool(!crate::types::str_eq(l.as_str(), r2.as_str())),
                ),
                _ => Value::Error(Error::Value),
            },
            Value::Blank => Value::Boolean(Boolean::from_bool(l.as_str().unicode_len() == 0)),
            _ => Value::Error(Error::Value),
        },
        Value::Number(l) => match rhs {
            Value::Number(r2) => Value::Boolean(Boolean::from_bool(num_cmp_x(l, r2, op))),
            Value::Blank => Value::Boolean(Boolean::False),
            _ => Value::Error(Error::Value),
        },
        Value::Blank => match rhs {
            Value::Number(_) => Value::Boolean(Boolean::False),
            Value::Text(r2) => Value::Boolean(Boolean::from_bool(r2.as_str().unicode_len() == 0)),
            Value::Blank => Value::Boolean(Boolean::True),
            _ => Value::Error(Error::Value),
        },
        _ => Value::Error(Error::Value),
    }
}

} // verus!

verus! {

} // verus!
