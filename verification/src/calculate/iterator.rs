//! Array formulas and the reduction of array results to a single boolean.

use vstd::prelude::*;
use crate::types::{
    Value, ValueV, Error, BoolOp, Formula, FormulaV, Bindings, vview, fview, vview_seq, fview_seq,
    lemma_fview_seq_index, lemma_fview_seq_len,
};
use crate::calculate::{sp_formula_v, sp_env};
use crate::calculate::operation::boolean::{
    sp_bool_vfold, sp_cast_value_to_boolean, calculate_boolean_operator, cast_value_to_boolean,
};

verus! {

/// The elements of an array formula, each evaluated, in reverse order (the
/// order the evaluator consumes them).
pub open spec fn sp_iter_elems(s: Seq<FormulaV>, env: Option<Bindings>, fuel: nat) -> Seq<ValueV>
    decreases fuel,
{
    if fuel == 0 {
        seq![ValueV::Error(Error::Reference)]
    } else if s.len() == 0 {
        Seq::empty()
    } else {
        seq![sp_formula_v(s.last(), env, (fuel - 1) as nat)] + sp_iter_elems(
            s.drop_last(),
            env,
            (fuel - 1) as nat,
        )
    }
}

/// An array formula's value.
pub open spec fn sp_iterator(s: Seq<FormulaV>, env: Option<Bindings>, fuel: nat) -> ValueV
    decreases fuel,
{
    if fuel == 0 {
        ValueV::Error(Error::Reference)
    } else {
        ValueV::List(sp_iter_elems(s, env, (fuel - 1) as nat))
    }
}

#[verifier::rlimit(100)]
fn iter_elems_x(vec: &Vec<Formula>, k: usize, refs: Option<&Bindings>, fuel: u64) -> (r: Vec<Value>)
    requires
        k <= vec@.len(),
        fuel <= crate::calculate::MAX_FUEL,
    ensures
        vview_seq(r@) == sp_iter_elems(
            fview_seq(vec@.subrange(0, k as int)),
            sp_env(refs),
            fuel as nat,
        ),
    decreases fuel, 0int,
{
    if fuel == 0 {
        let mut out: Vec<Value> = Vec::new();
        out.push(Value::Error(Error::Reference));
        proof {
            assert(out@.len() == 1);
            assert(out@.drop_last() =~= Seq::<Value>::empty());
            assert(vview_seq(out@.drop_last()) =~= Seq::<ValueV>::empty());
            assert(vview_seq(out@) == vview_seq(out@.drop_last()).push(vview(out@.last())));
            assert(vview_seq(out@) =~= seq![ValueV::Error(Error::Reference)]);
        }
        out
    } else if k == 0 {
        let out: Vec<Value> = Vec::new();
        proof {
            assert(vec@.subrange(0, 0) =~= Seq::<Formula>::empty());
            assert(vview_seq(out@) =~= Seq::<ValueV>::empty());
        }
        out
    } else {
        proof {
            crate::types::lemma_fsub_step(vec@, k as int);
        }
        let v = crate::calculate::calculate_formula_ref(&vec[k - 1], refs, fuel - 1);
        let rest = iter_elems_x(vec, k - 1, refs, fuel - 1);
        crate::types::cons_value(v, rest)
    }
}

/// Evaluates an array formula (borrowed).
pub fn calculate_iterator_ref(vec: &Vec<Formula>, refs: Option<&Bindings>, fuel: u64) -> (r: Value)
    requires
        fuel <= crate::calculate::MAX_FUEL,
    ensures
        vview(r) == sp_iterator(fview_seq(vec@), sp_env(refs), fuel as nat),
    decreases fuel, 0int,
{
    if fuel == 0 {
        Value::Error(Error::Reference)
    } else {
        let n = vec.len();
        proof {
            assert(vec@.subrange(0, n as int) =~= vec@);
        }
        let out = iter_elems_x(vec, n, refs, fuel - 1);
        Value::Iterator(out)
    }
}

/// Evaluates an array formula.
pub fn calculate_iterator(vec: Vec<Formula>, refs: Option<&Bindings>, fuel: u64) -> (r: Value)
    requires
        fuel <= crate::calculate::MAX_FUEL,
    ensures
        vview(r) == sp_iterator(fview_seq(vec@), sp_env(refs), fuel as nat),
{
    calculate_iterator_ref(&vec, refs, fuel)
}

/// Folds an array result of a logical reducer down to one boolean; other
/// results pass through.
pub open spec fn sp_convert_iterator(v: ValueV, op: BoolOp, ae: bool, fuel: nat) -> ValueV
    decreases fuel,
{
    if fuel == 0 {
        ValueV::Error(Error::Reference)
    } else {
        match v {
            ValueV::List(s) => {
                if s.len() == 0 {
                    ValueV::Error(Error::Argument)
                } else {
                    let temp = sp_bool_vfold(s.last(), s.drop_last(), op, ae, (fuel - 1) as nat);
                    match sp_cast_value_to_boolean(temp) {
                        ValueV::Boolean(b) => ValueV::Boolean(b),
                        _ => ValueV::Error(Error::Value),
                    }
                }
            },
            _ => v,
        }
    }
}

/// Folds an array result of a logical reducer down to one boolean.
#[verifier::rlimit(80)]
pub fn convert_iterator_to_result(result: Value, op: BoolOp, allow_error: bool, fuel: u64) -> (r: Value)
    ensures
        vview(r) == sp_convert_iterator(vview(result), op, allow_error, fuel as nat),
    decreases fuel, 0int,
{
    if fuel == 0 {
        Value::Error(Error::Reference)
    } else {
        match result {
            Value::Iterator(vec) => {
                let mut vec = vec;
                let ghost ov_vec = vec@;
                match vec.pop() {
                    Some(temp) => {
                        proof {
                            assert(ov_vec =~= vec@.push(temp));
                            crate::types::lemma_vview_push(vec@, temp);
                            assert(vview_seq(vec@) =~= vview_seq(vec@.push(temp)).drop_last());
                            assert(vview_seq(vec@.push(temp)).last() == vview(temp));
                        }
                        let mut acc = temp;
                        let folded = fold_rest(acc, vec, op, allow_error, fuel - 1);
                        let casted = cast_value_to_boolean(folded);
                        match casted {
                            Value::Boolean(b) => Value::Boolean(b),
                            _ => Value::Error(Error::Value),
                        }
                    },
                    None => {
                        proof {
                            assert(vview_seq(vec@).len() == 0);
                        }
                        Value::Error(Error::Argument)
                    },
                }
            },
            _ => result,
        }
    }
}

#[verifier::rlimit(80)]
fn fold_rest(temp: Value, vec: Vec<Value>, op: BoolOp, ae: bool, fuel: u64) -> (r: Value)
    ensures
        vview(r) == sp_bool_vfold(vview(temp), vview_seq(vec@), op, ae, fuel as nat),
    decreases fuel, 0int,
{
    if fuel == 0 {
        Value::Error(Error::Reference)
    } else {
        let mut vec = vec;
        let ghost ov_vec = vec@;
        match vec.pop() {
            None => {
                proof {
                    assert(vview_seq(vec@).len() == 0);
                }
                temp
            },
            Some(top) => {
                proof {
                    assert(ov_vec =~= vec@.push(top));
                    crate::types::lemma_vview_push(vec@, top);
                    assert(vview_seq(vec@) =~= vview_seq(vec@.push(top)).drop_last());
                    assert(vview_seq(vec@.push(top)).last() == vview(top));
                }
                let stepped = calculate_boolean_operator(temp, top, op, ae, fuel - 1);
                fold_rest(stepped, vec, op, ae, fuel - 1)
            },
        }
    }
}

} // verus!
