//! Evaluation: the dispatcher over the formula tree and the display layer.

pub mod args;
pub mod display;
pub mod iterator;
pub mod operation;
pub mod reference;

use vstd::prelude::*;
use crate::types::{Bindings, Formula, FormulaV, Value, ValueV, Error, fview, vview};

verus! {

/// The largest accepted recursion budget (a machine limit: internal
/// counters fit a 64-bit integer at every budget up to it).
pub const MAX_FUEL: u64 = 0x0800_0000_0000_0000;

/// The default recursion budget of `calculate_formula`: enough for any
/// formula of ordinary size together with long reference chains, while
/// keeping the evaluation stack shallow enough for a default thread.
/// `calculate_formula_with_limit` accepts a larger budget where a host
/// provides the stack for it.
pub const DEFAULT_LIMIT: u64 = 1_000;

/// One evaluation step over the tree, spending one unit of budget on each
/// recursive step; an exhausted budget yields the reference error, as an
/// over-deep reference chain would.
pub open spec fn sp_formula_v(f: FormulaV, env: Option<Bindings>, fuel: nat) -> ValueV
    decreases fuel,
{
    if fuel == 0 {
        ValueV::Error(Error::Reference)
    } else {
        match f {
            FormulaV::Operation(op, values) => operation::sp_operation(
                op,
                values,
                env,
                (fuel - 1) as nat,
            ),
            FormulaV::Value(v) => v,
            FormulaV::Reference(name) => reference::sp_reference(name, env, (fuel - 1) as nat),
            FormulaV::List(vec) => iterator::sp_iterator(vec, env, (fuel - 1) as nat),
        }
    }
}

/// Evaluates a formula (borrowed) against an optional binding table, with
/// an explicit recursion budget.
pub fn calculate_formula_ref(f: &Formula, refs: Option<&Bindings>, fuel: u64) -> (r: Value)
    requires
        fuel <= MAX_FUEL,
    ensures
        vview(r) == sp_formula_v(fview(*f), sp_env(refs), fuel as nat),
    decreases fuel, 0int,
{
    if fuel == 0 {
        Value::Error(Error::Reference)
    } else {
        match f {
            Formula::Operation(exp) => operation::calculate_operation_ref(exp, refs, fuel - 1),
            Formula::Value(v) => crate::types::copy_value(v),
            Formula::Reference(name) => reference::calculate_reference_str(
                name.as_str(),
                refs,
                fuel - 1,
            ),
            Formula::Iterator(vec) => iterator::calculate_iterator_ref(vec, refs, fuel - 1),
        }
    }
}

/// Evaluates a formula against an optional binding table, with an explicit
/// recursion budget.
pub fn calculate_formula_with_limit(f: Formula, refs: Option<&Bindings>, fuel: u64) -> (r: Value)
    requires
        fuel <= MAX_FUEL,
    ensures
        vview(r) == sp_formula_v(fview(f), sp_env(refs), fuel as nat),
{
    calculate_formula_ref(&f, refs, fuel)
}

/// Evaluates a formula against an optional binding table.
pub fn calculate_formula(f: Formula, refs: Option<&Bindings>) -> (r: Value)
    ensures
        vview(r) == sp_formula_v(fview(f), sp_env(refs), DEFAULT_LIMIT as nat),
{
    calculate_formula_ref(&f, refs, DEFAULT_LIMIT)
}

/// The binding table as a spec value.
pub open spec fn sp_env(refs: Option<&Bindings>) -> Option<Bindings> {
    match refs {
        Some(b) => Some(*b),
        None => None,
    }
}

/// Converts a result into its display text.
pub fn result_to_string(value: Value) -> (r: String)
    ensures
        r@ == display::sp_result_to_string(value),
{
    display::show_value(value)
}

/// Binds a host value under a name; the new binding shadows any earlier
/// one of the same name.  A bound text value is re-parsed as a formula
/// each time a reference to the name is resolved, so a text that fails to
/// parse resolves to the parse error.
pub fn bind_value(refs: &mut Bindings, name: &str, v: Value)
    ensures
        final(refs).entries@.len() == old(refs).entries@.len() + 1,
        final(refs).entries@.drop_last() == old(refs).entries@,
        final(refs).entries@.last().0@ == name@,
        final(refs).entries@.last().1 == v,
{
    let owned = crate::types::clone_str(name);
    refs.entries.push((owned, v));
    proof {
        assert(refs.entries@.drop_last() =~= old(refs).entries@);
    }
}

} // verus!
