//! Reference resolution: a name is looked up in the binding table, which
//! holds the host's values.  Bound text is re-parsed as a formula and
//! evaluated recursively, so chained references work and text that fails
//! to parse evaluates to the parse-error literal, surfacing the parse
//! error.  Any other bound value passes through, except that error kinds
//! other than the value error become the reference error.  Without a
//! table every reference is a reference error; an unbound name resolves
//! to the value error.

use vstd::prelude::*;
use crate::types::{
    Value, ValueV, Error, Bindings, vview, envview, sp_lookup, copy_value,
};
use crate::calculate::{sp_formula_v, sp_env};
use crate::parse_formula::{sp_parse_string, parse_string_to_formula, NoCustomFunction};

verus! {

/// The latest binding of `name` in the viewed table.
pub open spec fn sp_lookup_v(entries: Seq<(Seq<char>, ValueV)>, name: Seq<char>) -> Option<
    ValueV,
>
    decreases entries.len(),
{
    if entries.len() == 0 {
        None
    } else if entries.last().0 == name {
        Some(entries.last().1)
    } else {
        sp_lookup_v(entries.drop_last(), name)
    }
}

/// The value-level lookup agrees with the viewed lookup.
pub proof fn lemma_lookup_view(entries: Seq<(String, Value)>, name: Seq<char>)
    ensures
        match sp_lookup(entries, name) {
            Some(v) => sp_lookup_v(envview(entries), name) == Some(vview(v)),
            None => sp_lookup_v(envview(entries), name) is None,
        },
    decreases entries.len(),
{
    crate::types::lemma_envview_len(entries);
    if entries.len() > 0 {
        lemma_lookup_view(entries.drop_last(), name);
        assert(envview(entries).last() == (entries.last().0@, vview(entries.last().1)));
        assert(envview(entries).drop_last() =~= envview(entries.drop_last()));
    }
}

/// What a bound value other than text resolves to: the value itself,
/// except that error kinds other than the value error become the
/// reference error.
pub open spec fn sp_ref_literal(v: ValueV) -> ValueV {
    match v {
        ValueV::Error(Error::Value) => ValueV::Error(Error::Value),
        ValueV::Error(_) => ValueV::Error(Error::Reference),
        _ => v,
    }
}

/// A reference's value.
pub open spec fn sp_reference(name: Seq<char>, env: Option<Bindings>, fuel: nat) -> ValueV
    decreases fuel,
{
    if fuel == 0 {
        ValueV::Error(Error::Reference)
    } else {
        match env {
            None => ValueV::Error(Error::Reference),
            Some(b) => match sp_lookup_v(envview(b.entries@), name) {
                None => ValueV::Error(Error::Value),
                Some(v) => match v {
                    ValueV::Text(t) => sp_formula_v(sp_parse_string(t), env, (fuel - 1) as nat),
                    _ => sp_ref_literal(v),
                },
            },
        }
    }
}

/// Resolves a reference by name.
pub fn calculate_reference_str(name: &str, refs: Option<&Bindings>, fuel: u64) -> (r: Value)
    requires
        fuel <= crate::calculate::MAX_FUEL,
    ensures
        vview(r) == sp_reference(name@, sp_env(refs), fuel as nat),
    decreases fuel, 0int,
{
    if fuel == 0 {
        Value::Error(Error::Reference)
    } else {
        match refs {
            None => Value::Error(Error::Reference),
            Some(b) => {
                proof {
                    lemma_lookup_view(b.entries@, name@);
                }
                match b.lookup(name) {
                    None => Value::Error(Error::Value),
                    Some(v) => match v {
                        Value::Text(t) => {
                            let parsed = parse_string_to_formula(
                                t.as_str(),
                                None::<&NoCustomFunction>,
                            );
                            crate::calculate::calculate_formula_ref(&parsed, refs, fuel - 1)
                        },
                        Value::Error(Error::Value) => Value::Error(Error::Value),
                        Value::Error(_) => Value::Error(Error::Reference),
                        other => copy_value(other),
                    },
                }
            },
        }
    }
}

/// Resolves a reference by (owned) name.
pub fn calculate_reference(string: String, refs: Option<&Bindings>, fuel: u64) -> (r: Value)
    requires
        fuel <= crate::calculate::MAX_FUEL,
    ensures
        vview(r) == sp_reference(string@, sp_env(refs), fuel as nat),
{
    calculate_reference_str(string.as_str(), refs, fuel)
}

} // verus!
