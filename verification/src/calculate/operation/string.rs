//! The text operator (concatenation) and text comparison.  Numbers format
//! to their decimal text, booleans and errors pass through, blanks are
//! empty text, and arrays and dates are value errors.

use vstd::prelude::*;
use crate::number::{format_num, sp_format_num, str_chars};
use crate::types::{Value, ValueV, Error, Boolean, CmpOp, sp_boolean, vview};

verus! {

/// Concatenation of two texts.
pub fn calculate_concat_operator(str1: &str, str2: &str) -> (r: String)
    ensures
        r@ == str1@ + str2@,
{
    let mut s = crate::types::clone_str(str1);
    s.append(str2);
    s
}

/// The text of a value under the text coercion of the concat operator,
/// where one exists.
pub open spec fn sp_text_of(v: ValueV) -> Option<Seq<char>> {
    match v {
        ValueV::Number(n) => Some(sp_format_num(n)),
        ValueV::Text(t) => Some(t),
        ValueV::Blank => Some(Seq::empty()),
        _ => None,
    }
}

/// The right-hand side of the concat operator, given the left text.
pub open spec fn sp_string_rhs(l: Seq<char>, rhs: ValueV) -> ValueV {
    match rhs {
        ValueV::Boolean(_) => rhs,
        ValueV::Error(_) => rhs,
        _ => match sp_text_of(rhs) {
            Some(rt) => ValueV::Text(l + rt),
            None => ValueV::Error(Error::Value),
        },
    }
}

/// The concat operator over two values.
pub open spec fn sp_string_operator(lhs: ValueV, rhs: ValueV) -> ValueV {
    match lhs {
        ValueV::Boolean(_) => lhs,
        ValueV::Error(_) => lhs,
        _ => match sp_text_of(lhs) {
            Some(lt) => sp_string_rhs(lt, rhs),
            None => ValueV::Error(Error::Value),
        },
    }
}

fn text_of_x(v: Value) -> (r: Option<String>)
    ensures
        match r {
            Some(s) => sp_text_of(vview(v)) == Some(s@),
            None => sp_text_of(vview(v)) is None,
        },
{
    match v {
        Value::Number(n) => Some(format_num(n)),
        Value::Text(t) => Some(t),
        Value::Blank => Some(String::new()),
        _ => None,
    }
}

/// The concat operator over two values.
pub fn calculate_string_operator(lhs: Value, rhs: Value) -> (r: Value)
    ensures
        vview(r) == sp_string_operator(vview(lhs), vview(rhs)),
{
    match lhs {
        Value::Boolean(_) => lhs,
        Value::Error(_) => lhs,
        _ => match text_of_x(lhs) {
            Some(lt) => match rhs {
                Value::Boolean(_) => rhs,
                Value::Error(_) => rhs,
                _ => match text_of_x(rhs) {
                    Some(rt) => {
                        let out = calculate_concat_operator(lt.as_str(), rt.as_str());
                        Value::Text(out)
                    },
                    None => Value::Error(Error::Value),
                },
            },
            None => Value::Error(Error::Value),
        },
    }
}

/// Text comparison: texts compare equal or unequal by their characters;
/// ordering comparisons between two texts are not defined here and the
/// dispatcher routes them to the numeric path.
pub open spec fn sp_compare_strings(s1: Seq<char>, s2: Seq<char>, op: CmpOp) -> ValueV {
    match op {
        CmpOp::Eq => ValueV::Boolean(sp_boolean(s1 == s2)),
        CmpOp::Ne => ValueV::Boolean(sp_boolean(s1 != s2)),
        _ => ValueV::Error(Error::Value),
    }
}

/// Compares two texts under the given comparison.
pub fn compare_strings(string1: String, string2: String, op: CmpOp) -> (r: Value)
    ensures
        vview(r) == sp_compare_strings(string1@, string2@, op),
{
    match op {
        CmpOp::Eq => {
            let e = crate::types::str_eq(string1.as_str(), string2.as_str());
            Value::Boolean(Boolean::from_bool(e))
        },
        CmpOp::Ne => {
            let e = crate::types::str_eq(string1.as_str(), string2.as_str());
            Value::Boolean(Boolean::from_bool(!e))
        },
        _ => Value::Error(Error::Value),
    }
}

} // verus!
