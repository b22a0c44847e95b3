//! Date arithmetic: adding and subtracting day counts, day differences,
//! calendar component accessors, and date comparison.

use vstd::prelude::*;
use crate::number::{Num, sp_trunc_i64, trunc_i64, sp_from_i64};
use crate::datetime::{
    Timestamp, sp_add_days, add_days, sp_days_between, days_between, sp_cmp_ts, cmp_ts,
    sp_civil_of_ts, civil_of_ts, sp_ts_from_civil,
};
use crate::types::{Value, ValueV, Error, Boolean, CmpOp, sp_boolean, vview};

verus! {

/// `date + n`: the day count is the numeric operand truncated toward zero.
pub open spec fn sp_add_days_to_date(d: Timestamp, rhs: ValueV) -> ValueV {
    match rhs {
        ValueV::Number(x) => ValueV::Date(sp_add_days(d, sp_trunc_i64(x) as int)),
        _ => ValueV::Error(Error::Value),
    }
}

/// Adds a day count to a date.
pub fn add_days_to_date(d: Timestamp, rhs: Value) -> (r: Value)
    ensures
        vview(r) == sp_add_days_to_date(d, vview(rhs)),
{
    match rhs {
        Value::Number(x) => Value::Date(add_days(d, trunc_i64(x))),
        _ => Value::Error(Error::Value),
    }
}

/// `date - n`.
pub open spec fn sp_subtract_days_from_date(d: Timestamp, rhs: ValueV) -> ValueV {
    match rhs {
        ValueV::Number(x) => ValueV::Date(
            sp_add_days(d, -(sp_trunc_i64(x) as int)),
        ),
        _ => ValueV::Error(Error::Value),
    }
}

/// Subtracts a day count from a date.
pub fn subtract_days_from_date(d: Timestamp, rhs: Value) -> (r: Value)
    ensures
        vview(r) == sp_subtract_days_from_date(d, vview(rhs)),
{
    match rhs {
        Value::Number(x) => {
            let n = trunc_i64(x);
            let m: i64 = if n == i64::MIN {
                i64::MAX
            } else {
                -n
            };
            proof {
                if n == i64::MIN {
                    assert(sp_add_days(d, -(n as int)) == sp_add_days(d, m as int)) by {
                        // both exceed the range of representable seconds and saturate alike
                        assert((-(n as int)) * 86_400 > 0x7FFF_FFFF_FFFF_FFFF + 86_400)
                            by (nonlinear_arith)
                            requires
                                n == i64::MIN,
                        ;
                        assert((m as int) * 86_400 > 0x7FFF_FFFF_FFFF_FFFF + 86_400)
                            by (nonlinear_arith)
                            requires
                                m == i64::MAX,
                        ;
                    }
                }
            }
            Value::Date(add_days(d, m))
        },
        _ => Value::Error(Error::Value),
    }
}

/// The day-count epoch used when one side of a day difference is blank.
pub open spec fn sp_days_epoch() -> Timestamp {
    sp_ts_from_civil(1900, 1, 1, 2, 0, 0, 0)
}

pub fn days_epoch() -> (r: Timestamp)
    ensures
        r == sp_days_epoch(),
{
    Timestamp::from_civil(1900, 1, 1, 2, 0, 0, 0)
}

/// The whole days from `start` to `end`; a blank side counts from (or to)
/// the epoch, and two blanks are zero days apart.
pub open spec fn sp_calculate_days(start: ValueV, end: ValueV) -> ValueV {
    match (start, end) {
        (ValueV::Date(s), ValueV::Date(e)) => ValueV::Number(
            sp_from_i64_sp(sp_days_between(e, s)),
        ),
        (ValueV::Blank, ValueV::Date(e)) => ValueV::Number(
            sp_from_i64_sp(sp_days_between(e, sp_days_epoch())),
        ),
        (ValueV::Date(s), ValueV::Blank) => ValueV::Number(
            sp_from_i64_sp(sp_days_between(sp_days_epoch(), s)),
        ),
        (ValueV::Blank, ValueV::Blank) => ValueV::Number(
            Num::Finite { neg: false, mant: 0, exp: 0 },
        ),
        _ => ValueV::Error(Error::Value),
    }
}

/// A day difference as a number.
pub open spec fn sp_from_i64_sp(v: int) -> Num {
    if v >= 0 {
        crate::number::sp_norm(false, v as nat, 0)
    } else {
        crate::number::sp_norm(true, (-v) as nat, 0)
    }
}

/// The whole days between two date operands.
pub fn calculate_days(start: Value, end: Value) -> (r: Value)
    ensures
        vview(r) == sp_calculate_days(vview(start), vview(end)),
{
    match (start, end) {
        (Value::Date(s), Value::Date(e)) => Value::Number(Num::from_i64(days_between(e, s))),
        (Value::Blank, Value::Date(e)) => Value::Number(
            Num::from_i64(days_between(e, days_epoch())),
        ),
        (Value::Date(s), Value::Blank) => Value::Number(
            Num::from_i64(days_between(days_epoch(), s)),
        ),
        (Value::Blank, Value::Blank) => Value::Number(Num::Finite { neg: false, mant: 0, exp: 0 }),
        _ => Value::Error(Error::Value),
    }
}

/// The calendar year of a date operand.
pub open spec fn sp_calculate_year(v: ValueV) -> ValueV {
    match v {
        ValueV::Date(d) => ValueV::Number(sp_from_i64_sp(sp_civil_of_ts(d).0)),
        _ => ValueV::Error(Error::Value),
    }
}

pub fn calculate_year(date_value: Value) -> (r: Value)
    ensures
        vview(r) == sp_calculate_year(vview(date_value)),
{
    match date_value {
        Value::Date(d) => {
            let c = civil_of_ts(d);
            Value::Number(Num::from_i64(c.0))
        },
        _ => Value::Error(Error::Value),
    }
}

/// The calendar month of a date operand.
pub open spec fn sp_calculate_month(v: ValueV) -> ValueV {
    match v {
        ValueV::Date(d) => ValueV::Number(sp_from_i64_sp(sp_civil_of_ts(d).1)),
        _ => ValueV::Error(Error::Value),
    }
}

pub fn calculate_month(date_value: Value) -> (r: Value)
    ensures
        vview(r) == sp_calculate_month(vview(date_value)),
{
    match date_value {
        Value::Date(d) => {
            let c = civil_of_ts(d);
            Value::Number(Num::from_i64(c.1))
        },
        _ => Value::Error(Error::Value),
    }
}

/// The calendar day-of-month of a date operand.
pub open spec fn sp_calculate_day(v: ValueV) -> ValueV {
    match v {
        ValueV::Date(d) => ValueV::Number(sp_from_i64_sp(sp_civil_of_ts(d).2)),
        _ => ValueV::Error(Error::Value),
    }
}

pub fn calculate_day(date_value: Value) -> (r: Value)
    ensures
        vview(r) == sp_calculate_day(vview(date_value)),
{
    match date_value {
        Value::Date(d) => {
            let c = civil_of_ts(d);
            Value::Number(Num::from_i64(c.2))
        },
        _ => Value::Error(Error::Value),
    }
}

/// Compares two dates by their instants.
pub open spec fn sp_compare_dates(d1: Timestamp, d2: Timestamp, op: CmpOp) -> ValueV {
    let c = sp_cmp_ts(d1, d2);
    let b = match op {
        CmpOp::Eq => c == 0,
        CmpOp::Ne => c != 0,
        CmpOp::Gt => c > 0,
        CmpOp::Lt => c < 0,
        CmpOp::Ge => c >= 0,
        CmpOp::Le => c <= 0,
    };
    ValueV::Boolean(sp_boolean(b))
}

pub fn compare_dates(date1: Timestamp, date2: Timestamp, op: CmpOp) -> (r: Value)
    ensures
        vview(r) == sp_compare_dates(date1, date2, op),
{
    let c = cmp_ts(date1, date2);
    let b = match op {
        CmpOp::Eq => c == 0,
        CmpOp::Ne => c != 0,
        CmpOp::Gt => c > 0,
        CmpOp::Lt => c < 0,
        CmpOp::Ge => c >= 0,
        CmpOp::Le => c <= 0,
    };
    Value::Boolean(Boolean::from_bool(b))
}

} // verus!
