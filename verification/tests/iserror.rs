use xlformula_engine::calculate;
use xlformula_engine::parse_formula;
use xlformula_engine::parse_formula::NoCustomFunction;
use xlformula_engine::types::{Boolean, Value};

fn eval(s: &str) -> String {
    let f = parse_formula::parse_string_to_formula(s, None::<&NoCustomFunction>);
    calculate::result_to_string(calculate::calculate_formula(f, None))
}

fn value(s: &str) -> Value {
    let f = parse_formula::parse_string_to_formula(s, None::<&NoCustomFunction>);
    calculate::calculate_formula(f, None)
}

#[test]
fn iserror_true_for_errors() {
    assert_eq!(eval(r#"=ISERROR(1/0)"#), "TRUE");
    assert_eq!(eval(r#"=ISERROR(FIND("x","abc"))"#), "TRUE");
}

#[test]
fn iserror_false_for_non_errors() {
    assert_eq!(eval(r#"=ISERROR(1)"#), "FALSE");
    assert_eq!(eval(r#"=ISERROR("")"#), "FALSE");
    assert_eq!(eval(r#"=ISERROR(TRUE)"#), "FALSE");
    assert_eq!(eval(r#"=ISERROR(FIND("a","abc"))"#), "FALSE");
}

#[test]
fn iserror_detects_error_value() {
    let v = value(r#"=ISERROR(1/0)"#);
    assert!(matches!(v, Value::Boolean(Boolean::True)));
    let v = value(r#"=ISERROR(42)"#);
    assert!(matches!(v, Value::Boolean(Boolean::False)));
}

#[test]
fn iserror_f32() {
    assert_eq!(eval(r#"=ISERROR(1/0)"#), "TRUE");
    assert_eq!(eval(r#"=ISERROR(1)"#), "FALSE");
}
