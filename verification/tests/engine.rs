//! Direct tests of the evaluation engine's own interface: literals pass
//! through untouched, reference chains resolve with a budget, and the
//! display layer renders every kind.

use xlformula_engine::calculate;
use xlformula_engine::number::Num;
use xlformula_engine::parse_formula;
use xlformula_engine::parse_formula::{CustomFunctions, NoCustomFunction};
use xlformula_engine::types::{Bindings, Boolean, Error, Formula, Value};

fn eval(s: &str) -> String {
    let f = parse_formula::parse_string_to_formula(s, None::<&NoCustomFunction>);
    calculate::result_to_string(calculate::calculate_formula(f, None))
}

#[test]
fn literal_number_round_trip() {
    let f = Formula::Value(Value::Number(Num::from_i64(42)));
    let r = calculate::calculate_formula(f, None);
    assert_eq!(r, Value::Number(Num::from_i64(42)));
}

#[test]
fn literal_doubled_quote() {
    assert_eq!(eval("=\"a\"\"b\""), "a\"b");
    assert_eq!(eval("=\"\"\"\""), "\"");
}

#[test]
fn error_tokens_render() {
    assert_eq!(
        calculate::result_to_string(Value::Error(Error::Argument)),
        "#ARG!"
    );
    assert_eq!(
        calculate::result_to_string(Value::Error(Error::Reference)),
        "#REF!"
    );
    assert_eq!(calculate::result_to_string(Value::Error(Error::Parse)), "#PARSE!");
    assert_eq!(calculate::result_to_string(Value::Boolean(Boolean::True)), "TRUE");
    assert_eq!(calculate::result_to_string(Value::Blank), "0");
}

#[test]
fn unresolved_reference_without_table() {
    assert_eq!(eval("=MissingName+1"), "#REF!");
}

#[test]
fn chained_references_resolve() {
    let mut b = Bindings::new();
    calculate::bind_value(&mut b, "A", Value::Text("=1+B".to_string()));
    calculate::bind_value(&mut b, "B", Value::Number(Num::from_i64(3)));
    let f = parse_formula::parse_string_to_formula("=A", None::<&NoCustomFunction>);
    let r = calculate::calculate_formula(f, Some(&b));
    assert_eq!(calculate::result_to_string(r), "4");
}

#[test]
fn circular_references_stop_at_the_budget() {
    let mut b = Bindings::new();
    calculate::bind_value(&mut b, "A", Value::Text("=B+1".to_string()));
    calculate::bind_value(&mut b, "B", Value::Text("=A+1".to_string()));
    let f = parse_formula::parse_string_to_formula("=A", None::<&NoCustomFunction>);
    let r = calculate::calculate_formula(f, Some(&b));
    assert_eq!(r, Value::Error(Error::Reference));
}

#[test]
fn bound_malformed_text_surfaces_the_parse_error() {
    let mut b = Bindings::new();
    calculate::bind_value(&mut b, "A", Value::Text("=1+".to_string()));
    let f = parse_formula::parse_string_to_formula("=A", None::<&NoCustomFunction>);
    let r = calculate::calculate_formula(f, Some(&b));
    assert_eq!(r, Value::Error(Error::Parse));
}

#[test]
fn bound_error_values_pass_the_reference_filter() {
    let mut b = Bindings::new();
    calculate::bind_value(&mut b, "V", Value::Error(Error::Value));
    calculate::bind_value(&mut b, "P", Value::Error(Error::Parse));
    calculate::bind_value(&mut b, "D", Value::Error(Error::Div0));
    let fv = parse_formula::parse_string_to_formula("=V", None::<&NoCustomFunction>);
    assert_eq!(
        calculate::calculate_formula(fv, Some(&b)),
        Value::Error(Error::Value)
    );
    let fp = parse_formula::parse_string_to_formula("=P", None::<&NoCustomFunction>);
    assert_eq!(
        calculate::calculate_formula(fp, Some(&b)),
        Value::Error(Error::Reference)
    );
    let fd = parse_formula::parse_string_to_formula("=D", None::<&NoCustomFunction>);
    assert_eq!(
        calculate::calculate_formula(fd, Some(&b)),
        Value::Error(Error::Reference)
    );
}

#[test]
fn custom_function_answers_are_filtered() {
    struct ErrFns;
    impl CustomFunctions for ErrFns {
        fn call(&self, name: &str, _args: &Vec<Num>) -> Value {
            match name {
                "GiveDiv" => Value::Error(Error::Div0),
                "GiveVal" => Value::Error(Error::Value),
                _ => Value::Number(Num::from_i64(9)),
            }
        }
    }
    let cf = ErrFns;
    let f = parse_formula::parse_string_to_formula("=GiveDiv(1)", Some(&cf));
    assert_eq!(
        calculate::calculate_formula(f, None),
        Value::Error(Error::Reference)
    );
    let f2 = parse_formula::parse_string_to_formula("=GiveVal(1)", Some(&cf));
    assert_eq!(
        calculate::calculate_formula(f2, None),
        Value::Error(Error::Value)
    );
    let f3 = parse_formula::parse_string_to_formula("=Nine(1)+1", Some(&cf));
    assert_eq!(
        calculate::result_to_string(calculate::calculate_formula(f3, None)),
        "10"
    );
}

#[test]
fn latest_binding_wins() {
    let mut b = Bindings::new();
    calculate::bind_value(&mut b, "A", Value::Number(Num::from_i64(1)));
    calculate::bind_value(&mut b, "A", Value::Number(Num::from_i64(7)));
    let f = parse_formula::parse_string_to_formula("=A", None::<&NoCustomFunction>);
    assert_eq!(
        calculate::result_to_string(calculate::calculate_formula(f, Some(&b))),
        "7"
    );
}

#[test]
fn number_text_coercions() {
    assert_eq!(eval("=\"2e3\"+0"), "2000");
    assert_eq!(eval("=\"-1.5\"+0.5"), "-1");
    assert_eq!(eval("=\".5\"+0"), "0.5");
}

#[test]
fn power_cases() {
    assert_eq!(eval("=2^10"), "1024");
    assert_eq!(eval("=2^0"), "1");
    assert_eq!(eval("=2^-1"), "0.5");
    assert_eq!(eval("=9^0.5"), "3");
    assert_eq!(eval("=0^0"), "1");
}

#[test]
fn search_tilde_star_literal() {
    assert_eq!(eval(r#"=SEARCH("~*","a*b")"#), "2");
    assert_eq!(eval(r#"=SEARCH("a*c","abbbc")"#), "1");
}

#[test]
fn float_words_in_text_coercion() {
    assert_eq!(eval("=1+\"inf\""), "#DIV/0!");
    assert_eq!(eval("=1+\"-Infinity\""), "#DIV/0!");
    assert_eq!(eval("=1+\"NaN\""), "NaN");
    assert_eq!(eval("=1+\"nan\""), "NaN");
}

#[test]
fn parse_error_inputs() {
    assert_eq!(eval("="), "#PARSE!");
    assert_eq!(eval("=1+"), "#PARSE!");
    assert_eq!(eval("={1,2"), "#PARSE!");
    assert_eq!(eval("=SUM(1,2"), "#PARSE!");
    assert_eq!(eval("=)"), "#PARSE!");
}
