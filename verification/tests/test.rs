use xlformula_engine::calculate;
use xlformula_engine::number::{add_num, Num};
use xlformula_engine::parse_formula;
use xlformula_engine::parse_formula::{CustomFunctions, NoCustomFunction};
use xlformula_engine::types::{Bindings, Boolean, Error, Value};
use xlformula_engine::datetime::Timestamp;
use chrono::{DateTime, Datelike, Duration, FixedOffset};

fn evaluate_formula_string(s: &str) -> String {
    let f = parse_formula::parse_string_to_formula(s, None::<&NoCustomFunction>);
    calculate::result_to_string(calculate::calculate_formula(f, None))
}

fn evaluate_formula_number(s: &str) -> f64 {
    evaluate_formula_string(s).parse::<f64>().unwrap()
}

fn evaluate_formula_string_with_reference(s: &str, refs: Option<&Bindings>) -> String {
    let f = parse_formula::parse_string_to_formula(s, None::<&NoCustomFunction>);
    calculate::result_to_string(calculate::calculate_formula(f, refs))
}

fn evaluate_formula_number_with_reference(s: &str, refs: Option<&Bindings>) -> f64 {
    evaluate_formula_string_with_reference(s, refs).parse::<f64>().unwrap()
}

fn evaluate_formula_value_with_reference(s: &str, refs: Option<&Bindings>) -> Value {
    let f = parse_formula::parse_string_to_formula(s, None::<&NoCustomFunction>);
    calculate::calculate_formula(f, refs)
}

fn evaluate_formula_boolean_with_reference(s: &str, refs: Option<&Bindings>) -> String {
    evaluate_formula_string_with_reference(s, refs)
}

fn evaluate_formula_date_with_reference(s: &str, refs: Option<&Bindings>) -> String {
    evaluate_formula_string_with_reference(s, refs)
}

fn evaluate_formula_number_with_custom_function<C: CustomFunctions>(
    s: &str,
    custom: Option<&C>,
) -> f64 {
    let f = parse_formula::parse_string_to_formula(s, custom);
    calculate::result_to_string(calculate::calculate_formula(f, None))
        .parse::<f64>()
        .unwrap()
}

fn evaluate_formula_string_with_custom_function<C: CustomFunctions>(
    s: &str,
    custom: Option<&C>,
) -> String {
    let f = parse_formula::parse_string_to_formula(s, custom);
    calculate::result_to_string(calculate::calculate_formula(f, None))
}

fn num(v: i64) -> Value {
    Value::Number(Num::from_i64(v))
}

fn ts(dt: DateTime<FixedOffset>) -> Timestamp {
    Timestamp { secs: dt.timestamp(), offset_secs: dt.offset().local_minus_utc() }
}

#[test]
fn it_evaluate_add_operator_simple_addition() {
    assert_eq!(evaluate_formula_number("=1+2"), 3.0);
}

#[test]
fn it_evaluate_add_operator_spaces_between_operators() {
    assert_eq!(evaluate_formula_number("=1 +  2"), 3.0);
}

#[test]
fn it_evaluate_add_operator_spaces_before_number() {
    assert_eq!(evaluate_formula_number("=  1+2"), 3.0);
}

#[test]
fn it_evaluate_add_operator_with_large_numbers() {
    assert_eq!(evaluate_formula_number("=1234567890 + 1234567890"), 2469135780.0);
}

#[test]
fn it_evaluate_add_operator_with_negative_numbers() {
    assert_eq!(evaluate_formula_number("=-1 + -2"), -3.0);
}

#[test]
fn it_evaluate_minus_operator1() {
    assert_eq!(evaluate_formula_number("=123 - 23"), 100.0);
}

#[test]
fn it_evaluate_minus_operator_with_negative_numbers() {
    assert_eq!(evaluate_formula_number("=-12--6"), -6.0);
}

#[test]
fn it_evaluate_multiply_operator() {
    assert_eq!(evaluate_formula_number("=3 * 2"), 6.0);
}

#[test]
fn it_evaluate_divide_operator() {
    assert_eq!(evaluate_formula_number("=6 / 3"), 2.0);
}

#[test]
fn it_evaluate_divide_operator_divsion_by_zero() {
    assert_eq!(evaluate_formula_string("=6 / 0"), "#DIV/0!");
}

#[test]
fn it_evaluate_negative() {
    assert_eq!(evaluate_formula_number("=-1 * -5"), 5.0);
}

#[test]
fn it_evaluate_power_int() {
    assert_eq!(evaluate_formula_number("=2^3"), 8.0);
}

#[test]
fn it_evaluate_float() {
    assert_eq!(evaluate_formula_number("=1.2+0.5"), 1.7);
}

#[test]
fn it_evaluate_negative_float() {
    let r = evaluate_formula_number("=-1.2+0.5");
    assert!((r - -0.7).abs() < 1e-6);
    assert_eq!(evaluate_formula_number("=-1.2+0.5"), -0.7);
}

#[test]
fn it_evaluate_power_float() {
    assert_eq!(evaluate_formula_number("=4^0.5"), 2.0);
}

#[test]
fn it_evaluate_multiple_operations() {
    assert_eq!(evaluate_formula_number("=1+2+3"), 6.0);
}

#[test]
fn it_evaluate_multiple_operations2() {
    assert_eq!(evaluate_formula_number("=1+2-3"), 0.0);
}

#[test]
fn it_evaluate_multiple_operations_in_right_order() {
    assert_eq!(evaluate_formula_number("=1+2*3"), 7.0);
}

#[test]
fn it_evaluate_multiple_operations_in_right_order2() {
    assert_eq!(evaluate_formula_number("=1+3/3"), 2.0);
}

#[test]
fn it_evaluate_multiple_operations_with_errors() {
    assert_eq!(evaluate_formula_string("=1+3/0"), "#DIV/0!");
}

#[test]
fn it_evaluate_parens() {
    assert_eq!(evaluate_formula_number("=(1+2)"), 3.0);
}

#[test]
fn it_evaluate_multiple_parens() {
    assert_eq!(evaluate_formula_number("=(1+2)+(3+4)"), 10.0);
}

#[test]
fn it_evaluate_nested_parens() {
    assert_eq!(evaluate_formula_number("=(1*(2+3))*2"), 10.0);
}

#[test]
fn it_evaluate_strings() {
    assert_eq!(evaluate_formula_string("=\"Hello!  \""), "Hello!  ");
}

#[test]
fn it_evaluate_strings_in_numeric_operator() {
    assert_eq!(evaluate_formula_string("=\"Hello\"+1"), "#CAST!");
}

#[test]
fn it_evaluate_strings_in_numeric_operator2() {
    assert_eq!(evaluate_formula_string("=1 + \"Hello\""), "#CAST!");
}

#[test]
fn it_evaluate_concat_operator1() {
    assert_eq!(evaluate_formula_string("=\"Hello\" & \"World!\""), "HelloWorld!");
}

#[test]
fn it_evaluate_concat_operator3() {
    assert_eq!(evaluate_formula_string("=\"Hello \" & \" World!\""), "Hello  World!");
}

#[test]
fn it_evaluate_concat_operator_with_casting() {
    assert_eq!(evaluate_formula_string("=\"Hello\"&1"), "Hello1");
}

#[test]
fn it_evaluate_concat_operator_with_casting2() {
    assert_eq!(evaluate_formula_string("=\"Hello \"&1.2"), "Hello 1.2");
}

#[test]
fn it_evaluate_concat_operator_with_numberic() {
    assert_eq!(evaluate_formula_string("=1   &  2"), "12");
}

#[test]
fn it_evaluate_strings_with_quoted_quotes1() {
    assert_eq!(evaluate_formula_string("=\"Hello 'World'\""), "Hello 'World'");
}

#[test]
fn it_evaluate_strings_with_quoted_quotes() {
    assert_eq!(evaluate_formula_string("=\"Hello \"\"World\"\"\""), "Hello \"World\"");
}

#[test]
fn it_evaluate_strings_with_single_quotes() {
    assert_eq!(evaluate_formula_string("=\"Hello \"&'World'"), "Hello World");
}

#[test]
fn it_evaluate_strings_with_quotes() {
    assert_eq!(evaluate_formula_string("='Hello \"World\"'"), "Hello \"World\"");
}

#[test]
fn it_evaluate_strings_with_quotes2() {
    assert_eq!(evaluate_formula_string("='Hello'"), "Hello");
}

#[test]
fn it_evaluate_constant_number() {
    assert_eq!(evaluate_formula_number("1"), 1.0);
}

#[test]
fn it_evaluate_constant_number_float() {
    assert_eq!(evaluate_formula_number("1.2"), 1.2);
}

#[test]
fn it_evaluate_constant_text() {
    assert_eq!(evaluate_formula_string("Hello World"), "Hello World");
}

#[test]
fn it_evaluate_constant_text_with_quotes() {
    assert_eq!(evaluate_formula_string("Hello \"World'"), "Hello \"World'");
}

#[test]
fn it_evaluate_constant_starting_with_equal() {
    assert_eq!(evaluate_formula_string("'="), "=");
    assert_eq!(evaluate_formula_string("'=hello"), "=hello");
}

#[test]
fn it_support_basic_math_function() {
    assert_eq!(evaluate_formula_number("=ABS(-1)"), 1.0);
}

#[test]
fn it_support_basic_math_function_with_nested_formulas() {
    assert_eq!(evaluate_formula_number("=ABS(-1-4)"), 5.0);
}

#[test]
fn it_support_basic_math_function_with_nested_functions() {
    assert_eq!(evaluate_formula_number("=ABS(ABS(-1))"), 1.0);
}

#[test]
fn it_evaluate_functions_sum() {
    assert_eq!(evaluate_formula_number("=SUM(1*1, ABS(2), ABS(2+1), 4)"), 10.0);
    assert_eq!(evaluate_formula_number("=SUM(1, 2, , 3)"), 6.0);
    assert_eq!(evaluate_formula_number("=SUM( 1 , 2,,3,)"), 6.0);
    assert_eq!(evaluate_formula_number("=SUM( 1 , 2,,,3,)"), 6.0);
    assert_eq!(evaluate_formula_number("=SUM(,)"), 0.0);
}

#[test]
fn it_evaluate_functions_avg() {
    assert_eq!(evaluate_formula_number("=AVERAGE(1,2)"), 1.5);
    assert_eq!(evaluate_formula_number("=AVERAGE({1,2,3})"), 2.0);
    assert_eq!(evaluate_formula_number("=AVERAGE({1,2,3},1,2,3)"), 2.0);
    assert_eq!(evaluate_formula_number("=AVERAGE(3,1,2,3)"), 2.25);
    assert_eq!(evaluate_formula_number("=AVERAGE(1,2,3,4,5,1,2,3)"), 2.625);
    assert_eq!(evaluate_formula_number("=AVERAGE({1,2,3,4,5},1,2,3)"), 2.625);
    assert_eq!(evaluate_formula_number("=AVERAGE(AVERAGE({1,2,3,4,5}),1,2,3)"), 2.25);
    assert_eq!(evaluate_formula_number("=AVERAGE({100,200})"), 150.0);
    assert_eq!(evaluate_formula_number("=AVERAGE( 1 , 2,,3)"), 1.5);
    assert_eq!(evaluate_formula_number("=AVERAGE( 1 , )"), 0.5);
    assert_eq!(evaluate_formula_number("=AVERAGE(,)"), 0.0);
    assert_eq!(evaluate_formula_number("=AVERAGE(1,,2,3,)"), 1.2);
}

#[test]
fn it_evaluate_functions_product() {
    assert_eq!(evaluate_formula_number("=PRODUCT(ABS(1),2*1, 3,4*1)"), 24.0);
    assert_eq!(evaluate_formula_number("=PRODUCT( 1 , 2,,3)"), 6.0);
    assert_eq!(evaluate_formula_number("=PRODUCT(,)"), 0.0);
}

#[test]
fn it_evaluate_operators_with_casting() {
    assert_eq!(evaluate_formula_number("=\"1\"+2+\"3\""), 6.0);
}

#[test]
fn it_evaluate_functions_with_casting() {
    assert_eq!(evaluate_formula_number("=SUM(1,2,\"3\")"), 6.0);
}

#[test]
fn it_evaluate_wrong_parens1() {
    assert_eq!(evaluate_formula_string("=(2+3"), "#PARSE!");
    assert_eq!(evaluate_formula_string("=\"Hello World"), "#PARSE!");
    assert_eq!(evaluate_formula_string("=Hello World"), "#PARSE!");
}

#[test]
fn it_evaluate_comparison_operators() {
    assert_eq!(evaluate_formula_string("=1*1=1/1"), "TRUE");
    assert_eq!(evaluate_formula_string("=1^1<>1"), "FALSE");
    assert_eq!(evaluate_formula_string("=1*2>1"), "TRUE");
    assert_eq!(evaluate_formula_string("=1*1/1+2<1^1"), "FALSE");
    assert_eq!(evaluate_formula_string("=2>=1"), "TRUE");
    assert_eq!(evaluate_formula_string("=11<=3"), "FALSE");
    assert_eq!(evaluate_formula_string("=\"Joshu\"=\"Joshu\""), "TRUE");
    assert_eq!(evaluate_formula_string("=\"Joshu\"<>\"NotJoshu\""), "TRUE");
}

#[test]
fn it_evaluate_boolean_or() {
    assert_eq!(evaluate_formula_string("=OR(1>1,1<>1)"), "FALSE");
    assert_eq!(evaluate_formula_string("=OR(1=1,2<=4)"), "TRUE");
    assert_eq!(evaluate_formula_string("=OR(\"True\")"), "TRUE");
    assert_eq!(evaluate_formula_string("=OR(True)"), "TRUE");
    assert_eq!(evaluate_formula_string("=OR(1)"), "TRUE");
    assert_eq!(evaluate_formula_string("=OR(\"test\")"), "#CAST!");
    assert_eq!(evaluate_formula_string("=OR(\"false\",\"FALSE\", 1, FALSE)"), "TRUE");
    assert_eq!(evaluate_formula_string("=OR(\"True\",1,\"test\",  true) "), "TRUE");
    assert_eq!(evaluate_formula_string("=OR(1, )"), "TRUE");
    assert_eq!(evaluate_formula_string("=OR(1,,, )"), "TRUE");
}

#[test]
fn it_evaluate_boolean_and() {
    assert_eq!(evaluate_formula_string("=AND(1>1,1=1)"), "FALSE");
    assert_eq!(evaluate_formula_string("=AND(1=1,2<=4)"), "TRUE");
    assert_eq!(evaluate_formula_string("=AND(\"true\", 0)"), "FALSE");
    assert_eq!(evaluate_formula_string("=AND(\"True\")"), "TRUE");
    assert_eq!(evaluate_formula_string("=AND(false)"), "FALSE");
    assert_eq!(evaluate_formula_string("=AND(1)"), "TRUE");
    assert_eq!(evaluate_formula_string("=AND(\"test\", \"test\")"), "#VALUE!");
    assert_eq!(evaluate_formula_string("=AND(\"test\",\"True\", 1, true) "), "#VALUE!");
    assert_eq!(evaluate_formula_string("=AND(\"True\",\"test\", 1, true) "), "#VALUE!");
    assert_eq!(evaluate_formula_string("=AND(\"True\", 1, true, \"test\")"), "#VALUE!");
    assert_eq!(evaluate_formula_string("=AND(1, )"), "FALSE");
    assert_eq!(evaluate_formula_string("=AND(1,,,1)"), "FALSE");
}

#[test]
fn it_evaluate_boolean_xor() {
    assert_eq!(evaluate_formula_string("=XOR(2=2,1=1)"), "FALSE");
    assert_eq!(evaluate_formula_string("=XOR(1=1,2>4)"), "TRUE");
    assert_eq!(evaluate_formula_string("=XOR(\"True\")"), "TRUE");
    assert_eq!(evaluate_formula_string("=XOR(False)"), "FALSE");
    assert_eq!(evaluate_formula_string("=XOR(1)"), "TRUE");
    assert_eq!(evaluate_formula_string("=XOR(1=1,\"test\")"), "TRUE");
    assert_eq!(evaluate_formula_string("=XOR(TRUE, TRUE, TRUE, TRUE)"), "FALSE");
    assert_eq!(evaluate_formula_string("=XOR(TRUE, TRUE)"), "FALSE");
    assert_eq!(evaluate_formula_string("=XOR(false, FALSE, \"false\", false)"), "FALSE");
    assert_eq!(evaluate_formula_string("=XOR(true)"), "TRUE");
    assert_eq!(evaluate_formula_string("=XOR(false)"), "FALSE");
    assert_eq!(evaluate_formula_string("=XOR(1, )"), "TRUE");
    assert_eq!(evaluate_formula_string("=XOR(1,, )"), "TRUE");
    assert_eq!(evaluate_formula_string("=XOR(1,,1 )"), "FALSE");
    assert_eq!(evaluate_formula_string("=XOR(1,,1, )"), "FALSE");
}

#[test]
fn it_evaluate_boolean_not() {
    assert_eq!(evaluate_formula_string("=NOT(11<=3)"), "TRUE");
    assert_eq!(evaluate_formula_string("=NOT(1=1)"), "FALSE");
    assert_eq!(evaluate_formula_string("=NOT(True)"), "FALSE");
    assert_eq!(evaluate_formula_string("=NOT(\"false\")"), "TRUE");
    assert_eq!(evaluate_formula_string("=NOT(\"test\")"), "#CAST!");
    assert_eq!(evaluate_formula_string("=NOT(0)"), "TRUE");
    assert_eq!(evaluate_formula_string("=not(11<=3)"), "TRUE");
    assert_eq!(evaluate_formula_string("=Not(11<=3)"), "TRUE");
    assert_eq!(evaluate_formula_string("=nOT(11<=3)"), "TRUE");
}

fn refs_basic() -> Bindings {
    let mut b = Bindings::new();
    calculate::bind_value(&mut b, "A", num(1));
    calculate::bind_value(&mut b, "B", num(2));
    calculate::bind_value(&mut b, "C", num(3));
    calculate::bind_value(&mut b, "fix_rate", num(10));
    calculate::bind_value(&mut b, "input.", num(2));
    calculate::bind_value(&mut b, "D", num(1));
    calculate::bind_value(&mut b, "F", Value::Text("=D+1".to_string()));
    calculate::bind_value(&mut b, "G", Value::Text("=F+1+D+1".to_string()));
    calculate::bind_value(
        &mut b,
        "Test",
        Value::Iterator(vec![num(100), num(200), num(300)]),
    );
    b
}

#[test]
fn it_evaluate_references() {
    let b = refs_basic();
    assert_eq!(evaluate_formula_number_with_reference("=A+B", Some(&b)), 3.0);
    assert_eq!(evaluate_formula_number_with_reference("=(A*(B+C))*B", Some(&b)), 10.0);
    assert_eq!(evaluate_formula_number_with_reference("=fix_rate*input.", Some(&b)), 20.0);
    assert_eq!(evaluate_formula_number_with_reference("=D+F", Some(&b)), 3.0);
    assert_eq!(evaluate_formula_number_with_reference("=G+F", Some(&b)), 7.0);
    assert_eq!(evaluate_formula_number_with_reference("=SUM(A,B,C)", Some(&b)), 6.0);
    assert_eq!(evaluate_formula_number_with_reference("=AVERAGE(Test)", Some(&b)), 200.0);
}

#[test]
fn it_evaluate_references_other_formulas() {
    let mut b = Bindings::new();
    calculate::bind_value(&mut b, "A", Value::Text("=1+B".to_string()));
    calculate::bind_value(&mut b, "B", num(3));
    assert_eq!(evaluate_formula_number_with_reference("=A+B", Some(&b)), 7.0);
}

#[test]
fn it_evaluate_references_boolean_formulas() {
    let mut b = Bindings::new();
    calculate::bind_value(&mut b, "A", Value::Boolean(Boolean::True));
    calculate::bind_value(&mut b, "B", Value::Boolean(Boolean::False));
    assert_eq!(evaluate_formula_boolean_with_reference("=AND(A,B)", Some(&b)), "FALSE");
}

#[test]
fn it_evaluate_references_error_value_formulas() {
    let mut b = Bindings::new();
    calculate::bind_value(&mut b, "A", Value::Boolean(Boolean::True));
    calculate::bind_value(&mut b, "B", Value::Error(Error::Value));
    assert_eq!(evaluate_formula_boolean_with_reference("=AND(A,B)", Some(&b)), "#VALUE!");
}

#[test]
fn it_evaluate_references_with_dot() {
    let mut b = Bindings::new();
    calculate::bind_value(&mut b, "A.B", num(1));
    calculate::bind_value(&mut b, "B.C", num(2));
    assert_eq!(evaluate_formula_number_with_reference("=A.B+B.C", Some(&b)), 3.0);
}

#[test]
fn it_evaluate_iterators() {
    assert_eq!(evaluate_formula_number("=SUM({1,2,3})"), 6.0);
    assert_eq!(evaluate_formula_number("=PRODUCT({1,2,3})"), 6.0);
    assert_eq!(evaluate_formula_number("=SUM({1,2,3}, {5,6})"), 17.0);
}

#[test]
fn it_evaluate_iterators_and_scalars() {
    assert_eq!(evaluate_formula_number("=SUM({1,2,3}, 4)"), 10.0);
    assert_eq!(evaluate_formula_number("=PRODUCT({1,2,3}, 4)"), 24.0);
}

#[test]
fn it_evaluate_multiple_iterators_and_scalars() {
    assert_eq!(evaluate_formula_number("=SUM({1,2,3})"), 6.0);
    assert_eq!(evaluate_formula_number("=SUM({  1,2,3}, 4, {5, 6})"), 21.0);
    assert_eq!(evaluate_formula_number("=SUM({1,2,3},4,{5,6})"), 21.0);
    assert_eq!(evaluate_formula_number("=SUM({1+1,2,3-3},4,{5,6*1})"), 19.0);
    assert_eq!(evaluate_formula_number("=PRODUCT({1+1,2,3-2},4, {5,6*1})"), 480.0);
}

#[test]
fn it_evaluate_references_iterator() {
    let mut b = Bindings::new();
    calculate::bind_value(&mut b, "A.B", num(1));
    calculate::bind_value(&mut b, "B.C", num(2));
    assert_eq!(evaluate_formula_number_with_reference("=SUM({A.B,B.C})", Some(&b)), 3.0);
}

#[test]
fn it_evaluate_iterator_operators() {
    assert_eq!(evaluate_formula_string("={1,2,3}+{1,2,3}"), "{2,4,6}");
    assert_eq!(evaluate_formula_string("={3,2,1}-{1,2,3}"), "{2,0,-2}");
    assert_eq!(evaluate_formula_string("={1,2,3}*{1,2,3}"), "{1,4,9}");
    assert_eq!(evaluate_formula_string("={1,2,3}/{1,2,3}"), "{1,1,1}");
    assert_eq!(evaluate_formula_string("={1,2,3}/{0,0,0}"), "{#DIV/0!,#DIV/0!,#DIV/0!}");
    assert_eq!(evaluate_formula_string("=-{1,2,3}"), "{-1,-2,-3}");
    assert_eq!(evaluate_formula_string("=-({1,2,3})"), "{-1,-2,-3}");
}

#[test]
fn it_evaluate_iterator_in_logic_functions() {
    assert_eq!(evaluate_formula_string("=AND(0,{0,0,0},0)"), "FALSE");
    assert_eq!(evaluate_formula_string("=AND(0,{0,0,0})"), "FALSE");
    assert_eq!(evaluate_formula_string("=AND({0,0,0},0)"), "FALSE");
    assert_eq!(evaluate_formula_string("=OR(1,{1,0,0},0,1)"), "TRUE");
    assert_eq!(evaluate_formula_string("=OR(0,{0,1,0})"), "TRUE");
    assert_eq!(evaluate_formula_string("=OR({0,0,0},1)"), "TRUE");
    assert_eq!(evaluate_formula_string("=AND({0,0,0})"), "FALSE");
    assert_eq!(evaluate_formula_string("=AND({1,0,0})"), "FALSE");
    assert_eq!(evaluate_formula_string("=AND({1,1,1})"), "TRUE");
    assert_eq!(evaluate_formula_string("=OR({0,0,0})"), "FALSE");
    assert_eq!(evaluate_formula_string("=OR({1,0,0})"), "TRUE");
    assert_eq!(evaluate_formula_string("=OR({0,1,1})"), "TRUE");
    assert_eq!(evaluate_formula_string("=OR({1,0,1})"), "TRUE");
    assert_eq!(evaluate_formula_string("=OR({1,1,1})"), "TRUE");
    assert_eq!(evaluate_formula_string("=XOR({1,0,1})"), "FALSE");
    assert_eq!(evaluate_formula_string("=XOR({0,1,0})"), "TRUE");
    assert_eq!(evaluate_formula_string("=XOR({0,0,0})"), "FALSE");
}

#[test]
fn it_evaluate_iterator_with_diffrent_number_of_entries() {
    assert_eq!(evaluate_formula_string("={0,0}+{1,2,3}"), "{1,2,#ARG!}");
    assert_eq!(evaluate_formula_string("={0,0}*{1,2,3}"), "{0,0,#ARG!}");
    assert_eq!(evaluate_formula_string("={1,2,3}/{0,0}"), "{#DIV/0!,#DIV/0!,#ARG!}");
    assert_eq!(evaluate_formula_string("={0,0}+{1,\"Hi\"}"), "{1,#CAST!}");
}

#[test]
fn it_evaluate_date() {
    let start: DateTime<FixedOffset> =
        DateTime::parse_from_rfc3339("2019-03-01T02:00:00.000Z").unwrap();
    let end: DateTime<FixedOffset> =
        DateTime::parse_from_rfc3339("2019-08-30T02:00:00.000Z").unwrap();
    let mut b = Bindings::new();
    calculate::bind_value(&mut b, "start", Value::Date(ts(start)));
    calculate::bind_value(&mut b, "end", Value::Date(ts(end)));
    assert_eq!(evaluate_formula_number_with_reference("=DAYS(end, start)", Some(&b)), 182.00);
    assert_eq!(evaluate_formula_number_with_reference("=days(end, start)", Some(&b)), 182.00);
    assert_eq!(
        evaluate_formula_date_with_reference("=start + 1", Some(&b)),
        (start + Duration::days(1)).to_string()
    );
    assert_eq!(
        evaluate_formula_date_with_reference("=end-3", Some(&b)),
        (end - Duration::days(3)).to_string()
    );
    assert_eq!(
        evaluate_formula_date_with_reference("=year(end)", Some(&b)),
        end.year().to_string()
    );
    assert_eq!(
        evaluate_formula_date_with_reference("=month(end)", Some(&b)),
        end.month().to_string()
    );
    assert_eq!(
        evaluate_formula_date_with_reference("=day(end)", Some(&b)),
        end.day().to_string()
    );
    assert_eq!(evaluate_formula_date_with_reference("=year(end, 2)", Some(&b)), "#REF!");
    assert_eq!(evaluate_formula_date_with_reference("=month(end, 2)", Some(&b)), "#REF!");
    assert_eq!(evaluate_formula_date_with_reference("=day(end, 2)", Some(&b)), "#REF!");
}

struct DemoFns;

impl CustomFunctions for DemoFns {
    fn call(&self, name: &str, args: &Vec<Num>) -> Value {
        match name {
            "Increase" => Value::Number(add_num(args[0], Num::from_i64(1))),
            "SimpleSum" => Value::Number(add_num(args[0], args[1])),
            "CustomSum" => Value::Number(add_num(add_num(args[0], args[1]), args[2])),
            "EqualFive" => num(5),
            "CountText" => Value::Text("10".to_string()),
            "CountNumber" => num(20),
            _ => Value::Error(Error::Value),
        }
    }
}

#[test]
fn it_evaluate_custom_functions_() {
    let cf = DemoFns;
    assert_eq!(evaluate_formula_number_with_custom_function("=Increase(1)", Some(&cf)), 2.0);
    assert_eq!(evaluate_formula_number_with_custom_function("=SimpleSum(1,2)", Some(&cf)), 3.0);
    assert_eq!(evaluate_formula_number_with_custom_function("=CustomSum(1,2,3)", Some(&cf)), 6.0);
    assert_eq!(evaluate_formula_number_with_custom_function("=EqualFive()+1", Some(&cf)), 6.0);
    assert_eq!(
        evaluate_formula_string_with_custom_function("=\"P\"&CountText()", Some(&cf)),
        "P10"
    );
    assert_eq!(
        evaluate_formula_string_with_custom_function("=\"P\"&CountNumber()", Some(&cf)),
        "P20"
    );
}

#[test]
fn it_evaluate_left_and_right_functions() {
    assert_eq!(evaluate_formula_string("=RIGHT(\"apple\", 3)"), "ple");
    assert_eq!(evaluate_formula_string("=RIGHT(\"apple\")"), "e");
    assert_eq!(evaluate_formula_string("=\"P\"&RIGHT(\"000\"&1,3)"), "P001");
    assert_eq!(evaluate_formula_string("=LEFT(\"apple\", 3)"), "app");
    assert_eq!(evaluate_formula_string("=LEFT(\"apple\")"), "a");
    assert_eq!(evaluate_formula_string("=\"P\"&LEFT(\"000\"&1,3)"), "P000");
    assert_eq!(evaluate_formula_string("=LEFT(\"apple\", 10)"), "apple");
    assert_eq!(evaluate_formula_string("=RIGHT(\"apple\", 10)"), "apple");
}

fn refs_ab() -> Bindings {
    let mut b = Bindings::new();
    calculate::bind_value(&mut b, "A", num(1));
    calculate::bind_value(&mut b, "B", Value::Blank);
    b
}

#[test]
fn it_evaluates_blanks() {
    let b = refs_ab();
    assert_eq!(evaluate_formula_number_with_reference("=SUM(A,B)", Some(&b)), 1.0);
    assert_eq!(evaluate_formula_number_with_reference("=A+B", Some(&b)), 1.0);
    assert_eq!(
        evaluate_formula_value_with_reference("=SUM(A,C)", Some(&b)),
        Value::Error(Error::Value)
    );
    assert_eq!(evaluate_formula_number_with_reference("=AVERAGE(A,B)", Some(&b)), 1.0);
    assert_eq!(evaluate_formula_number_with_reference("=SUM(A,B,2,3,B)", Some(&b)), 6.0);
    assert_eq!(evaluate_formula_number_with_reference("=AVERAGE(A,B,2,3,B)", Some(&b)), 2.0);
    assert_eq!(evaluate_formula_number_with_reference("=PRODUCT(A,B)", Some(&b)), 1.0);
    assert_eq!(evaluate_formula_number_with_reference("=PRODUCT(1,B,B,B,A,2)", Some(&b)), 2.0);
    assert_eq!(evaluate_formula_number_with_reference("=1+B+B+B", Some(&b)), 1.0);
}

fn refs_b() -> Bindings {
    let mut b = Bindings::new();
    calculate::bind_value(&mut b, "B", Value::Blank);
    b
}

#[test]
fn it_evaluates_blanks_only() {
    let b = refs_b();
    assert_eq!(evaluate_formula_number_with_reference("=SUM(B)", Some(&b)), 0.0);
    assert_eq!(evaluate_formula_string_with_reference("=AVERAGE(B)", Some(&b)), "#DIV/0!");
    assert_eq!(evaluate_formula_number_with_reference("=PRODUCT(B)", Some(&b)), 0.0);
    assert_eq!(evaluate_formula_number_with_reference("=B", Some(&b)), 0.0);
    assert_eq!(evaluate_formula_number_with_reference("=-B", Some(&b)), 0.0);
}

#[test]
fn it_evaluates_blanks_when_blank_in_first_position() {
    let b = refs_ab();
    assert_eq!(evaluate_formula_number_with_reference("=SUM(B,A)", Some(&b)), 1.0);
    assert_eq!(evaluate_formula_number_with_reference("=B+A", Some(&b)), 1.0);
    assert_eq!(evaluate_formula_number_with_reference("=AVERAGE(B,A)", Some(&b)), 1.0);
    assert_eq!(evaluate_formula_number_with_reference("=SUM(B,2,3,B)", Some(&b)), 5.0);
    assert_eq!(evaluate_formula_number_with_reference("=AVERAGE(B,2,3,B)", Some(&b)), 2.5);
    assert_eq!(evaluate_formula_number_with_reference("=PRODUCT(B,A)", Some(&b)), 1.0);
    assert_eq!(evaluate_formula_number_with_reference("=PRODUCT(B,A,B)", Some(&b)), 1.0);
    assert_eq!(evaluate_formula_number_with_reference("=PRODUCT(B,B,B)", Some(&b)), 0.0);
    assert_eq!(evaluate_formula_number_with_reference("=PRODUCT(B,B,B,A,2)", Some(&b)), 2.0);
    assert_eq!(evaluate_formula_number_with_reference("=B+B+B", Some(&b)), 0.0);
}

#[test]
fn it_evaluates_blanks_in_abs_function() {
    let b = refs_b();
    assert_eq!(evaluate_formula_number_with_reference("=ABS(B)", Some(&b)), 0.0);
    assert_eq!(evaluate_formula_number_with_reference("=ABS(-B)", Some(&b)), 0.0);
}

#[test]
fn it_evaluates_blanks_in_days_function() {
    let start: DateTime<FixedOffset> =
        DateTime::parse_from_rfc3339("2019-02-01T02:00:00.000Z").unwrap();
    let mut b = Bindings::new();
    calculate::bind_value(&mut b, "start", Value::Date(ts(start)));
    calculate::bind_value(&mut b, "B", Value::Blank);
    assert_eq!(evaluate_formula_number_with_reference("=DAYS(B, B)", Some(&b)), 0.00);
    assert_eq!(evaluate_formula_number_with_reference("=DAYS(start, B)", Some(&b)), 43495.0);
    assert_eq!(evaluate_formula_number_with_reference("=DAYS(B, start)", Some(&b)), -43495.0);
    assert_eq!(evaluate_formula_date_with_reference("=year(B)", Some(&b)), "#VALUE!");
    assert_eq!(evaluate_formula_date_with_reference("=month(B)", Some(&b)), "#VALUE!");
    assert_eq!(evaluate_formula_date_with_reference("=day(B)", Some(&b)), "#VALUE!");
}

#[test]
fn it_evaluates_blanks_with_operators() {
    let b = refs_b();
    assert_eq!(evaluate_formula_number_with_reference("=1-B", Some(&b)), 1.0);
    assert_eq!(evaluate_formula_number_with_reference("=B-1", Some(&b)), -1.0);
    assert_eq!(evaluate_formula_number_with_reference("=1+B", Some(&b)), 1.0);
    assert_eq!(evaluate_formula_number_with_reference("=B+1", Some(&b)), 1.0);
    assert_eq!(evaluate_formula_string_with_reference("=1/B", Some(&b)), "#DIV/0!");
    assert_eq!(evaluate_formula_number_with_reference("=B/1", Some(&b)), 0.0);
    assert_eq!(evaluate_formula_number_with_reference("=1*B", Some(&b)), 0.0);
    assert_eq!(evaluate_formula_number_with_reference("=B*1", Some(&b)), 0.0);
    assert_eq!(evaluate_formula_number_with_reference("=1^B", Some(&b)), 1.0);
    assert_eq!(evaluate_formula_number_with_reference("=B^1", Some(&b)), 0.0);
}

#[test]
fn it_evaluates_blanks_with_operators_and_reference() {
    let b = refs_ab();
    assert_eq!(evaluate_formula_number_with_reference("=A-B", Some(&b)), 1.0);
    assert_eq!(evaluate_formula_number_with_reference("=B-A", Some(&b)), -1.0);
    assert_eq!(evaluate_formula_number_with_reference("=A+B", Some(&b)), 1.0);
    assert_eq!(evaluate_formula_number_with_reference("=B+A", Some(&b)), 1.0);
    assert_eq!(evaluate_formula_string_with_reference("=A/B", Some(&b)), "#DIV/0!");
    assert_eq!(evaluate_formula_number_with_reference("=B/A", Some(&b)), 0.0);
    assert_eq!(evaluate_formula_number_with_reference("=A*B", Some(&b)), 0.0);
    assert_eq!(evaluate_formula_number_with_reference("=B*A", Some(&b)), 0.0);
    assert_eq!(evaluate_formula_number_with_reference("=A^B", Some(&b)), 1.0);
    assert_eq!(evaluate_formula_number_with_reference("=B^A", Some(&b)), 0.0);
}

fn refs_tbf() -> Bindings {
    let mut b = Bindings::new();
    calculate::bind_value(&mut b, "T", Value::Boolean(Boolean::True));
    calculate::bind_value(&mut b, "B", Value::Blank);
    calculate::bind_value(&mut b, "F", Value::Boolean(Boolean::False));
    b
}

#[test]
fn it_evaluates_blanks_in_boolean_operations() {
    let b = refs_tbf();
    assert_eq!(evaluate_formula_boolean_with_reference("=AND(T,B)", Some(&b)), "TRUE");
    assert_eq!(evaluate_formula_boolean_with_reference("=OR(T,B)", Some(&b)), "TRUE");
    assert_eq!(evaluate_formula_boolean_with_reference("=NOT(B)", Some(&b)), "TRUE");
    assert_eq!(evaluate_formula_boolean_with_reference("=AND(F,B)", Some(&b)), "FALSE");
    assert_eq!(evaluate_formula_boolean_with_reference("=OR(F,B)", Some(&b)), "FALSE");
    assert_eq!(evaluate_formula_boolean_with_reference("=OR(T,B,F,B)", Some(&b)), "TRUE");
    assert_eq!(evaluate_formula_boolean_with_reference("=OR(F,B,T,B)", Some(&b)), "TRUE");
    assert_eq!(evaluate_formula_boolean_with_reference("=AND(T,B,F,B)", Some(&b)), "FALSE");
    assert_eq!(evaluate_formula_boolean_with_reference("=AND(F,B,T,B)", Some(&b)), "FALSE");
    assert_eq!(evaluate_formula_boolean_with_reference("=XOR(T,B)", Some(&b)), "TRUE");
    assert_eq!(evaluate_formula_boolean_with_reference("=XOR(F,B)", Some(&b)), "FALSE");
    assert_eq!(evaluate_formula_boolean_with_reference("=XOR(T,B,F,B)", Some(&b)), "TRUE");
    assert_eq!(evaluate_formula_boolean_with_reference("=XOR(F,B,T,B)", Some(&b)), "TRUE");
    assert_eq!(evaluate_formula_boolean_with_reference("=XOR(T,B,F,B,T)", Some(&b)), "FALSE");
    assert_eq!(evaluate_formula_boolean_with_reference("=XOR(F,B,T,B,F)", Some(&b)), "TRUE");
}

#[test]
fn evaluate_invalid_reference_in_functions() {
    let b = Bindings::new();
    assert_eq!(
        evaluate_formula_value_with_reference("=AND(T, NO_REFERENCE)", Some(&b)),
        Value::Error(Error::Value)
    );
    assert_eq!(
        evaluate_formula_boolean_with_reference("=AND(T, NO_REFERENCE)", Some(&b)),
        "#VALUE!"
    );
}

#[test]
fn it_evaluates_blanks_in_comparison_operators() {
    let b = refs_b();
    assert_eq!(evaluate_formula_string_with_reference("=B=B", Some(&b)), "TRUE");
    assert_eq!(evaluate_formula_string_with_reference("=1=B", Some(&b)), "FALSE");
    assert_eq!(evaluate_formula_string_with_reference("=B=1", Some(&b)), "FALSE");
    assert_eq!(evaluate_formula_string_with_reference("=1>B", Some(&b)), "FALSE");
    assert_eq!(evaluate_formula_string_with_reference("=B>1", Some(&b)), "FALSE");
    assert_eq!(evaluate_formula_string_with_reference("=0=B", Some(&b)), "FALSE");
    assert_eq!(evaluate_formula_string_with_reference("=B=0", Some(&b)), "FALSE");
    assert_eq!(evaluate_formula_boolean_with_reference("=B=\"\"", Some(&b)), "TRUE");
    assert_eq!(evaluate_formula_boolean_with_reference("=\"\"=B", Some(&b)), "TRUE");
    assert_eq!(evaluate_formula_boolean_with_reference("=\"something\"=B", Some(&b)), "FALSE");
    assert_eq!(evaluate_formula_string_with_reference("=B='test'", Some(&b)), "FALSE");
    assert_eq!(evaluate_formula_string_with_reference("='test'=B", Some(&b)), "FALSE");
}

#[test]
fn it_evaluates_blanks_in_comparison_operators_with_references() {
    let mut b = Bindings::new();
    calculate::bind_value(&mut b, "A", num(-2));
    calculate::bind_value(&mut b, "B", Value::Blank);
    assert_eq!(evaluate_formula_string_with_reference("=A>=B", Some(&b)), "FALSE");
    assert_eq!(evaluate_formula_string_with_reference("=B>=A", Some(&b)), "FALSE");
    assert_eq!(evaluate_formula_string_with_reference("=A<B", Some(&b)), "FALSE");
    assert_eq!(evaluate_formula_string_with_reference("=B<A", Some(&b)), "FALSE");
}

#[test]
fn it_evaluates_blanks_string_operations() {
    let mut b = Bindings::new();
    calculate::bind_value(&mut b, "A", num(-2));
    calculate::bind_value(&mut b, "B", Value::Blank);
    assert_eq!(evaluate_formula_string_with_reference("=\"Hello\"&B", Some(&b)), "Hello");
    assert_eq!(evaluate_formula_string_with_reference("=B&\"Hello\"", Some(&b)), "Hello");
    assert_eq!(evaluate_formula_string_with_reference("=B&B", Some(&b)), "");
    assert_eq!(evaluate_formula_string_with_reference("=RIGHT(B)", Some(&b)), "");
    assert_eq!(evaluate_formula_string_with_reference("=LEFT(B)", Some(&b)), "");
}

struct BlankFns;

impl CustomFunctions for BlankFns {
    fn call(&self, name: &str, _args: &Vec<Num>) -> Value {
        match name {
            "BLANK" => Value::Blank,
            _ => Value::Error(Error::Value),
        }
    }
}

#[test]
fn it_evaluates_blank_constructors() {
    let cf = BlankFns;
    assert_eq!(evaluate_formula_number_with_custom_function("=SUM(BLANK())", Some(&cf)), 0.0);
    assert_eq!(evaluate_formula_number_with_custom_function("=SUM(BLANK(), 1)", Some(&cf)), 1.0);
    assert_eq!(
        evaluate_formula_number_with_custom_function("=PRODUCT(BLANK(), 1)", Some(&cf)),
        1.0
    );
    assert_eq!(
        evaluate_formula_number_with_custom_function("=AVERAGE(BLANK(), 1)", Some(&cf)),
        1.0
    );
    assert_eq!(evaluate_formula_number_with_custom_function("=BLANK()+1", Some(&cf)), 1.0);
    assert_eq!(evaluate_formula_number_with_custom_function("=BLANK()*1", Some(&cf)), 0.0);
}

#[test]
fn it_evaluates_blank_in_iterators() {
    let mut b = Bindings::new();
    calculate::bind_value(&mut b, "A", num(100));
    calculate::bind_value(
        &mut b,
        "Array",
        Value::Iterator(vec![num(100), Value::Blank, Value::Blank]),
    );
    calculate::bind_value(&mut b, "B", Value::Blank);
    assert_eq!(evaluate_formula_number_with_reference("=AVERAGE({A, B, B})", Some(&b)), 100.0);
    assert_eq!(evaluate_formula_number_with_reference("=AVERAGE({A, B})", Some(&b)), 100.0);
    assert_eq!(evaluate_formula_number_with_reference("=AVERAGE({B, A, B})", Some(&b)), 100.0);
    assert_eq!(evaluate_formula_number_with_reference("=AVERAGE(Array)", Some(&b)), 100.0);
    assert_eq!(evaluate_formula_number_with_reference("=SUM({A, B, B})", Some(&b)), 100.0);
    assert_eq!(evaluate_formula_number_with_reference("=SUM({A, B})", Some(&b)), 100.0);
    assert_eq!(evaluate_formula_number_with_reference("=SUM({B, A, B})", Some(&b)), 100.0);
    assert_eq!(evaluate_formula_number_with_reference("=SUM(Array)", Some(&b)), 100.0);
    assert_eq!(evaluate_formula_number_with_reference("=PRODUCT({A, B, B})", Some(&b)), 100.0);
    assert_eq!(evaluate_formula_number_with_reference("=PRODUCT({A, B})", Some(&b)), 100.0);
    assert_eq!(evaluate_formula_number_with_reference("=PRODUCT({B, A, B})", Some(&b)), 100.0);
    assert_eq!(evaluate_formula_number_with_reference("=PRODUCT(Array)", Some(&b)), 100.0);
}

#[test]
fn it_evaluates_blank_with_iterators_in_boolean_operations() {
    let b = refs_tbf();
    assert_eq!(evaluate_formula_boolean_with_reference("=AND({T,B})", Some(&b)), "TRUE");
    assert_eq!(evaluate_formula_boolean_with_reference("=OR({T,B})", Some(&b)), "TRUE");
    assert_eq!(evaluate_formula_boolean_with_reference("=AND({F,B})", Some(&b)), "FALSE");
    assert_eq!(evaluate_formula_boolean_with_reference("=OR({F,B})", Some(&b)), "FALSE");
    assert_eq!(evaluate_formula_boolean_with_reference("=OR({T,B,F,B})", Some(&b)), "TRUE");
    assert_eq!(evaluate_formula_boolean_with_reference("=OR({F,B,T,B})", Some(&b)), "TRUE");
    assert_eq!(evaluate_formula_boolean_with_reference("=AND({T,B,F,B})", Some(&b)), "FALSE");
    assert_eq!(evaluate_formula_boolean_with_reference("=AND({F,B,T,B})", Some(&b)), "FALSE");
    assert_eq!(evaluate_formula_boolean_with_reference("=XOR({T,B})", Some(&b)), "TRUE");
    assert_eq!(evaluate_formula_boolean_with_reference("=XOR({F,B})", Some(&b)), "FALSE");
    assert_eq!(evaluate_formula_boolean_with_reference("=XOR({T,B,F,B})", Some(&b)), "TRUE");
    assert_eq!(evaluate_formula_boolean_with_reference("=XOR({F,B,T,B})", Some(&b)), "TRUE");
    assert_eq!(evaluate_formula_boolean_with_reference("=XOR({T,B,F,B,T})", Some(&b)), "FALSE");
    assert_eq!(evaluate_formula_boolean_with_reference("=XOR({F,B,T,B,F})", Some(&b)), "TRUE");
    assert_eq!(
        evaluate_formula_boolean_with_reference("=XOR({F,B,T,B,F,{F,B,T,B,F}})", Some(&b)),
        "FALSE"
    );
}

#[test]
fn it_evaluates_formulas_with_3_params() {
    assert_eq!(evaluate_formula_number("=IF()"), 0.0);
    assert_eq!(evaluate_formula_number("=IF( )"), 0.0);
    assert_eq!(evaluate_formula_number("=IF(,)"), 0.0);
    assert_eq!(evaluate_formula_number("=IF( ,)"), 0.0);
    assert_eq!(evaluate_formula_number("=IF(, )"), 0.0);
    assert_eq!(evaluate_formula_number("=IF( , )"), 0.0);
    assert_eq!(evaluate_formula_number("=IF(,,)"), 0.0);
    assert_eq!(evaluate_formula_number("=IF(, ,)"), 0.0);
    assert_eq!(evaluate_formula_number("=IF(,,)"), 0.0);
    assert_eq!(evaluate_formula_number("=IF(,, )"), 0.0);
    assert_eq!(evaluate_formula_number("=IF(1,,)"), 0.0);
    assert_eq!(evaluate_formula_number("=IF(1,2,)"), 2.0);
    assert_eq!(evaluate_formula_number("=IF(1,2)"), 2.0);
    assert_eq!(evaluate_formula_number("=IF(0,2,)"), 0.0);
    assert_eq!(evaluate_formula_number("=IF(0,2)"), 0.0);
    assert_eq!(evaluate_formula_number("=IF(0,,3)"), 3.0);
    assert_eq!(evaluate_formula_number("=IF(1,,3)"), 0.0);
    assert_eq!(evaluate_formula_number("=IF(0,2,3)"), 3.0);
    assert_eq!(evaluate_formula_number("=IF(,2,)"), 0.0);
    assert_eq!(evaluate_formula_number("=IF(,2)"), 0.0);
    assert_eq!(evaluate_formula_number("=IF(,2,3)"), 3.0);
    assert_eq!(evaluate_formula_number("=IF(,,3)"), 3.0);
}

#[test]
fn it_evaluates_if_formulas() {
    assert_eq!(evaluate_formula_number("=IF(TRUE,1,0)"), 1.0);
    assert_eq!(evaluate_formula_number("=IF(FALSE,1,0)"), 0.0);
    assert_eq!(evaluate_formula_string("=IF(TRUE,\"a\",0)"), "a");
    assert_eq!(evaluate_formula_number("=IF(FALSE,\"a\",0)"), 0.0);
    assert_eq!(evaluate_formula_number("=IF(1=1,1,0)"), 1.0);
    assert_eq!(evaluate_formula_number("=IF(1=2,1,0)"), 0.0);
    assert_eq!(evaluate_formula_number("=IF(AND(TRUE,FALSE),1,0)"), 0.0);
    assert_eq!(evaluate_formula_number("=IF(TRUE,IF(FALSE,1,2),0)"), 2.0);
    assert_eq!(evaluate_formula_number("=IF(2,1,0)"), 1.0);
    assert_eq!(evaluate_formula_number("=IF(-1,1,0)"), 1.0);
    assert_eq!(evaluate_formula_number("=IF(0,1,0)"), 0.0);
    assert_eq!(evaluate_formula_number("=IF(TRUE,1+2+3,0)"), 6.0);
    assert_eq!(evaluate_formula_number("=IF(FALSE,1)"), 0.0);
    assert_eq!(evaluate_formula_number("=IF(FALSE,1,)"), 0.0);
    assert_eq!(evaluate_formula_number("=IF(TRUE,,1)"), 0.0);
    assert_eq!(evaluate_formula_number("=IF(TRUE, ,1)"), 0.0);
    assert_eq!(evaluate_formula_string("=IF(TRUE,TRUE,FALSE)"), "TRUE");
    assert_eq!(evaluate_formula_string("=IF( TRUE , TRUE , FALSE )"), "TRUE");
    assert_eq!(evaluate_formula_string("=IF(TRUE , TRUE, FALSE )"), "TRUE");
    assert_eq!(evaluate_formula_number("=IF(1,IF(FALSE,1,2),0)"), 2.0);
    assert_eq!(evaluate_formula_number("=IF(1=0,IF(FALSE,1,2),IF(TRUE,1,2))"), 1.0);
    assert_eq!(evaluate_formula_string("=IF(1/0,IF(FALSE,1,2),0)"), "#DIV/0!");
    assert_eq!(evaluate_formula_string("=IF(\"text\",1,0)"), "#VALUE!");

    let date1: DateTime<FixedOffset> =
        DateTime::parse_from_rfc3339("2019-03-01T02:00:00.000Z").unwrap();
    let date2: DateTime<FixedOffset> =
        DateTime::parse_from_rfc3339("2019-08-30T02:00:00.000Z").unwrap();
    let mut b = Bindings::new();
    calculate::bind_value(&mut b, "date1", Value::Date(ts(date1)));
    calculate::bind_value(&mut b, "date2", Value::Date(ts(date2)));
    assert_eq!(evaluate_formula_number_with_reference("=IF(date1=date2,1,0)", Some(&b)), 0.0);
    assert_eq!(evaluate_formula_number_with_reference("=IF(date1<>date2,1,0)", Some(&b)), 1.0);
    assert_eq!(evaluate_formula_number_with_reference("=IF(date1<date2,1,0)", Some(&b)), 1.0);
    assert_eq!(evaluate_formula_number_with_reference("=IF(date1>date2,1,0)", Some(&b)), 0.0);
    assert_eq!(evaluate_formula_number_with_reference("=IF(date1<=date2,1,0)", Some(&b)), 1.0);
    assert_eq!(evaluate_formula_number_with_reference("=IF(date1>=date2,1,0)", Some(&b)), 0.0);
}

#[test]
fn it_evaluates_if_formulas_with_text() {
    let mut b = Bindings::new();
    calculate::bind_value(&mut b, "ReferenceKey", Value::Text("100".to_string()));
    calculate::bind_value(&mut b, "ReferenceName", Value::Text("Test".to_string()));
    assert_eq!(
        evaluate_formula_string_with_reference(
            "=IF(ReferenceKey=\"10\",\"\",ReferenceKey&\" - \")&ReferenceName",
            Some(&b)
        ),
        "100 - Test"
    );
}

#[test]
fn it_evaluates_isblank_function() {
    let mut b = Bindings::new();
    calculate::bind_value(&mut b, "ReferenceName", Value::Text("Test".to_string()));
    assert_eq!(evaluate_formula_string_with_reference("=ISBLANK(ReferenceKey)", Some(&b)), "TRUE");
    assert_eq!(
        evaluate_formula_string_with_reference("=ISBLANK(ReferenceName)", Some(&b)),
        "FALSE"
    );
}

#[test]
fn test_inner_function_with_whitespace() {
    let mut b = Bindings::new();
    calculate::bind_value(&mut b, "any_dropdowns", num(1));
    calculate::bind_value(&mut b, "primary_carrier", Value::Text("Allianz*".to_string()));
    assert_eq!(
        evaluate_formula_boolean_with_reference(
            "=AND(RIGHT(primary_carrier, 1)=\"*\", 1 > 0)",
            Some(&b)
        ),
        "TRUE"
    );
}

#[test]
fn test_zero_padding() {
    let mut b = Bindings::new();
    calculate::bind_value(&mut b, "num", num(91));
    assert_eq!(
        evaluate_formula_boolean_with_reference("=RIGHT(\"00000000\" & num, 8)", Some(&b)),
        "00000091"
    );
}
