use xlformula_engine::calculate;
use xlformula_engine::parse_formula;
use xlformula_engine::parse_formula::NoCustomFunction;

fn eval(s: &str) -> String {
    let f = parse_formula::parse_string_to_formula(s, None::<&NoCustomFunction>);
    calculate::result_to_string(calculate::calculate_formula(f, None))
}

#[test]
fn find_basic() {
    assert_eq!(eval(r#"=FIND("a","abc")"#), "1");
    assert_eq!(eval(r#"=FIND("b","abc")"#), "2");
    assert_eq!(eval(r#"=FIND("c","abc")"#), "3");
}

#[test]
fn find_not_found() {
    assert_eq!(eval(r#"=FIND("x","abc")"#), "#VALUE!");
}

#[test]
fn find_from_position() {
    assert_eq!(eval(r#"=FIND("a","abc",2)"#), "#VALUE!");
    assert_eq!(eval(r#"=FIND("b","abc",2)"#), "2");
    assert_eq!(eval(r#"=FIND("Y","AYF0093.YoungMensApparel",8)"#), "9");
}

#[test]
fn find_empty_find_text() {
    assert_eq!(eval(r#"=FIND("","abc")"#), "1");
    assert_eq!(eval(r#"=FIND("","abc",2)"#), "2");
    assert_eq!(eval(r#"=FIND("","abc",4)"#), "#VALUE!");
}

#[test]
fn find_case_sensitive() {
    assert_eq!(eval(r#"=FIND("A","abc")"#), "#VALUE!");
    assert_eq!(eval(r#"=FIND("M","MiriamMcGovern",3)"#), "7");
}

#[test]
fn find_start_num_bounds() {
    assert_eq!(eval(r#"=FIND("a","abc",0)"#), "#VALUE!");
    assert_eq!(eval(r#"=FIND("a","abc",-1)"#), "#VALUE!");
    assert_eq!(eval(r#"=FIND("a","abc",4)"#), "#VALUE!");
}

#[test]
fn find_start_num_truncate() {
    assert_eq!(eval(r#"=FIND("b","abc",2.9)"#), "2");
}

#[test]
fn find_coercion() {
    assert_eq!(eval(r#"=FIND(1,"121")"#), "1");
    assert_eq!(eval(r#"=FIND(TRUE,"TRUEx")"#), "1");
    assert_eq!(eval(r#"=FIND("1","121",1)"#), "1");
}

#[test]
fn find_character_based() {
    assert_eq!(eval("=FIND(\"\u{f6}\",\"f\u{f6}\u{f6}\")"), "2");
}

#[test]
fn find_error_propagation() {
    assert_eq!(eval(r#"=FIND(1/0,"abc")"#), "#DIV/0!");
    assert_eq!(eval(r#"=FIND("a",1/0)"#), "#DIV/0!");
}

#[test]
fn find_f32() {
    assert_eq!(eval(r#"=FIND("a","abc")"#), "1");
    assert_eq!(eval(r#"=FIND("x","abc")"#), "#VALUE!");
}
