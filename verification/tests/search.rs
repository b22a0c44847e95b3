use xlformula_engine::calculate;
use xlformula_engine::parse_formula;
use xlformula_engine::parse_formula::NoCustomFunction;

fn eval(s: &str) -> String {
    let f = parse_formula::parse_string_to_formula(s, None::<&NoCustomFunction>);
    calculate::result_to_string(calculate::calculate_formula(f, None))
}

#[test]
fn search_case_insensitive() {
    assert_eq!(eval(r#"=SEARCH("m","MiriamMcGovern")"#), "1");
    assert_eq!(eval(r#"=SEARCH("M","MiriamMcGovern")"#), "1");
    assert_eq!(eval(r#"=SEARCH("gloves","Gloves (Youth)")"#), "1");
    assert_eq!(eval(r#"=SEARCH("M","abc")"#), "#VALUE!");
}

#[test]
fn search_wildcard_question() {
    assert_eq!(eval(r#"=SEARCH("sm?th","smith")"#), "1");
    assert_eq!(eval(r#"=SEARCH("sm?th","smyth")"#), "1");
}

#[test]
fn search_wildcard_star() {
    assert_eq!(eval(r#"=SEARCH("*east","Northeast")"#), "6");
}

#[test]
fn search_literal_tilde() {
    assert_eq!(eval(r#"=SEARCH("~?","a?b")"#), "2");
}

#[test]
fn search_empty_find_text() {
    assert_eq!(eval(r#"=SEARCH("","abc")"#), "1");
    assert_eq!(eval(r#"=SEARCH("","abc",2)"#), "2");
    assert_eq!(eval(r#"=SEARCH("","abc",4)"#), "#VALUE!");
}

#[test]
fn search_not_found() {
    assert_eq!(eval(r#"=SEARCH("x","abc")"#), "#VALUE!");
}

#[test]
fn search_start_num_bounds() {
    assert_eq!(eval(r#"=SEARCH("a","abc",0)"#), "#VALUE!");
    assert_eq!(eval(r#"=SEARCH("a","abc",-1)"#), "#VALUE!");
    assert_eq!(eval(r#"=SEARCH("a","abc",4)"#), "#VALUE!");
}

#[test]
fn search_f32() {
    assert_eq!(eval(r#"=SEARCH("m","Miriam")"#), "1");
}
