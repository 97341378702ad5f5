use term_syntax::language::{parse_file, parse_rule, read_file, read_rule};
use term_syntax::parser::State;
use term_syntax::term::{Oper, Rule, Term};

fn num(numb: u64) -> Box<Term> {
    Box::new(Term::Num { numb })
}

fn var(name: &str) -> Box<Term> {
    Box::new(Term::Var { name: name.to_string() })
}

fn ctr(name: &str, args: Vec<Box<Term>>) -> Box<Term> {
    Box::new(Term::Ctr { name: name.to_string(), args })
}

fn chars(text: &str) -> Vec<char> {
    text.chars().collect()
}

#[test]
fn reads_an_empty_file() {
    assert!(read_file("").unwrap().rules.is_empty());
    assert!(read_file(" \n // nothing here\n").unwrap().rules.is_empty());
}

#[test]
fn misses_a_definition_at_garbage() {
    let err = read_file("f = 1\ngarbage").unwrap_err();
    assert_eq!(err.label, "definition");
    assert_eq!(err.index, 6);
    assert_eq!(err.to_string(), "expected `definition` at offset 6");
}

#[test]
fn misses_a_definition_where_no_term_can_be_read() {
    let err = read_file("(Id x) = x\n  (= 1 2) = 3").unwrap_err();
    assert_eq!(err.label, "definition");
    assert_eq!(err.index, 13);
}

#[test]
fn fails_behind_the_equals_sign() {
    let err = read_file("(Id x) = x\n(Bad) = )").unwrap_err();
    assert_eq!(err.label, "Term");
    assert_eq!(err.index, 18);
    let err = read_rule("x = ").unwrap_err();
    assert_eq!(err.label, "Term");
    assert_eq!(err.index, 3);
}

#[test]
fn reads_the_rules_in_order() {
    let text = "// doubling\n(Double x) = (* x 2)\n\n(Main) = (Double 21)\n";
    let file = read_file(text).unwrap();
    assert_eq!(file.rules.len(), 2);
    assert_eq!(file.rules[0].lhs, ctr("Double", vec![var("x")]));
    assert_eq!(
        file.rules[0].rhs,
        Box::new(Term::Op2 { oper: Oper::Mul, val0: var("x"), val1: num(2) })
    );
    assert_eq!(file.rules[1].lhs, ctr("Main", vec![]));
    assert_eq!(file.rules[1].rhs, ctr("Double", vec![num(21)]));
    assert_eq!(file.to_string(), "(Double x) = (* x 2)\n(Main) = (Double 21)");
}

#[test]
fn reads_a_rule() {
    let rule = read_rule("(Double x) = (* x 2)").unwrap().unwrap();
    assert_eq!(rule.lhs, ctr("Double", vec![var("x")]));
    assert_eq!(rule.to_string(), "(Double x) = (* x 2)");
}

#[test]
fn finds_no_rule_without_a_left_hand_side() {
    assert_eq!(read_rule("").unwrap(), None);
    assert_eq!(read_rule("garbage").unwrap(), None);
    assert_eq!(read_rule("(+ 1").unwrap(), None);
    assert_eq!(read_rule("= 1").unwrap(), None);
}

#[test]
fn leaves_the_state_alone_where_there_is_no_rule() {
    let code = chars("  garbage");
    let (next, rule) = parse_rule(State::new(&code)).unwrap();
    assert_eq!(next.index, 0);
    assert_eq!(rule, None);
}

#[test]
fn stops_behind_the_rule() {
    let code = chars("f = 1 g = 2");
    let (next, rule) = parse_rule(State::new(&code)).unwrap();
    assert_eq!(next.index, 5);
    assert_eq!(rule, Some(Rule { lhs: var("f"), rhs: num(1) }));
    let (next, rule) = parse_rule(next).unwrap();
    assert_eq!(next.index, 11);
    assert_eq!(rule, Some(Rule { lhs: var("g"), rhs: num(2) }));
}

#[test]
fn reads_a_file_to_its_end() {
    let code = chars("f = 1 g = 2  ");
    let (next, file) = parse_file(State::new(&code)).unwrap();
    assert_eq!(next.index, 13);
    assert_eq!(file.rules.len(), 2);
}
