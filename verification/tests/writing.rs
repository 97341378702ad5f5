use term_syntax::language::read_term;
use term_syntax::printer::{has_list_shape, has_string_shape};
use term_syntax::term::{File, Oper, Rule, Term};

fn num(numb: u64) -> Box<Term> {
    Box::new(Term::Num { numb })
}

fn var(name: &str) -> Box<Term> {
    Box::new(Term::Var { name: name.to_string() })
}

fn ctr(name: &str, args: Vec<Box<Term>>) -> Box<Term> {
    Box::new(Term::Ctr { name: name.to_string(), args })
}

fn app(func: Box<Term>, argm: Box<Term>) -> Box<Term> {
    Box::new(Term::App { func, argm })
}

#[test]
fn writes_a_list() {
    let term = read_term("[1,2,3]").unwrap();
    assert_eq!(term.to_string(), "[1, 2, 3]");
}

#[test]
fn writes_a_string() {
    let term = read_term("\"ab\"").unwrap();
    assert_eq!(term.to_string(), "\"ab\"");
    let term = read_term("`λ x`").unwrap();
    assert_eq!(term.to_string(), "\"λ x\"");
}

#[test]
fn writes_the_empty_list_and_the_empty_string() {
    let term = read_term("[]").unwrap();
    assert_eq!(term, ctr("Nil", vec![]));
    assert_eq!(term.to_string(), "[]");
    assert_eq!(ctr("StrNil", vec![]).to_string(), "\"\"");
}

#[test]
fn writes_a_cons_of_three_as_a_constructor() {
    let term = ctr("Cons", vec![var("a"), var("b"), var("c")]);
    assert_eq!(term.to_string(), "(Cons a b c)");
    assert_eq!(ctr("Cons", vec![var("a")]).to_string(), "(Cons a)");
    assert_eq!(ctr("Nil", vec![var("a")]).to_string(), "(Nil a)");
    assert_eq!(ctr("StrNil", vec![num(1)]).to_string(), "(StrNil 1)");
}

#[test]
fn writes_an_open_chain_as_constructors() {
    let term = ctr("Cons", vec![num(1), ctr("Cons", vec![num(2), var("rest")])]);
    assert_eq!(term.to_string(), "(Cons 1 (Cons 2 rest))");
    let term = ctr("StrCons", vec![num(97), ctr("StrCons", vec![num(98), var("rest")])]);
    assert_eq!(term.to_string(), "(StrCons 97 (StrCons 98 rest))");
}

#[test]
fn writes_a_chain_with_a_closed_tail_partly_as_a_literal() {
    let term = ctr("Cons", vec![num(1), ctr("Cons", vec![num(2), ctr("Nil", vec![]), num(3)])]);
    assert_eq!(term.to_string(), "(Cons 1 (Cons 2 [] 3))");
}

#[test]
fn writes_a_string_only_of_character_codes() {
    let no_code = ctr("StrCons", vec![var("x"), ctr("StrNil", vec![])]);
    assert_eq!(no_code.to_string(), "(StrCons x \"\")");
    let too_large = ctr("StrCons", vec![num(0x110000), ctr("StrNil", vec![])]);
    assert_eq!(too_large.to_string(), "(StrCons 1114112 \"\")");
    let surrogate = ctr("StrCons", vec![num(0xD800), ctr("StrNil", vec![])]);
    assert_eq!(surrogate.to_string(), "(StrCons 55296 \"\")");
    let wide = ctr("StrCons", vec![num(0x1_0000_0061), ctr("StrNil", vec![])]);
    assert_eq!(wide.to_string(), "(StrCons 4294967393 \"\")");
    let last = ctr("StrCons", vec![num(0x10FFFF), ctr("StrNil", vec![])]);
    assert_eq!(last.to_string(), "\"\u{10FFFF}\"");
}

#[test]
fn writes_lists_within_lists() {
    let term = read_term("[[1, 2], [], \"hi\", (F [x])]").unwrap();
    assert_eq!(term.to_string(), "[[1, 2], [], \"hi\", (F [x])]");
}

#[test]
fn tells_the_shape_of_lists_and_strings() {
    assert!(has_list_shape(&read_term("[1, x]").unwrap()));
    assert!(!has_list_shape(&read_term("\"ab\"").unwrap()));
    assert!(!has_list_shape(&ctr("Cons", vec![num(1), var("x")])));
    assert!(!has_list_shape(&num(1)));
    assert!(has_string_shape(&read_term("\"ab\"").unwrap()));
    assert!(!has_string_shape(&read_term("[97, 98]").unwrap()));
    assert!(!has_string_shape(&ctr("StrCons", vec![num(97), ctr("Nil", vec![])])));
    assert!(!has_string_shape(&var("x")));
}

#[test]
fn writes_a_run_of_applications_flat() {
    let term = app(app(app(var("f"), var("a")), var("b")), app(var("g"), var("c")));
    assert_eq!(term.to_string(), "(f a b (g c))");
}

#[test]
fn writes_constructors_with_their_arguments() {
    assert_eq!(ctr("Unit", vec![]).to_string(), "(Unit)");
    assert_eq!(ctr("Pair", vec![num(1), ctr("Unit", vec![])]).to_string(), "(Pair 1 (Unit))");
}

#[test]
fn writes_binders_and_operations() {
    let term = Term::Let {
        name: "x".to_string(),
        expr: Box::new(Term::Op2 { oper: Oper::Shl, val0: num(1), val1: num(4) }),
        body: Box::new(Term::Lam { name: "y".to_string(), body: var("x") }),
    };
    assert_eq!(term.to_string(), "let x = (<< 1 4); λy x");
    let dup = Term::Dup {
        nam0: "a".to_string(),
        nam1: "b".to_string(),
        expr: var("x"),
        body: app(var("a"), var("b")),
    };
    assert_eq!(dup.to_string(), "dup a b = x; (a b)");
}

#[test]
fn writes_numbers_in_decimal() {
    assert_eq!(num(0).to_string(), "0");
    assert_eq!(num(9).to_string(), "9");
    assert_eq!(num(10).to_string(), "10");
    assert_eq!(num(1234567890).to_string(), "1234567890");
    assert_eq!(num(u64::MAX).to_string(), "18446744073709551615");
}

#[test]
fn appends_to_what_is_written_already() {
    let mut out = String::from("term: ");
    app(var("f"), num(1)).write(&mut out);
    assert_eq!(out, "term: (f 1)");
    let rule = Rule { lhs: ctr("Id", vec![var("x")]), rhs: var("x") };
    rule.write(&mut out);
    assert_eq!(out, "term: (f 1)(Id x) = x");
}

#[test]
fn writes_rules_and_files() {
    let first = Rule { lhs: ctr("Id", vec![var("x")]), rhs: var("x") };
    let second = Rule { lhs: ctr("Zero", vec![]), rhs: num(0) };
    assert_eq!(first.to_string(), "(Id x) = x");
    let file = File { rules: vec![first.clone(), second.clone()] };
    assert_eq!(file.to_string(), "(Id x) = x\n(Zero) = 0");
    assert_eq!(File { rules: vec![second] }.to_string(), "(Zero) = 0");
    assert_eq!(File { rules: vec![] }.to_string(), "");
}

#[test]
fn copies_terms_and_rules() {
    let term = read_term("let x = (F [1, \"a\"] λy (y x)); dup a b = x; (+ a b)").unwrap();
    let copy = term.clone();
    assert_eq!(copy, term);
    let rule = Rule { lhs: term, rhs: copy };
    assert_eq!(rule.clone(), rule);
}
