use term_syntax::language::{read_file, read_rule, read_term};
use term_syntax::term::{File, Oper, Rule, Term};

fn num(numb: u64) -> Box<Term> {
    Box::new(Term::Num { numb })
}

fn var(name: &str) -> Box<Term> {
    Box::new(Term::Var { name: name.to_string() })
}

fn ctr(name: &str, args: Vec<Box<Term>>) -> Box<Term> {
    Box::new(Term::Ctr { name: name.to_string(), args })
}

fn app(func: Box<Term>, argm: Box<Term>) -> Box<Term> {
    Box::new(Term::App { func, argm })
}

fn read_back(term: &Term) -> Box<Term> {
    read_term(&term.to_string()).unwrap()
}

#[test]
fn reads_back_numbers() {
    for numb in [0, 1, 9, 10, 99, 100, 4096, 1 << 60, u64::MAX - 1, u64::MAX] {
        let text = format!("{}", numb);
        assert_eq!(read_term(&text).unwrap(), num(numb));
        assert_eq!(num(numb).to_string(), text);
    }
}

#[test]
fn reads_back_operations() {
    let opers = [
        Oper::Add,
        Oper::Sub,
        Oper::Mul,
        Oper::Div,
        Oper::Mod,
        Oper::And,
        Oper::Or,
        Oper::Xor,
        Oper::Shl,
        Oper::Shr,
        Oper::Lte,
        Oper::Ltn,
        Oper::Eql,
        Oper::Gte,
        Oper::Gtn,
        Oper::Neq,
    ];
    for oper in opers {
        let inner = Box::new(Term::Op2 { oper, val0: var("x"), val1: num(2) });
        let term = Term::Op2 { oper, val0: inner, val1: app(var("f"), var("y")) };
        assert_eq!(*read_back(&term), term);
    }
}

#[test]
fn reads_back_plain_terms() {
    let terms = vec![
        var("x"),
        var("_under.score9"),
        Box::new(Term::Lam { name: "X1".to_string(), body: var("x") }),
        app(app(var("f"), ctr("Unit", vec![])), Box::new(Term::Lam { name: "x".to_string(), body: var("x") })),
        app(Box::new(Term::Lam { name: "x".to_string(), body: var("x") }), num(1)),
        app(ctr("Unit", vec![]), var("let")),
        app(num(1), num(2)),
        ctr("Pair", vec![ctr("Pair", vec![var("a"), var("b")]), app(var("f"), var("c"))]),
        ctr("Cons", vec![var("a"), var("b"), var("c")]),
        ctr("Cons", vec![var("a"), var("b")]),
        ctr("StrCons", vec![var("a"), ctr("Nil", vec![num(1)])]),
        Box::new(Term::Let {
            name: "let".to_string(),
            expr: Box::new(Term::Dup {
                nam0: "a".to_string(),
                nam1: "b".to_string(),
                expr: var("let"),
                body: var("dup"),
            }),
            body: app(var("dup.x"), var("dup")),
        }),
    ];
    for term in terms {
        assert_eq!(read_back(&term), term);
    }
}

#[test]
fn takes_a_variable_before_a_blank_for_the_keyword() {
    let term = app(var("let"), var("x"));
    assert_eq!(term.to_string(), "(let x)");
    assert!(read_term("(let x)").is_err());
}

#[test]
fn reads_back_lists_and_strings() {
    for text in ["[1, 2, 3]", "[]", "\"ab\"", "\"\"", "[[x], \"a b\", (F 1)]"] {
        assert_eq!(read_term(text).unwrap().to_string(), text);
    }
}

#[test]
fn reads_back_terms_with_lists_and_strings_inside() {
    let terms = vec![
        ctr("Pair", vec![read_term("[1, [x, \"a b\"], (F [])]").unwrap(), read_term("\"\"").unwrap()]),
        app(var("print"), read_term("`hello, world`").unwrap()),
        Box::new(Term::Lam { name: "x".to_string(), body: read_term("[x, (+ x 1)]").unwrap() }),
    ];
    for term in terms {
        assert_eq!(read_back(&term), term);
    }
}

#[test]
fn reads_back_rules_and_files() {
    let first = Rule { lhs: ctr("Map", vec![var("f"), ctr("Nil", vec![num(0)])]), rhs: read_term("[]").unwrap() };
    let second = Rule { lhs: var("main"), rhs: app(var("f"), num(1)) };
    assert_eq!(read_rule(&first.to_string()).unwrap(), Some(first.clone()));
    let file = File { rules: vec![first, second] };
    assert_eq!(read_file(&file.to_string()).unwrap(), file);
    let empty = File { rules: vec![] };
    assert_eq!(read_file(&empty.to_string()).unwrap(), empty);
}

#[test]
fn loses_a_string_that_holds_its_delimiter() {
    let term = read_term("`say \"hi\"`").unwrap();
    assert_eq!(term.to_string(), "\"say \"hi\"\"");
    assert_ne!(read_back(&term), term);
}
