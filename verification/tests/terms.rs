use term_syntax::language::{
    parse_app, parse_chr_sugar, parse_ctr, parse_dup, parse_lam, parse_let, parse_lst_sugar,
    parse_op2, parse_oper, parse_str_sugar, parse_term, parse_u60, parse_var, read_term, to_chars,
    until,
};
use term_syntax::parser::State;
use term_syntax::term::{Oper, Term};

fn num(numb: u64) -> Box<Term> {
    Box::new(Term::Num { numb })
}

fn var(name: &str) -> Box<Term> {
    Box::new(Term::Var { name: name.to_string() })
}

fn ctr(name: &str, args: Vec<Box<Term>>) -> Box<Term> {
    Box::new(Term::Ctr { name: name.to_string(), args })
}

fn app(func: Box<Term>, argm: Box<Term>) -> Box<Term> {
    Box::new(Term::App { func, argm })
}

fn op2(oper: Oper, val0: Box<Term>, val1: Box<Term>) -> Box<Term> {
    Box::new(Term::Op2 { oper, val0, val1 })
}

fn lam(name: &str, body: Box<Term>) -> Box<Term> {
    Box::new(Term::Lam { name: name.to_string(), body })
}

fn chars(text: &str) -> Vec<char> {
    text.chars().collect()
}

#[test]
fn reads_an_operation_before_an_application() {
    assert_eq!(read_term("(+ 1 2)").unwrap(), op2(Oper::Add, num(1), num(2)));
}

#[test]
fn reads_each_operator() {
    let all = [
        ("+", Oper::Add),
        ("-", Oper::Sub),
        ("*", Oper::Mul),
        ("/", Oper::Div),
        ("%", Oper::Mod),
        ("&", Oper::And),
        ("|", Oper::Or),
        ("^", Oper::Xor),
        ("<<", Oper::Shl),
        (">>", Oper::Shr),
        ("<=", Oper::Lte),
        ("<", Oper::Ltn),
        ("==", Oper::Eql),
        (">=", Oper::Gte),
        (">", Oper::Gtn),
        ("!=", Oper::Neq),
    ];
    for (symbol, oper) in all {
        let text = format!("({} a 7)", symbol);
        let term = read_term(&text).unwrap();
        assert_eq!(term, op2(oper, var("a"), num(7)));
        assert_eq!(term.to_string(), text);
        assert_eq!(oper.to_string(), symbol);
        assert_eq!(oper.text(), symbol);
    }
}

#[test]
fn reads_an_operator_without_a_blank_behind_it() {
    assert_eq!(read_term("(<<1 2)").unwrap(), op2(Oper::Shl, num(1), num(2)));
    assert_eq!(read_term("(<x y)").unwrap(), op2(Oper::Ltn, var("x"), var("y")));
}

#[test]
fn misses_the_closing_parenthesis_of_an_operation() {
    let err = read_term("(* 2 3").unwrap_err();
    assert_eq!(err.label, ")");
    assert_eq!(err.index, 6);
    let code = chars("(+ 1 2");
    let err = parse_op2(State::new(&code)).unwrap_err();
    assert_eq!(err.label, ")");
    assert_eq!(err.index, 6);
    let err = read_term("(+ 1 2 3)").unwrap_err();
    assert_eq!(err.label, ")");
    assert_eq!(err.index, 6);
    let err = read_term("(f (- x 1 )").unwrap_err();
    assert_eq!(err.label, "Term");
    assert_eq!(err.index, 11);
    assert_eq!(read_term("(* 2 3 // three\n )").unwrap(), op2(Oper::Mul, num(2), num(3)));
}

#[test]
fn misses_an_operator() {
    let err = read_term("(= 1 2)").unwrap_err();
    assert_eq!(err.label, "Oper");
    assert_eq!(err.index, 1);
    let err = read_term("(! 1 2)").unwrap_err();
    assert_eq!(err.label, "Oper");
    assert_eq!(err.index, 1);
}

#[test]
fn reads_numbers() {
    assert_eq!(read_term("0").unwrap(), num(0));
    assert_eq!(read_term("42").unwrap(), num(42));
    assert_eq!(read_term("007").unwrap(), num(7));
    assert_eq!(read_term("18446744073709551615").unwrap(), num(u64::MAX));
    assert_eq!(read_term("  \n\t 12 rest").unwrap(), num(12));
}

#[test]
fn refuses_numerals_that_are_no_numbers() {
    let err = read_term("18446744073709551616").unwrap_err();
    assert_eq!(err.label, "number");
    assert_eq!(err.index, 0);
    let err = read_term(" 12abc").unwrap_err();
    assert_eq!(err.label, "number");
    assert_eq!(err.index, 1);
    let err = read_term("1.5").unwrap_err();
    assert_eq!(err.label, "number");
}

#[test]
fn reads_variables() {
    assert_eq!(read_term("x").unwrap(), var("x"));
    assert_eq!(read_term("_tmp.1 y").unwrap(), var("_tmp.1"));
    assert_eq!(read_term("letter").unwrap(), var("letter"));
    assert_eq!(read_term("let").unwrap(), var("let"));
}

#[test]
fn misses_the_name_of_a_variable() {
    let err = read_term(" $x").unwrap_err();
    assert_eq!(err.label, "name");
    assert_eq!(err.index, 1);
}

#[test]
fn misses_a_term() {
    let err = read_term("").unwrap_err();
    assert_eq!(err.label, "Term");
    assert_eq!(err.index, 0);
    let err = read_term("  )").unwrap_err();
    assert_eq!(err.label, "Term");
    assert_eq!(err.index, 0);
    let err = read_term("(f x").unwrap_err();
    assert_eq!(err.label, "Term");
    assert_eq!(err.index, 4);
}

#[test]
fn reads_abstractions_with_either_symbol() {
    assert_eq!(read_term("λx x").unwrap(), lam("x", var("x")));
    assert_eq!(read_term("@x (f x)").unwrap(), lam("x", app(var("f"), var("x"))));
    assert_eq!(read_term("λ x λy (x y)").unwrap(), lam("x", lam("y", app(var("x"), var("y")))));
}

#[test]
fn misses_the_name_of_an_abstraction() {
    let err = read_term("λ(f x)").unwrap_err();
    assert_eq!(err.label, "name");
    assert_eq!(err.index, 1);
}

#[test]
fn reads_let_and_dup() {
    let term = read_term("let x = 1; (+ x x)").unwrap();
    let expected = Box::new(Term::Let {
        name: "x".to_string(),
        expr: num(1),
        body: op2(Oper::Add, var("x"), var("x")),
    });
    assert_eq!(term, expected);
    let term = read_term("dup a b = x; (a b)").unwrap();
    let expected = Box::new(Term::Dup {
        nam0: "a".to_string(),
        nam1: "b".to_string(),
        expr: var("x"),
        body: app(var("a"), var("b")),
    });
    assert_eq!(term, expected);
}

#[test]
fn misses_the_semicolon_of_a_let() {
    let err = read_term("let x = 1 x").unwrap_err();
    assert_eq!(err.label, ";");
    assert_eq!(err.index, 9);
    let code = chars("let x = 1 x");
    let err = parse_let(State::new(&code)).unwrap_err();
    assert_eq!(err.label, ";");
    assert_eq!(err.index, 9);
    let err = read_term("let x = (f 1)").unwrap_err();
    assert_eq!(err.label, ";");
    assert_eq!(err.index, 13);
    let term = read_term("let x = 1 ; x").unwrap();
    let expected = Box::new(Term::Let { name: "x".to_string(), expr: num(1), body: var("x") });
    assert_eq!(term, expected);
}

#[test]
fn misses_the_semicolon_of_a_dup() {
    let err = read_term("dup a b = 1 a").unwrap_err();
    assert_eq!(err.label, ";");
    assert_eq!(err.index, 11);
    let code = chars("  dup a b = x\n(a b)");
    let err = parse_dup(State::new(&code)).unwrap_err();
    assert_eq!(err.label, ";");
    assert_eq!(err.index, 13);
    let err = read_term("dup a b = 1;").unwrap_err();
    assert_eq!(err.label, "Term");
    assert_eq!(err.index, 12);
}

#[test]
fn fails_inside_a_let_once_the_keyword_is_read() {
    let err = read_term("let = 1; 2").unwrap_err();
    assert_eq!(err.label, "name");
    assert_eq!(err.index, 4);
    let err = read_term("let x 1; 2").unwrap_err();
    assert_eq!(err.label, "=");
    assert_eq!(err.index, 5);
    let err = read_term("let x = ; 2").unwrap_err();
    assert_eq!(err.label, "Term");
    assert_eq!(err.index, 7);
    let err = read_term("dup a = 1; 2").unwrap_err();
    assert_eq!(err.label, "name");
    assert_eq!(err.index, 5);
    let err = read_term("(let x)").unwrap_err();
    assert_eq!(err.label, "=");
    assert_eq!(err.index, 6);
}

#[test]
fn reads_constructors() {
    assert_eq!(read_term("(Pair 1 x)").unwrap(), ctr("Pair", vec![num(1), var("x")]));
    assert_eq!(read_term("(Unit)").unwrap(), ctr("Unit", vec![]));
    assert_eq!(read_term("Unit").unwrap(), ctr("Unit", vec![]));
    assert_eq!(read_term("( Tree.Node l r )").unwrap(), ctr("Tree.Node", vec![var("l"), var("r")]));
    assert_eq!(
        read_term("(Pair Unit (Some 1))").unwrap(),
        ctr("Pair", vec![ctr("Unit", vec![]), ctr("Some", vec![num(1)])])
    );
}

#[test]
fn reads_applications_nested_to_the_left() {
    assert_eq!(
        read_term("(f a b c)").unwrap(),
        app(app(app(var("f"), var("a")), var("b")), var("c"))
    );
    assert_eq!(read_term("(f)").unwrap(), var("f"));
    assert_eq!(read_term("((f a) (g b))").unwrap(), app(app(var("f"), var("a")), app(var("g"), var("b"))));
    assert_eq!(read_term("(λx x 3)").unwrap(), app(lam("x", var("x")), num(3)));
}

#[test]
fn reads_empty_parentheses_as_zero() {
    assert_eq!(read_term("()").unwrap(), num(0));
    assert_eq!(read_term("( )").unwrap(), num(0));
    assert_eq!(read_term("(f ())").unwrap(), app(var("f"), num(0)));
}

#[test]
fn reads_a_character_as_its_code() {
    assert_eq!(read_term("'a'").unwrap(), num(97));
    assert_eq!(read_term("'λ'").unwrap(), num(955));
    assert_eq!(read_term("' '").unwrap(), num(32));
    assert_eq!(read_term("'''").unwrap(), num(39));
    assert_eq!(read_term("'a  '").unwrap(), num(97));
}

#[test]
fn misses_the_closing_quote_of_a_character() {
    let err = read_term("'a").unwrap_err();
    assert_eq!(err.label, "'");
    assert_eq!(err.index, 2);
    let err = read_term("'ab'").unwrap_err();
    assert_eq!(err.label, "'");
    assert_eq!(err.index, 2);
    let code = chars("(f 'a)");
    let err = parse_chr_sugar(State { code: &code, index: 3 }).unwrap_err();
    assert_eq!(err.label, "'");
    assert_eq!(err.index, 5);
}

#[test]
fn misses_the_character_behind_a_quote() {
    let err = read_term(" '").unwrap_err();
    assert_eq!(err.label, "character");
    assert_eq!(err.index, 2);
}

#[test]
fn reads_a_string_literal() {
    let expected = ctr(
        "StrCons",
        vec![num(97), ctr("StrCons", vec![num(98), ctr("StrNil", vec![])])],
    );
    assert_eq!(read_term("\"ab\"").unwrap(), expected);
    assert_eq!(read_term("`ab`").unwrap(), expected);
    assert_eq!(read_term("\"ab").unwrap(), expected);
    assert_eq!(read_term("\"\"").unwrap(), ctr("StrNil", vec![]));
}

#[test]
fn ends_a_string_at_its_own_delimiter() {
    let term = read_term("\"a`\"").unwrap();
    let expected = ctr(
        "StrCons",
        vec![num(97), ctr("StrCons", vec![num(96), ctr("StrNil", vec![])])],
    );
    assert_eq!(term, expected);
    let code = chars("(Pair \"a b\" 1)");
    let (state, term) = parse_term(State::new(&code)).unwrap();
    assert_eq!(state.index, 14);
    let text = ctr(
        "StrCons",
        vec![
            num(97),
            ctr("StrCons", vec![num(32), ctr("StrCons", vec![num(98), ctr("StrNil", vec![])])]),
        ],
    );
    assert_eq!(term, ctr("Pair", vec![text, num(1)]));
}

#[test]
fn reads_a_list_literal() {
    let expected =
        ctr("Cons", vec![num(1), ctr("Cons", vec![num(2), ctr("Cons", vec![num(3), ctr("Nil", vec![])])])]);
    assert_eq!(read_term("[1,2,3]").unwrap(), expected);
    assert_eq!(read_term("[1, 2, 3]").unwrap(), expected);
    assert_eq!(read_term("[1 2 3]").unwrap(), expected);
    assert_eq!(read_term("[ 1 , 2 , 3 , ]").unwrap(), expected);
    assert_eq!(read_term("[]").unwrap(), ctr("Nil", vec![]));
    assert_eq!(
        read_term("[[], x]").unwrap(),
        ctr("Cons", vec![ctr("Nil", vec![]), ctr("Cons", vec![var("x"), ctr("Nil", vec![])])])
    );
}

#[test]
fn misses_the_end_of_a_list() {
    let err = read_term("[1, 2").unwrap_err();
    assert_eq!(err.label, "Term");
    assert_eq!(err.index, 5);
}

#[test]
fn passes_over_comments() {
    assert_eq!(read_term("// the answer\n42").unwrap(), num(42));
    assert_eq!(
        read_term("(f // first\n   x // second\n)").unwrap(),
        app(var("f"), var("x"))
    );
    assert_eq!(read_term("(/ 6 3)").unwrap(), op2(Oper::Div, num(6), num(3)));
    let err = read_term("// only a comment").unwrap_err();
    assert_eq!(err.label, "Term");
    assert_eq!(err.index, 0);
}

#[test]
fn leaves_the_state_alone_where_a_form_is_absent() {
    let code = chars("  x");
    let state = State::new(&code);
    let forms = [
        parse_let,
        parse_dup,
        parse_lam,
        parse_ctr,
        parse_op2,
        parse_app,
        parse_u60,
        parse_chr_sugar,
        parse_str_sugar,
        parse_lst_sugar,
    ];
    for form in forms {
        let (next, term) = form(state).unwrap();
        assert_eq!(next.index, 0);
        assert!(term.is_none());
    }
    let (next, term) = parse_var(state).unwrap();
    assert_eq!(next.index, 3);
    assert_eq!(term, Some(var("x")));
}

#[test]
fn reads_each_form_by_its_own_reader() {
    let code = chars("let x = 1; x");
    assert!(parse_let(State::new(&code)).unwrap().1.is_some());
    let code = chars("dup a b = 1; a");
    assert!(parse_dup(State::new(&code)).unwrap().1.is_some());
    let code = chars("@x x");
    assert_eq!(parse_lam(State::new(&code)).unwrap().1, Some(lam("x", var("x"))));
    let code = chars("(F 1)");
    assert_eq!(parse_ctr(State::new(&code)).unwrap().1, Some(ctr("F", vec![num(1)])));
    let code = chars("(> 1 2)");
    assert_eq!(parse_op2(State::new(&code)).unwrap().1, Some(op2(Oper::Gtn, num(1), num(2))));
    let code = chars("(F 1)");
    assert_eq!(parse_app(State::new(&code)).unwrap().1, Some(app(ctr("F", vec![]), num(1))));
    let code = chars("15 ");
    let (next, term) = parse_u60(State::new(&code)).unwrap();
    assert_eq!((next.index, term), (2, Some(num(15))));
    let code = chars("'x' ");
    let (next, term) = parse_chr_sugar(State::new(&code)).unwrap();
    assert_eq!((next.index, term), (3, Some(num(120))));
    let code = chars("`x` ");
    let (next, term) = parse_str_sugar(State::new(&code)).unwrap();
    assert_eq!(next.index, 3);
    assert_eq!(term, Some(ctr("StrCons", vec![num(120), ctr("StrNil", vec![])])));
    let code = chars("[x] ");
    let (next, term) = parse_lst_sugar(State::new(&code)).unwrap();
    assert_eq!(next.index, 3);
    assert_eq!(term, Some(ctr("Cons", vec![var("x"), ctr("Nil", vec![])])));
}

#[test]
fn reads_an_operator_symbol() {
    let code = chars("  >= 1");
    let (next, oper) = parse_oper(State::new(&code)).unwrap();
    assert_eq!(next.index, 4);
    assert_eq!(oper, Oper::Gte);
    let code = chars("x");
    let err = parse_oper(State::new(&code)).unwrap_err();
    assert_eq!(err.label, "Oper");
    assert_eq!(err.index, 0);
}

#[test]
fn reads_terms_until_the_closing_literal() {
    let code = chars("a 1 (B)) rest");
    let (next, items) = until(")", false, State::new(&code)).unwrap();
    assert_eq!(next.index, 8);
    assert_eq!(items, vec![var("a"), num(1), ctr("B", vec![])]);
    let code = chars("a, 1 ] rest");
    let (next, items) = until("]", true, State::new(&code)).unwrap();
    assert_eq!(next.index, 6);
    assert_eq!(items, vec![var("a"), num(1)]);
    let code = chars("a, 1 )");
    let err = until(")", false, State::new(&code)).unwrap_err();
    assert_eq!(err.label, "Term");
    assert_eq!(err.index, 1);
}

#[test]
fn stops_behind_the_term() {
    let code = chars("(f x) (g y)");
    let (next, term) = parse_term(State::new(&code)).unwrap();
    assert_eq!(next.index, 5);
    assert_eq!(term, app(var("f"), var("x")));
    let (next, term) = parse_term(next).unwrap();
    assert_eq!(next.index, 11);
    assert_eq!(term, app(var("g"), var("y")));
}

#[test]
fn takes_a_text_apart_into_its_characters() {
    assert_eq!(to_chars("λx é"), vec!['λ', 'x', ' ', 'é']);
    assert_eq!(to_chars(""), Vec::<char>::new());
}

#[test]
fn counts_offsets_in_characters() {
    let err = read_term("(λλ x)").unwrap_err();
    assert_eq!(err.label, "name");
    assert_eq!(err.index, 2);
}
