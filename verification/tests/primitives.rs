use term_syntax::parser::{
    consume, done, expected, get_char, head, name, name1, name_here, skip, tail, text, text_here,
    ParseError, State,
};
use term_syntax::text::{
    digit_to_char, is_digit, is_lower, is_name_char, is_oper_char, is_space, is_upper,
    push_decimal, read_decimal, same_text,
};

fn chars(text: &str) -> Vec<char> {
    text.chars().collect()
}

#[test]
fn peeks_without_moving() {
    let code = chars("ab");
    let state = State::new(&code);
    assert_eq!(state.index, 0);
    assert_eq!(head(state), 'a');
    assert_eq!(head(tail(state)), 'b');
    let end = tail(tail(state));
    assert_eq!(end.index, 2);
    assert_eq!(head(end), '\0');
    assert_eq!(tail(end).index, 2);
}

#[test]
fn skips_blanks_and_comments() {
    let code = chars(" \t\r\n// one\n  // two\n x // three");
    let state = skip(State::new(&code));
    assert_eq!(state.index, 21);
    assert_eq!(head(state), 'x');
    assert_eq!(skip(state).index, 21);
    assert_eq!(skip(tail(state)).index, code.len());
    let code = chars("/ /x");
    assert_eq!(skip(State::new(&code)).index, 0);
    let code = chars("//");
    assert_eq!(skip(State::new(&code)).index, 2);
    let code = chars("/");
    assert_eq!(skip(State::new(&code)).index, 0);
}

#[test]
fn matches_a_literal_or_stays() {
    let code = chars("  let x");
    let state = State::new(&code);
    let (next, found) = text("let ", state);
    assert!(found);
    assert_eq!(next.index, 6);
    let (next, found) = text("dup ", state);
    assert!(!found);
    assert_eq!(next.index, 0);
    let (next, found) = text("", state);
    assert!(found);
    assert_eq!(next.index, 2);
    let (next, found) = text("let x y", state);
    assert!(!found);
    assert_eq!(next.index, 0);
}

#[test]
fn matches_a_literal_in_place() {
    let code = chars(" λx");
    let state = State::new(&code);
    let (next, found) = text_here("λ", state);
    assert!(!found);
    assert_eq!(next.index, 0);
    let (next, found) = text_here("λ", tail(state));
    assert!(found);
    assert_eq!(next.index, 2);
}

#[test]
fn demands_a_literal() {
    let code = chars("x  = 1");
    let state = tail(State::new(&code));
    let (next, _) = consume("=", state).unwrap();
    assert_eq!(next.index, 4);
    let err = consume(";", state).unwrap_err();
    assert_eq!(err.label, ";");
    assert_eq!(err.index, 1);
}

#[test]
fn reads_identifiers() {
    let code = chars("  Foo.bar_9+x");
    let state = State::new(&code);
    let (next, found) = name(state);
    assert_eq!(found, "Foo.bar_9");
    assert_eq!(next.index, 11);
    let (next, found) = name_here(state);
    assert_eq!(found, "");
    assert_eq!(next.index, 0);
    let (next, found) = name(next);
    assert_eq!(found, "Foo.bar_9");
    let (after, found) = name(next);
    assert_eq!(found, "");
    assert_eq!(after.index, 11);
    let (next, found) = name1(state).unwrap();
    assert_eq!(found, "Foo.bar_9");
    assert_eq!(next.index, 11);
    let err = name1(next).unwrap_err();
    assert_eq!(err.label, "name");
    assert_eq!(err.index, 11);
}

#[test]
fn gets_the_next_significant_character() {
    let code = chars("  // c\n (x");
    let (next, c) = get_char(State::new(&code));
    assert_eq!(c, '(');
    assert_eq!(next.index, 9);
    let (next, c) = get_char(next);
    assert_eq!(c, 'x');
    assert_eq!(next.index, 10);
    let (next, c) = get_char(next);
    assert_eq!(c, '\0');
    assert_eq!(next.index, 10);
}

#[test]
fn tells_the_end_of_the_text() {
    let code = chars("x  // end");
    let (next, end) = done(State::new(&code));
    assert!(!end);
    assert_eq!(next.index, 0);
    let (next, end) = done(tail(next));
    assert!(end);
    assert_eq!(next.index, 9);
}

#[test]
fn reports_what_was_expected() {
    let code = chars("abc");
    let state = tail(State::new(&code));
    let err: ParseError = expected::<u8>("thing", state).unwrap_err();
    assert_eq!(err.label, "thing");
    assert_eq!(err.index, 1);
    assert_eq!(err.to_string(), "expected `thing` at offset 1");
    let far = ParseError { label: "Term", index: 1234567 };
    assert_eq!(far.to_string(), "expected `Term` at offset 1234567");
}

#[test]
fn sorts_characters_into_classes() {
    for c in [' ', '\n', '\t', '\r'] {
        assert!(is_space(c));
    }
    assert!(!is_space('x') && !is_space('\0'));
    assert!(is_digit('0') && is_digit('9') && !is_digit('a') && !is_digit('/'));
    assert!(is_upper('A') && is_upper('Z') && !is_upper('a') && !is_upper('['));
    assert!(is_lower('a') && is_lower('z') && !is_lower('A') && !is_lower('{'));
    for c in ['a', 'Z', '5', '_', '.'] {
        assert!(is_name_char(c));
    }
    for c in ['$', ' ', '-', 'λ', '(', '\0'] {
        assert!(!is_name_char(c));
    }
    for c in ['+', '-', '*', '/', '%', '&', '|', '^', '<', '>', '=', '!'] {
        assert!(is_oper_char(c));
    }
    assert!(!is_oper_char('(') && !is_oper_char('a') && !is_oper_char('~'));
}

#[test]
fn compares_texts() {
    assert!(same_text("Cons", "Cons"));
    assert!(same_text("", ""));
    assert!(!same_text("Cons", "Con"));
    assert!(!same_text("Con", "Cons"));
    assert!(!same_text("Cons", "Conz"));
    assert!(same_text("λé", "λé"));
}

#[test]
fn reads_and_writes_numerals() {
    let code = chars("x1234y");
    assert_eq!(read_decimal(&code, 1, 5), Some(1234));
    assert_eq!(read_decimal(&code, 1, 2), Some(1));
    assert_eq!(read_decimal(&code, 1, 1), None);
    assert_eq!(read_decimal(&code, 0, 3), None);
    assert_eq!(read_decimal(&code, 3, 6), None);
    let code = chars("18446744073709551615");
    assert_eq!(read_decimal(&code, 0, 20), Some(u64::MAX));
    let code = chars("18446744073709551616");
    assert_eq!(read_decimal(&code, 0, 20), None);
    let code = chars("000000000000000000000018446744073709551615");
    assert_eq!(read_decimal(&code, 0, code.len()), Some(u64::MAX));
    let mut out = String::from("n=");
    push_decimal(&mut out, 1905);
    assert_eq!(out, "n=1905");
    for d in 0..10 {
        assert_eq!(digit_to_char(d), char::from_digit(d as u32, 10).unwrap());
    }
}
