//! The readers of terms, rules and files.
//!
//! Each reader does what the grammar says is read at its state, and says so
//! in its contract.

use vstd::prelude::*;
use crate::grammar::{
    app_at, apply_all, behind_symbol, chr_at, ctr_at, dup_at, file_at, guarded, lam_at, let_at,
    list_term, lst_at, op2_at, oper_at, rule_at, spine_term, starts_app, starts_chr, starts_ctr,
    starts_dup, starts_lam, starts_let, starts_lst, starts_op2, starts_str, starts_u60,
    starts_var, str_at, str_end, string_term, symbol_at, term_at, terms_until, u60_at, value_of,
    var_at,
};
use crate::parser::{
    consume, done, expected, get_char, head, lemma_name_at, lemma_skipped, lemma_text_at, name1,
    name_here, skip, skipped, tail, text, text_here, Answer, Expected, ParseError, Parsed, State,
};
pub use crate::term::{BTerm, File, Oper, Rule, Term};
use crate::term::{rule_views, views, RuleView, TermView};
use crate::text::{
    char_code, is_digit, is_lower, is_oper_char, is_upper, read_decimal, spec_char_code,
};

verus! {

/// `r` is the answer of a reader that was started at `state` and had to
/// read `expect`.
pub open spec fn reads<'a>(
    state: State<'a>,
    r: Answer<'a, Box<Term>>,
    expect: Parsed<TermView>,
) -> bool {
    match r {
        Ok((next, term)) => {
            &&& state.moved_to(next, next.pos())
            &&& state.index < next.index
            &&& expect == Ok::<(int, TermView), Expected>((next.pos(), term@))
        },
        Err(e) => expect == Err::<(int, TermView), Expected>(e@),
    }
}

/// As `reads`, for a form that may be absent: then the state comes back as it
/// was given.
pub open spec fn reads_opt<'a>(
    state: State<'a>,
    r: Answer<'a, Option<Box<Term>>>,
    expect: Parsed<Option<TermView>>,
) -> bool {
    match r {
        Ok((next, Some(term))) => {
            &&& state.moved_to(next, next.pos())
            &&& state.index < next.index
            &&& expect == Ok::<(int, Option<TermView>), Expected>((next.pos(), Some(term@)))
        },
        Ok((next, None)) => {
            &&& next == state
            &&& expect == Ok::<(int, Option<TermView>), Expected>((state.pos(), None))
        },
        Err(e) => expect == Err::<(int, Option<TermView>), Expected>(e@),
    }
}

/// As `reads`, for a run of terms.
pub open spec fn reads_all<'a>(
    state: State<'a>,
    r: Answer<'a, Vec<Box<Term>>>,
    expect: Parsed<Seq<TermView>>,
) -> bool {
    match r {
        Ok((next, items)) => {
            &&& state.moved_to(next, next.pos())
            &&& state.index <= next.index
            &&& expect == Ok::<(int, Seq<TermView>), Expected>((next.pos(), views(items@)))
        },
        Err(e) => expect == Err::<(int, Seq<TermView>), Expected>(e@),
    }
}

/// What `parse_let` reads at offset `i`.
pub open spec fn let_opt(src: Seq<char>, i: int) -> Parsed<Option<TermView>> {
    guarded(starts_let(src, skipped(src, i)), i, let_at(src, skipped(src, i)))
}

/// What `parse_dup` reads at offset `i`.
pub open spec fn dup_opt(src: Seq<char>, i: int) -> Parsed<Option<TermView>> {
    guarded(starts_dup(src, skipped(src, i)), i, dup_at(src, skipped(src, i)))
}

/// What `parse_lam` reads at offset `i`.
pub open spec fn lam_opt(src: Seq<char>, i: int) -> Parsed<Option<TermView>> {
    guarded(starts_lam(src, skipped(src, i)), i, lam_at(src, skipped(src, i)))
}

/// What `parse_ctr` reads at offset `i`.
pub open spec fn ctr_opt(src: Seq<char>, i: int) -> Parsed<Option<TermView>> {
    guarded(starts_ctr(src, skipped(src, i)), i, ctr_at(src, skipped(src, i)))
}

/// What `parse_op2` reads at offset `i`.
pub open spec fn op2_opt(src: Seq<char>, i: int) -> Parsed<Option<TermView>> {
    guarded(starts_op2(src, skipped(src, i)), i, op2_at(src, skipped(src, i)))
}

/// What `parse_app` reads at offset `i`.
pub open spec fn app_opt(src: Seq<char>, i: int) -> Parsed<Option<TermView>> {
    guarded(starts_app(src, skipped(src, i)), i, app_at(src, skipped(src, i)))
}

/// What `parse_u60` reads at offset `i`.
pub open spec fn u60_opt(src: Seq<char>, i: int) -> Parsed<Option<TermView>> {
    guarded(starts_u60(src, skipped(src, i)), i, u60_at(src, skipped(src, i)))
}

/// What `parse_chr_sugar` reads at offset `i`.
pub open spec fn chr_opt(src: Seq<char>, i: int) -> Parsed<Option<TermView>> {
    guarded(starts_chr(src, skipped(src, i)), i, chr_at(src, skipped(src, i)))
}

/// What `parse_str_sugar` reads at offset `i`.
pub open spec fn str_opt(src: Seq<char>, i: int) -> Parsed<Option<TermView>> {
    guarded(starts_str(src, skipped(src, i)), i, str_at(src, skipped(src, i)))
}

/// What `parse_lst_sugar` reads at offset `i`.
pub open spec fn lst_opt(src: Seq<char>, i: int) -> Parsed<Option<TermView>> {
    guarded(starts_lst(src, skipped(src, i)), i, lst_at(src, skipped(src, i)))
}

/// What `parse_var` reads at offset `i`.
pub open spec fn var_opt(src: Seq<char>, i: int) -> Parsed<Option<TermView>> {
    guarded(starts_var(src, skipped(src, i)), i, var_at(src, skipped(src, i)))
}

/// Reads `let name = expr; body`.
pub fn parse_let<'a>(state: State<'a>) -> (r: Answer<'a, Option<Box<Term>>>)
    requires
        state.wf(),
    ensures
        reads_opt(state, r, let_opt(state.src(), state.pos())),
    decreases state.src().len() - state.pos(), 0int,
{
    let (at, found) = text_here("let ", skip(state));
    if !found {
        return Ok((state, None));
    }
    proof {
        reveal_strlit("let ");
        lemma_skipped(state.src(), state.pos());
        lemma_name_at(state.src(), at.pos());
    }
    let (s1, name) = match name1(at) {
        Ok(v) => v,
        Err(e) => return Err(e),
    };
    proof {
        lemma_text_at(state.src(), s1.pos(), "="@);
    }
    let (s2, _) = match consume("=", s1) {
        Ok(v) => v,
        Err(e) => return Err(e),
    };
    let (s3, expr) = match parse_term(s2) {
        Ok(v) => v,
        Err(e) => return Err(e),
    };
    proof {
        lemma_text_at(state.src(), s3.pos(), ";"@);
    }
    let (s4, _) = match consume(";", s3) {
        Ok(v) => v,
        Err(e) => return Err(e),
    };
    let (s5, body) = match parse_term(s4) {
        Ok(v) => v,
        Err(e) => return Err(e),
    };
    Ok((s5, Some(Box::new(Term::Let { name, expr, body }))))
}

/// Reads `dup nam0 nam1 = expr; body`.
pub fn parse_dup<'a>(state: State<'a>) -> (r: Answer<'a, Option<Box<Term>>>)
    requires
        state.wf(),
    ensures
        reads_opt(state, r, dup_opt(state.src(), state.pos())),
    decreases state.src().len() - state.pos(), 0int,
{
    let (at, found) = text_here("dup ", skip(state));
    if !found {
        return Ok((state, None));
    }
    proof {
        reveal_strlit("dup ");
        lemma_skipped(state.src(), state.pos());
        lemma_name_at(state.src(), at.pos());
    }
    let (s0, nam0) = match name1(at) {
        Ok(v) => v,
        Err(e) => return Err(e),
    };
    proof {
        lemma_name_at(state.src(), s0.pos());
    }
    let (s1, nam1) = match name1(s0) {
        Ok(v) => v,
        Err(e) => return Err(e),
    };
    proof {
        lemma_text_at(state.src(), s1.pos(), "="@);
    }
    let (s2, _) = match consume("=", s1) {
        Ok(v) => v,
        Err(e) => return Err(e),
    };
    let (s3, expr) = match parse_term(s2) {
        Ok(v) => v,
        Err(e) => return Err(e),
    };
    proof {
        lemma_text_at(state.src(), s3.pos(), ";"@);
    }
    let (s4, _) = match consume(";", s3) {
        Ok(v) => v,
        Err(e) => return Err(e),
    };
    let (s5, body) = match parse_term(s4) {
        Ok(v) => v,
        Err(e) => return Err(e),
    };
    Ok((s5, Some(Box::new(Term::Dup { nam0, nam1, expr, body }))))
}

/// Reads `λname body`; the binder symbol may also be written `@`.
pub fn parse_lam<'a>(state: State<'a>) -> (r: Answer<'a, Option<Box<Term>>>)
    requires
        state.wf(),
    ensures
        reads_opt(state, r, lam_opt(state.src(), state.pos())),
    decreases state.src().len() - state.pos(), 0int,
{
    let from = skip(state);
    let (lambda, found) = text_here("λ", from);
    let (at, found) = if found {
        (lambda, true)
    } else {
        text_here("@", from)
    };
    if !found {
        return Ok((state, None));
    }
    proof {
        reveal_strlit("λ");
        reveal_strlit("@");
        lemma_skipped(state.src(), state.pos());
        lemma_name_at(state.src(), at.pos());
    }
    let (s1, name) = match name1(at) {
        Ok(v) => v,
        Err(e) => return Err(e),
    };
    let (s2, body) = match parse_term(s1) {
        Ok(v) => v,
        Err(e) => return Err(e),
    };
    Ok((s2, Some(Box::new(Term::Lam { name, body }))))
}

/// Reads terms up to the literal `close`, which is passed over. With `comma`,
/// a comma behind a term is passed over too.
pub fn until<'a>(close: &str, comma: bool, state: State<'a>) -> (r: Answer<'a, Vec<Box<Term>>>)
    requires
        state.wf(),
    ensures
        reads_all(
            state,
            r,
            terms_until(state.src(), state.pos(), close@, comma, Seq::empty()),
        ),
    decreases state.src().len() - state.pos(), 2int,
{
    let ghost src = state.src();
    let mut items: Vec<Box<Term>> = Vec::new();
    let mut at = state;
    proof {
        assert(views(items@) =~= Seq::<TermView>::empty());
    }
    loop
        invariant
            src == state.src(),
            state.wf(),
            state.moved_to(at, at.pos()),
            state.index <= at.index,
            terms_until(src, state.pos(), close@, comma, Seq::empty()) == terms_until(
                src,
                at.pos(),
                close@,
                comma,
                views(items@),
            ),
        decreases src.len() - at.pos(),
    {
        proof {
            lemma_text_at(src, at.pos(), close@);
        }
        let (next, found) = text(close, at);
        if found {
            return Ok((next, items));
        }
        let (s1, item) = match parse_term(at) {
            Ok(v) => v,
            Err(e) => return Err(e),
        };
        proof {
            lemma_text_at(src, s1.pos(), ","@);
        }
        let s2 = if comma {
            text(",", s1).0
        } else {
            s1
        };
        proof {
            assert(views(items@.push(item)) =~= views(items@).push(item@));
        }
        items.push(item);
        at = s2;
    }
}

/// Reads a constructor with its arguments, `(Name term*)`, or a bare `Name`.
pub fn parse_ctr<'a>(state: State<'a>) -> (r: Answer<'a, Option<Box<Term>>>)
    requires
        state.wf(),
    ensures
        reads_opt(state, r, ctr_opt(state.src(), state.pos())),
    decreases state.src().len() - state.pos(), 0int,
{
    let from = skip(state);
    let (inner, open) = text_here("(", from);
    let (_, head) = get_char(inner);
    proof {
        reveal_strlit("(");
    }
    if !is_upper(head) {
        return Ok((state, None));
    }
    proof {
        lemma_skipped(state.src(), state.pos());
        lemma_name_at(state.src(), inner.pos());
    }
    let (s1, name) = match name1(inner) {
        Ok(v) => v,
        Err(e) => return Err(e),
    };
    if open {
        let (s2, args) = match until(")", false, s1) {
            Ok(v) => v,
            Err(e) => return Err(e),
        };
        Ok((s2, Some(Term::ctr(name, args))))
    } else {
        let args: Vec<Box<Term>> = Vec::new();
        proof {
            assert(views(args@) =~= Seq::<TermView>::empty());
        }
        Ok((s1, Some(Term::ctr(name, args))))
    }
}

/// Reads the symbol of `oper` if it stands at the current offset.
fn parse_symbol<'a>(oper: Oper, state: State<'a>) -> (r: Option<State<'a>>)
    requires
        state.wf(),
    ensures
        match r {
            Some(next) => symbol_at(state.src(), state.pos(), oper) && state.moved_to(
                next,
                behind_symbol(state.pos(), oper).0,
            ),
            None => !symbol_at(state.src(), state.pos(), oper),
        },
{
    let (next, found) = text_here(oper.text(), state);
    if found {
        Some(next)
    } else {
        None
    }
}

/// Reads the symbol of an operator.
pub fn parse_oper<'a>(state: State<'a>) -> (r: Answer<'a, Oper>)
    requires
        state.wf(),
    ensures
        match r {
            Ok((next, oper)) => state.moved_to(next, next.pos()) && oper_at(
                state.src(),
                state.pos(),
            ) == Ok::<(int, Oper), Expected>((next.pos(), oper)),
            Err(e) => oper_at(state.src(), state.pos()) == Err::<(int, Oper), Expected>(e@),
        },
{
    let from = skip(state);
    if let Some(next) = parse_symbol(Oper::Add, from) {
        return Ok((next, Oper::Add));
    }
    if let Some(next) = parse_symbol(Oper::Sub, from) {
        return Ok((next, Oper::Sub));
    }
    if let Some(next) = parse_symbol(Oper::Mul, from) {
        return Ok((next, Oper::Mul));
    }
    if let Some(next) = parse_symbol(Oper::Div, from) {
        return Ok((next, Oper::Div));
    }
    if let Some(next) = parse_symbol(Oper::Mod, from) {
        return Ok((next, Oper::Mod));
    }
    if let Some(next) = parse_symbol(Oper::And, from) {
        return Ok((next, Oper::And));
    }
    if let Some(next) = parse_symbol(Oper::Or, from) {
        return Ok((next, Oper::Or));
    }
    if let Some(next) = parse_symbol(Oper::Xor, from) {
        return Ok((next, Oper::Xor));
    }
    if let Some(next) = parse_symbol(Oper::Shl, from) {
        return Ok((next, Oper::Shl));
    }
    if let Some(next) = parse_symbol(Oper::Shr, from) {
        return Ok((next, Oper::Shr));
    }
    if let Some(next) = parse_symbol(Oper::Lte, from) {
        return Ok((next, Oper::Lte));
    }
    if let Some(next) = parse_symbol(Oper::Ltn, from) {
        return Ok((next, Oper::Ltn));
    }
    if let Some(next) = parse_symbol(Oper::Eql, from) {
        return Ok((next, Oper::Eql));
    }
    if let Some(next) = parse_symbol(Oper::Gte, from) {
        return Ok((next, Oper::Gte));
    }
    if let Some(next) = parse_symbol(Oper::Gtn, from) {
        return Ok((next, Oper::Gtn));
    }
    if let Some(next) = parse_symbol(Oper::Neq, from) {
        return Ok((next, Oper::Neq));
    }
    expected("Oper", state)
}

/// Reads an operation on two terms, `(oper val0 val1)`.
pub fn parse_op2<'a>(state: State<'a>) -> (r: Answer<'a, Option<Box<Term>>>)
    requires
        state.wf(),
    ensures
        reads_opt(state, r, op2_opt(state.src(), state.pos())),
    decreases state.src().len() - state.pos(), 0int,
{
    let from = skip(state);
    let (inner, open) = text_here("(", from);
    let (_, head) = get_char(inner);
    proof {
        reveal_strlit("(");
    }
    if !(open && is_oper_char(head)) {
        return Ok((state, None));
    }
    proof {
        lemma_skipped(state.src(), state.pos());
        lemma_skipped(state.src(), inner.pos());
    }
    let (s1, oper) = match parse_oper(inner) {
        Ok(v) => v,
        Err(e) => return Err(e),
    };
    let (s2, val0) = match parse_term(s1) {
        Ok(v) => v,
        Err(e) => return Err(e),
    };
    let (s3, val1) = match parse_term(s2) {
        Ok(v) => v,
        Err(e) => return Err(e),
    };
    proof {
        lemma_text_at(state.src(), s3.pos(), ")"@);
    }
    let (s4, _) = match consume(")", s3) {
        Ok(v) => v,
        Err(e) => return Err(e),
    };
    Ok((s4, Some(Box::new(Term::Op2 { oper, val0, val1 }))))
}

/// The first of `items` applied to the others, and zero where there is none.
pub fn fold_spine(items: Vec<Box<Term>>) -> (t: Box<Term>)
    ensures
        t@ == spine_term(views(items@)),
{
    let ghost all = views(items@);
    let mut spine: Option<Box<Term>> = None;
    for item in iter: items
        invariant
            all == views(iter.seq()),
            iter.index@ == 0 ==> spine is None,
            iter.index@ > 0 ==> spine is Some && spine->0@ == apply_all(
                all[0],
                all.subrange(1, iter.index@),
            ),
    {
        let ghost done = iter.index@;
        spine = match spine {
            None => {
                proof {
                    assert(all.subrange(1, 1) =~= Seq::<TermView>::empty());
                }
                Some(item)
            },
            Some(func) => {
                proof {
                    let args = all.subrange(1, done + 1);
                    assert(args.drop_last() =~= all.subrange(1, done));
                    assert(args.last() == all[done]);
                }
                Some(Box::new(Term::App { func, argm: item }))
            },
        };
    }
    match spine {
        None => Box::new(Term::Num { numb: 0 }),
        Some(term) => {
            proof {
                assert(all.subrange(1, all.len() as int) =~= all.drop_first());
            }
            term
        },
    }
}

/// Reads a parenthesised run of terms, `(term*)`.
pub fn parse_app<'a>(state: State<'a>) -> (r: Answer<'a, Option<Box<Term>>>)
    requires
        state.wf(),
    ensures
        reads_opt(state, r, app_opt(state.src(), state.pos())),
    decreases state.src().len() - state.pos(), 0int,
{
    let (inner, open) = text_here("(", skip(state));
    if !open {
        return Ok((state, None));
    }
    proof {
        reveal_strlit("(");
        lemma_skipped(state.src(), state.pos());
    }
    let (next, items) = match until(")", false, inner) {
        Ok(v) => v,
        Err(e) => return Err(e),
    };
    Ok((next, Some(fold_spine(items))))
}

/// Reads a number in decimal digits.
pub fn parse_u60<'a>(state: State<'a>) -> (r: Answer<'a, Option<Box<Term>>>)
    requires
        state.wf(),
    ensures
        reads_opt(state, r, u60_opt(state.src(), state.pos())),
{
    let from = skip(state);
    if !is_digit(head(from)) {
        return Ok((state, None));
    }
    proof {
        lemma_skipped(state.src(), state.pos());
    }
    let (next, _) = name_here(from);
    match read_decimal(state.code, from.index, next.index) {
        Some(numb) => Ok((next, Some(Box::new(Term::Num { numb })))),
        None => expected("number", from),
    }
}

/// Reads a variable.
pub fn parse_var<'a>(state: State<'a>) -> (r: Answer<'a, Option<Box<Term>>>)
    requires
        state.wf(),
    ensures
        reads_opt(state, r, var_opt(state.src(), state.pos())),
{
    let from = skip(state);
    let first = head(from);
    if !(is_lower(first) || first == '_' || first == '$') {
        return Ok((state, None));
    }
    proof {
        lemma_skipped(state.src(), state.pos());
    }
    let (next, name) = name_here(from);
    if next.index > from.index {
        Ok((next, Some(Box::new(Term::Var { name }))))
    } else {
        expected("name", from)
    }
}

/// Reads a character in single quotes as the number of its code.
pub fn parse_chr_sugar<'a>(state: State<'a>) -> (r: Answer<'a, Option<Box<Term>>>)
    requires
        state.wf(),
    ensures
        reads_opt(state, r, chr_opt(state.src(), state.pos())),
{
    let from = skip(state);
    if head(from) != '\'' {
        return Ok((state, None));
    }
    proof {
        lemma_skipped(state.src(), state.pos());
    }
    let at = tail(from);
    if at.index < at.code.len() {
        let c = at.code[at.index];
        proof {
            lemma_text_at(state.src(), at.pos() + 1, "'"@);
        }
        let (next, _) = match consume("'", tail(at)) {
            Ok(v) => v,
            Err(e) => return Err(e),
        };
        Ok((next, Some(Box::new(Term::Num { numb: char_code(c) }))))
    } else {
        expected("character", at)
    }
}

/// The term of the string whose characters are `code[from..to]`.
pub fn fold_string(code: &[char], from: usize, to: usize) -> (t: Box<Term>)
    requires
        from <= to <= code@.len(),
    ensures
        t@ == string_term(code@.subrange(from as int, to as int)),
{
    let mut term = Term::ctr("StrNil".to_owned(), Vec::new());
    let mut k: usize = to;
    proof {
        assert(code@.subrange(to as int, to as int) =~= Seq::<char>::empty());
        assert(views(Seq::<Box<Term>>::empty()) =~= Seq::<TermView>::empty());
    }
    while k > from
        invariant
            from <= k <= to <= code@.len(),
            term@ == string_term(code@.subrange(k as int, to as int)),
        decreases k - from,
    {
        k -= 1;
        let mut args: Vec<Box<Term>> = Vec::new();
        args.push(Box::new(Term::Num { numb: char_code(code[k]) }));
        args.push(term);
        proof {
            let chars = code@.subrange(k as int, to as int);
            assert(chars.drop_first() =~= code@.subrange(k + 1, to as int));
            assert(views(args@) =~= seq![
                TermView::Num { numb: spec_char_code(code@[k as int]) },
                string_term(chars.drop_first()),
            ]);
        }
        term = Term::ctr("StrCons".to_owned(), args);
    }
    term
}

/// Reads a string in double quotes or backticks as a chain of `StrCons`.
pub fn parse_str_sugar<'a>(state: State<'a>) -> (r: Answer<'a, Option<Box<Term>>>)
    requires
        state.wf(),
    ensures
        reads_opt(state, r, str_opt(state.src(), state.pos())),
{
    let from = skip(state);
    let delim = head(from);
    if !(delim == '"' || delim == '`') {
        return Ok((state, None));
    }
    proof {
        lemma_skipped(state.src(), state.pos());
    }
    let code = state.code;
    let start: usize = tail(from).index;
    let mut end: usize = start;
    while end < code.len() && code[end] != delim && code[end] != '\0'
        invariant
            start <= end <= code@.len(),
            str_end(code@, start as int, delim) == str_end(code@, end as int, delim),
        decreases code@.len() - end,
    {
        end += 1;
    }
    let term = fold_string(code, start, end);
    let next: usize = if end < code.len() {
        end + 1
    } else {
        end
    };
    Ok((State { code, index: next }, Some(term)))
}

/// The list of `items`: a chain of `Cons` that ends in `Nil`.
pub fn fold_list(items: Vec<Box<Term>>) -> (t: Box<Term>)
    ensures
        t@ == list_term(views(items@)),
{
    let ghost all = views(items@);
    let mut rest = items;
    let mut term = Term::ctr("Nil".to_owned(), Vec::new());
    proof {
        assert(views(Seq::<Box<Term>>::empty()) =~= Seq::<TermView>::empty());
        assert(all.subrange(all.len() as int, all.len() as int) =~= Seq::<TermView>::empty());
    }
    while rest.len() > 0
        invariant
            rest@.len() <= all.len(),
            forall|k: int| 0 <= k < rest@.len() ==> (#[trigger] rest@[k])@ == all[k],
            term@ == list_term(all.subrange(rest@.len() as int, all.len() as int)),
        decreases rest@.len(),
    {
        let item = rest.pop().unwrap();
        let mut args: Vec<Box<Term>> = Vec::new();
        args.push(item);
        args.push(term);
        proof {
            let tail = all.subrange(rest@.len() as int, all.len() as int);
            assert(tail.drop_first() =~= all.subrange(rest@.len() as int + 1, all.len() as int));
            assert(views(args@) =~= seq![all[rest@.len() as int], list_term(tail.drop_first())]);
        }
        term = Term::ctr("Cons".to_owned(), args);
    }
    proof {
        assert(all.subrange(0, all.len() as int) =~= all);
    }
    term
}

/// Reads a list in square brackets as a chain of `Cons`.
pub fn parse_lst_sugar<'a>(state: State<'a>) -> (r: Answer<'a, Option<Box<Term>>>)
    requires
        state.wf(),
    ensures
        reads_opt(state, r, lst_opt(state.src(), state.pos())),
    decreases state.src().len() - state.pos(), 0int,
{
    let from = skip(state);
    if head(from) != '[' {
        return Ok((state, None));
    }
    proof {
        lemma_skipped(state.src(), state.pos());
    }
    let (next, items) = match until("]", true, tail(from)) {
        Ok(v) => v,
        Err(e) => return Err(e),
    };
    Ok((next, Some(fold_list(items))))
}

/// Reads a term: the first form that accepts at the next significant
/// character reads it.
pub fn parse_term<'a>(state: State<'a>) -> (r: Answer<'a, Box<Term>>)
    requires
        state.wf(),
    ensures
        reads(state, r, term_at(state.src(), state.pos())),
    decreases state.src().len() - state.pos(), 1int,
{
    match parse_let(state) {
        Err(e) => return Err(e),
        Ok((next, Some(term))) => return Ok((next, term)),
        Ok((_, None)) => {},
    }
    match parse_dup(state) {
        Err(e) => return Err(e),
        Ok((next, Some(term))) => return Ok((next, term)),
        Ok((_, None)) => {},
    }
    match parse_lam(state) {
        Err(e) => return Err(e),
        Ok((next, Some(term))) => return Ok((next, term)),
        Ok((_, None)) => {},
    }
    match parse_ctr(state) {
        Err(e) => return Err(e),
        Ok((next, Some(term))) => return Ok((next, term)),
        Ok((_, None)) => {},
    }
    match parse_op2(state) {
        Err(e) => return Err(e),
        Ok((next, Some(term))) => return Ok((next, term)),
        Ok((_, None)) => {},
    }
    match parse_app(state) {
        Err(e) => return Err(e),
        Ok((next, Some(term))) => return Ok((next, term)),
        Ok((_, None)) => {},
    }
    match parse_u60(state) {
        Err(e) => return Err(e),
        Ok((next, Some(term))) => return Ok((next, term)),
        Ok((_, None)) => {},
    }
    match parse_chr_sugar(state) {
        Err(e) => return Err(e),
        Ok((next, Some(term))) => return Ok((next, term)),
        Ok((_, None)) => {},
    }
    match parse_str_sugar(state) {
        Err(e) => return Err(e),
        Ok((next, Some(term))) => return Ok((next, term)),
        Ok((_, None)) => {},
    }
    match parse_lst_sugar(state) {
        Err(e) => return Err(e),
        Ok((next, Some(term))) => return Ok((next, term)),
        Ok((_, None)) => {},
    }
    match parse_var(state) {
        Err(e) => return Err(e),
        Ok((next, Some(term))) => return Ok((next, term)),
        Ok((_, None)) => {},
    }
    expected("Term", state)
}

/// Reads a rule, `lhs = rhs`. Where no term followed by `=` can be read,
/// there is no rule, and the state comes back as it was given.
pub fn parse_rule<'a>(state: State<'a>) -> (r: Answer<'a, Option<Rule>>)
    requires
        state.wf(),
    ensures
        match r {
            Ok((next, Some(rule))) => {
                &&& state.moved_to(next, next.pos())
                &&& state.index < next.index
                &&& rule_at(state.src(), state.pos()) == Ok::<(int, Option<RuleView>), Expected>(
                    (next.pos(), Some(rule@)),
                )
            },
            Ok((next, None)) => {
                &&& next == state
                &&& rule_at(state.src(), state.pos()) == Ok::<(int, Option<RuleView>), Expected>(
                    (state.pos(), None),
                )
            },
            Err(e) => rule_at(state.src(), state.pos()) == Err::<
                (int, Option<RuleView>),
                Expected,
            >(e@),
        },
{
    proof {
        lemma_skipped(state.src(), state.pos());
    }
    let (s1, lhs) = match parse_term(skip(state)) {
        Ok(v) => v,
        Err(_) => return Ok((state, None)),
    };
    proof {
        lemma_text_at(state.src(), s1.pos(), "="@);
    }
    let (s2, found) = text("=", s1);
    if !found {
        return Ok((state, None));
    }
    let (s3, rhs) = match parse_term(s2) {
        Ok(v) => v,
        Err(e) => return Err(e),
    };
    Ok((s3, Some(Rule { lhs, rhs })))
}

/// Reads rules up to the end of the text.
pub fn parse_file<'a>(state: State<'a>) -> (r: Answer<'a, File>)
    requires
        state.wf(),
    ensures
        match r {
            Ok((next, file)) => {
                &&& state.moved_to(next, next.pos())
                &&& file_at(state.src(), state.pos(), Seq::empty()) == Ok::<
                    (int, Seq<RuleView>),
                    Expected,
                >((next.pos(), file@))
            },
            Err(e) => file_at(state.src(), state.pos(), Seq::empty()) == Err::<
                (int, Seq<RuleView>),
                Expected,
            >(e@),
        },
{
    let ghost src = state.src();
    let mut rules: Vec<Rule> = Vec::new();
    let mut at = state;
    proof {
        assert(rule_views(rules@) =~= Seq::<RuleView>::empty());
    }
    loop
        invariant
            src == state.src(),
            state.moved_to(at, at.pos()),
            file_at(src, state.pos(), Seq::empty()) == file_at(src, at.pos(), rule_views(rules@)),
        decreases src.len() - at.pos(),
    {
        proof {
            lemma_skipped(src, at.pos());
        }
        let (from, end) = done(at);
        if end {
            return Ok((from, File { rules }));
        }
        match parse_rule(from) {
            Err(e) => return Err(e),
            Ok((_, None)) => return expected("definition", from),
            Ok((next, Some(rule))) => {
                proof {
                    assert(rule_views(rules@.push(rule)) =~= rule_views(rules@).push(rule@));
                }
                rules.push(rule);
                at = next;
            },
        }
    }
}

/// The characters of `code`, one by one.
pub fn to_chars(code: &str) -> (chars: Vec<char>)
    ensures
        chars@ == code@,
{
    let mut chars: Vec<char> = Vec::new();
    let all = code.chars();
    for c in iter: all
        invariant
            chars@ == iter.seq().take(iter.index@),
    {
        chars.push(c);
    }
    chars
}

/// Reads the term at the start of `code`.
pub fn read_term(code: &str) -> (r: Result<Box<Term>, ParseError>)
    ensures
        match r {
            Ok(term) => value_of(term_at(code@, 0)) == Ok::<TermView, Expected>(term@),
            Err(e) => value_of(term_at(code@, 0)) == Err::<TermView, Expected>(e@),
        },
{
    let chars = to_chars(code);
    match parse_term(State::new(chars.as_slice())) {
        Ok((_, term)) => Ok(term),
        Err(e) => Err(e),
    }
}

/// Reads the rules of the file whose text is `code`.
pub fn read_file(code: &str) -> (r: Result<File, ParseError>)
    ensures
        match r {
            Ok(file) => value_of(file_at(code@, 0, Seq::empty())) == Ok::<
                Seq<RuleView>,
                Expected,
            >(file@),
            Err(e) => value_of(file_at(code@, 0, Seq::empty())) == Err::<Seq<RuleView>, Expected>(
                e@,
            ),
        },
{
    let chars = to_chars(code);
    match parse_file(State::new(chars.as_slice())) {
        Ok((_, file)) => Ok(file),
        Err(e) => Err(e),
    }
}

/// Reads the rule at the start of `code`, if there is one.
pub fn read_rule(code: &str) -> (r: Result<Option<Rule>, ParseError>)
    ensures
        match r {
            Ok(Some(rule)) => value_of(rule_at(code@, 0)) == Ok::<Option<RuleView>, Expected>(
                Some(rule@),
            ),
            Ok(None) => value_of(rule_at(code@, 0)) == Ok::<Option<RuleView>, Expected>(None),
            Err(e) => value_of(rule_at(code@, 0)) == Err::<Option<RuleView>, Expected>(e@),
        },
{
    let chars = to_chars(code);
    match parse_rule(State::new(chars.as_slice())) {
        Ok((_, rule)) => Ok(rule),
        Err(e) => Err(e),
    }
}

} // verus!
