//! The grammar of terms, rules and files, as functions from a text and an
//! offset to what is read there.
//!
//! Each form has a predicate on the next significant offset, which decides
//! whether the form is attempted, and a body, which reads it. A term is read
//! by the first form whose predicate accepts.

use vstd::prelude::*;
use crate::parser::{
    char_at, consume_at, has_at, lemma_name_at, lemma_name_end, lemma_skipped, lemma_text_at,
    name1_at, name_end, skipped, text_at, Expected, Parsed,
};
use crate::term::{Oper, RuleView, TermView};
use crate::text::{
    number_of, spec_char_code, spec_is_digit, spec_is_lower, spec_is_oper_char, spec_is_upper,
};

verus! {

/// A read that is followed by further reads has to move on, and to stay
/// within the text; one that does not counts as a term that is missing.
/// The terms of this grammar always do: see `lemma_term_moves_on`.
pub open spec fn moving_on<T>(src: Seq<char>, from: int, r: Parsed<T>) -> Parsed<T> {
    match r {
        Ok((next, _)) => if from < next <= src.len() {
            r
        } else {
            Err(Expected { label: "Term"@, index: from })
        },
        Err(_) => r,
    }
}

/// The result of a form that is attempted only where its predicate accepts:
/// where it does not, nothing is read and the offset stays at `i`.
pub open spec fn guarded<T>(accepts: bool, i: int, body: Parsed<T>) -> Parsed<Option<T>> {
    if accepts {
        match body {
            Ok((next, value)) => Ok((next, Some(value))),
            Err(e) => Err(e),
        }
    } else {
        Ok((i, None))
    }
}

/// A `let`: the keyword and a blank.
pub open spec fn starts_let(src: Seq<char>, j: int) -> bool {
    has_at(src, j, "let "@)
}

/// A `dup`: the keyword and a blank.
pub open spec fn starts_dup(src: Seq<char>, j: int) -> bool {
    has_at(src, j, "dup "@)
}

/// An abstraction: the binder symbol, `λ` or `@`.
pub open spec fn starts_lam(src: Seq<char>, j: int) -> bool {
    has_at(src, j, "λ"@) || has_at(src, j, "@"@)
}

/// The offset behind an opening parenthesis at `j`, or `j` where there is
/// none.
pub open spec fn behind_paren(src: Seq<char>, j: int) -> int {
    if has_at(src, j, "("@) {
        j + 1
    } else {
        j
    }
}

/// A constructor: an upper-case letter, in parentheses or bare.
pub open spec fn starts_ctr(src: Seq<char>, j: int) -> bool {
    spec_is_upper(char_at(src, skipped(src, behind_paren(src, j))))
}

/// An operation: an opening parenthesis and a character of an operator.
pub open spec fn starts_op2(src: Seq<char>, j: int) -> bool {
    has_at(src, j, "("@) && spec_is_oper_char(char_at(src, skipped(src, j + 1)))
}

/// A run of terms in parentheses: an opening parenthesis.
pub open spec fn starts_app(src: Seq<char>, j: int) -> bool {
    has_at(src, j, "("@)
}

/// A number: a decimal digit.
pub open spec fn starts_u60(src: Seq<char>, j: int) -> bool {
    spec_is_digit(char_at(src, j))
}

/// A character literal: a single quote.
pub open spec fn starts_chr(src: Seq<char>, j: int) -> bool {
    char_at(src, j) == '\''
}

/// A string literal: a double quote or a backtick.
pub open spec fn starts_str(src: Seq<char>, j: int) -> bool {
    char_at(src, j) == '"' || char_at(src, j) == '`'
}

/// A list literal: an opening bracket.
pub open spec fn starts_lst(src: Seq<char>, j: int) -> bool {
    char_at(src, j) == '['
}

/// A variable: a lower-case letter, an underscore or a dollar sign.
pub open spec fn starts_var(src: Seq<char>, j: int) -> bool {
    spec_is_lower(char_at(src, j)) || char_at(src, j) == '_' || char_at(src, j) == '$'
}

/// The constructor term without arguments that ends a list or a string.
pub open spec fn nil(name: Seq<char>) -> TermView {
    TermView::Ctr { name, args: Seq::empty() }
}

/// The constructor term that puts `head` before `rest`.
pub open spec fn cons(name: Seq<char>, head: TermView, rest: TermView) -> TermView {
    TermView::Ctr { name, args: seq![head, rest] }
}

/// The term of a string literal: one `StrCons` for each character, with its
/// code, and `StrNil` at the end.
pub open spec fn string_term(chars: Seq<char>) -> TermView
    decreases chars.len(),
{
    if chars.len() == 0 {
        nil("StrNil"@)
    } else {
        cons(
            "StrCons"@,
            TermView::Num { numb: spec_char_code(chars[0]) },
            string_term(chars.drop_first()),
        )
    }
}

/// The term of a list literal: one `Cons` for each item, and `Nil` at the end.
pub open spec fn list_term(items: Seq<TermView>) -> TermView
    decreases items.len(),
{
    if items.len() == 0 {
        nil("Nil"@)
    } else {
        cons("Cons"@, items[0], list_term(items.drop_first()))
    }
}

/// The application of `func` to each of `args` in turn, nested to the left.
pub open spec fn apply_all(func: TermView, args: Seq<TermView>) -> TermView
    decreases args.len(),
{
    if args.len() == 0 {
        func
    } else {
        TermView::App {
            func: Box::new(apply_all(func, args.drop_last())),
            argm: Box::new(args.last()),
        }
    }
}

/// The term that a parenthesised run of terms stands for: the first applied
/// to the others, and zero where there is none.
pub open spec fn spine_term(items: Seq<TermView>) -> TermView {
    if items.len() == 0 {
        TermView::Num { numb: 0 }
    } else {
        apply_all(items[0], items.drop_first())
    }
}

/// The symbol of `oper` stands at `j`.
pub open spec fn symbol_at(src: Seq<char>, j: int, oper: Oper) -> bool {
    has_at(src, j, oper.symbol())
}

/// The operator `oper` as read at `j`, with the offset behind its symbol.
pub open spec fn behind_symbol(j: int, oper: Oper) -> (int, Oper) {
    (j + oper.symbol().len(), oper)
}

/// The operator whose symbol stands at the next significant offset. The
/// symbols are tried in a fixed order, in which each comes before those that
/// it begins with.
pub open spec fn oper_at(src: Seq<char>, i: int) -> Parsed<Oper> {
    let j = skipped(src, i);
    if symbol_at(src, j, Oper::Add) {
        Ok(behind_symbol(j, Oper::Add))
    } else if symbol_at(src, j, Oper::Sub) {
        Ok(behind_symbol(j, Oper::Sub))
    } else if symbol_at(src, j, Oper::Mul) {
        Ok(behind_symbol(j, Oper::Mul))
    } else if symbol_at(src, j, Oper::Div) {
        Ok(behind_symbol(j, Oper::Div))
    } else if symbol_at(src, j, Oper::Mod) {
        Ok(behind_symbol(j, Oper::Mod))
    } else if symbol_at(src, j, Oper::And) {
        Ok(behind_symbol(j, Oper::And))
    } else if symbol_at(src, j, Oper::Or) {
        Ok(behind_symbol(j, Oper::Or))
    } else if symbol_at(src, j, Oper::Xor) {
        Ok(behind_symbol(j, Oper::Xor))
    } else if symbol_at(src, j, Oper::Shl) {
        Ok(behind_symbol(j, Oper::Shl))
    } else if symbol_at(src, j, Oper::Shr) {
        Ok(behind_symbol(j, Oper::Shr))
    } else if symbol_at(src, j, Oper::Lte) {
        Ok(behind_symbol(j, Oper::Lte))
    } else if symbol_at(src, j, Oper::Ltn) {
        Ok(behind_symbol(j, Oper::Ltn))
    } else if symbol_at(src, j, Oper::Eql) {
        Ok(behind_symbol(j, Oper::Eql))
    } else if symbol_at(src, j, Oper::Gte) {
        Ok(behind_symbol(j, Oper::Gte))
    } else if symbol_at(src, j, Oper::Gtn) {
        Ok(behind_symbol(j, Oper::Gtn))
    } else if symbol_at(src, j, Oper::Neq) {
        Ok(behind_symbol(j, Oper::Neq))
    } else {
        Err(Expected { label: "Oper"@, index: i })
    }
}

/// A number: the identifier at `j` has to be a decimal numeral that fits in
/// 64 bits.
pub open spec fn u60_at(src: Seq<char>, j: int) -> Parsed<TermView> {
    let k = name_end(src, j);
    match number_of(src.subrange(j, k)) {
        Some(numb) => Ok((k, TermView::Num { numb })),
        None => Err(Expected { label: "number"@, index: j }),
    }
}

/// A variable: the identifier at `j`, which must not be empty.
pub open spec fn var_at(src: Seq<char>, j: int) -> Parsed<TermView> {
    let k = name_end(src, j);
    if k > j {
        Ok((k, TermView::Var { name: src.subrange(j, k) }))
    } else {
        Err(Expected { label: "name"@, index: j })
    }
}

/// A character literal: the character behind the quote at `j` gives its
/// code, and the closing quote has to follow it.
pub open spec fn chr_at(src: Seq<char>, j: int) -> Parsed<TermView> {
    if j + 1 < src.len() {
        match consume_at(src, j + 2, "'"@) {
            Err(e) => Err(e),
            Ok(next) => Ok((next, TermView::Num { numb: spec_char_code(src[j + 1]) })),
        }
    } else {
        Err(Expected { label: "character"@, index: j + 1 })
    }
}

/// The offset at which a string that is delimited by `delim` ends: that of
/// the next `delim` or NUL at or after `i`, or the end of the text.
pub open spec fn str_end(src: Seq<char>, i: int, delim: char) -> int
    decreases src.len() - i,
{
    if 0 <= i < src.len() && src[i] != delim && src[i] != '\0' {
        str_end(src, i + 1, delim)
    } else {
        i
    }
}

/// A string literal: the characters between the delimiter at `j` and the
/// next one. The closing delimiter is passed over; the end of the text
/// closes the string as well.
pub open spec fn str_at(src: Seq<char>, j: int) -> Parsed<TermView> {
    let end = str_end(src, j + 1, char_at(src, j));
    let next = if end < src.len() {
        end + 1
    } else {
        end
    };
    Ok((next, string_term(src.subrange(j + 1, end))))
}

/// A term: what the first form that accepts at the next significant offset
/// reads there.
pub open spec fn term_at(src: Seq<char>, i: int) -> Parsed<TermView>
    decreases src.len() - i, 1int,
{
    let j = skipped(src, i);
    proof {
        lemma_skipped(src, i);
        lemma_skipped(src, behind_paren(src, j));
    }
    if starts_let(src, j) {
        let_at(src, j)
    } else if starts_dup(src, j) {
        dup_at(src, j)
    } else if starts_lam(src, j) {
        lam_at(src, j)
    } else if starts_ctr(src, j) {
        ctr_at(src, j)
    } else if starts_op2(src, j) {
        op2_at(src, j)
    } else if starts_app(src, j) {
        app_at(src, j)
    } else if starts_u60(src, j) {
        u60_at(src, j)
    } else if starts_chr(src, j) {
        chr_at(src, j)
    } else if starts_str(src, j) {
        str_at(src, j)
    } else if starts_lst(src, j) {
        lst_at(src, j)
    } else if starts_var(src, j) {
        var_at(src, j)
    } else {
        Err(Expected { label: "Term"@, index: i })
    }
}

/// `let name = expr; body`, from the keyword at `j` on. Once the keyword is
/// read every part has to follow, the `=` and the `;` too.
pub open spec fn let_at(src: Seq<char>, j: int) -> Parsed<TermView>
    decreases src.len() - j, 0int,
{
    if !starts_let(src, j) {
        Err(Expected { label: "let "@, index: j })
    } else {
        match name1_at(src, j + "let "@.len()) {
            Err(e) => Err(e),
            Ok((k1, name)) => match consume_at(src, k1, "="@) {
                Err(e) => Err(e),
                Ok(k2) => {
                    proof {
                        lemma_name_at(src, j + "let "@.len());
                        lemma_text_at(src, k1, "="@);
                    }
                    match moving_on(src, k2, term_at(src, k2)) {
                        Err(e) => Err(e),
                        Ok((k3, expr)) => match consume_at(src, k3, ";"@) {
                            Err(e) => Err(e),
                            Ok(k4) => {
                                proof {
                                    lemma_text_at(src, k3, ";"@);
                                }
                                match term_at(src, k4) {
                                    Err(e) => Err(e),
                                    Ok((k5, body)) => Ok(
                                        (
                                            k5,
                                            TermView::Let {
                                                name,
                                                expr: Box::new(expr),
                                                body: Box::new(body),
                                            },
                                        ),
                                    ),
                                }
                            },
                        },
                    }
                },
            },
        }
    }
}

/// `dup nam0 nam1 = expr; body`, from the keyword at `j` on. Once the keyword
/// is read every part has to follow, the `=` and the `;` too.
pub open spec fn dup_at(src: Seq<char>, j: int) -> Parsed<TermView>
    decreases src.len() - j, 0int,
{
    if !starts_dup(src, j) {
        Err(Expected { label: "dup "@, index: j })
    } else {
        match name1_at(src, j + "dup "@.len()) {
            Err(e) => Err(e),
            Ok((k0, nam0)) => match name1_at(src, k0) {
                Err(e) => Err(e),
                Ok((k1, nam1)) => match consume_at(src, k1, "="@) {
                    Err(e) => Err(e),
                    Ok(k2) => {
                        proof {
                            lemma_name_at(src, j + "dup "@.len());
                            lemma_name_at(src, k0);
                            lemma_text_at(src, k1, "="@);
                        }
                        match moving_on(src, k2, term_at(src, k2)) {
                            Err(e) => Err(e),
                            Ok((k3, expr)) => match consume_at(src, k3, ";"@) {
                                Err(e) => Err(e),
                                Ok(k4) => {
                                    proof {
                                        lemma_text_at(src, k3, ";"@);
                                    }
                                    match term_at(src, k4) {
                                        Err(e) => Err(e),
                                        Ok((k5, body)) => Ok(
                                            (
                                                k5,
                                                TermView::Dup {
                                                    nam0,
                                                    nam1,
                                                    expr: Box::new(expr),
                                                    body: Box::new(body),
                                                },
                                            ),
                                        ),
                                    }
                                },
                            },
                        }
                    },
                },
            },
        }
    }
}

/// `λname body`, from the binder symbol at `j` on.
pub open spec fn lam_at(src: Seq<char>, j: int) -> Parsed<TermView>
    decreases src.len() - j, 0int,
{
    if !starts_lam(src, j) {
        Err(Expected { label: "λ"@, index: j })
    } else {
        match name1_at(src, j + 1) {
            Err(e) => Err(e),
            Ok((k1, name)) => {
                proof {
                    reveal_strlit("λ");
                    reveal_strlit("@");
                    lemma_name_at(src, j + 1);
                }
                match term_at(src, k1) {
                    Err(e) => Err(e),
                    Ok((k2, body)) => Ok((k2, TermView::Lam { name, body: Box::new(body) })),
                }
            },
        }
    }
}

/// Terms up to the literal `close`, which is looked for before each of them
/// and passed over once it is found. With `comma`, a comma behind a term is
/// passed over too. The terms are added to `acc` in the order read.
pub open spec fn terms_until(
    src: Seq<char>,
    i: int,
    close: Seq<char>,
    comma: bool,
    acc: Seq<TermView>,
) -> Parsed<Seq<TermView>>
    decreases src.len() - i, 2int,
{
    let (next, found) = text_at(src, i, close);
    if found {
        Ok((next, acc))
    } else {
        match moving_on(src, i, term_at(src, i)) {
            Err(e) => Err(e),
            Ok((k1, item)) => {
                let k2 = if comma {
                    text_at(src, k1, ","@).0
                } else {
                    k1
                };
                proof {
                    lemma_text_at(src, k1, ","@);
                }
                terms_until(src, k2, close, comma, acc.push(item))
            },
        }
    }
}

/// `(Name term*)`, or a bare `Name` without arguments, from `j` on.
pub open spec fn ctr_at(src: Seq<char>, j: int) -> Parsed<TermView>
    decreases src.len() - j, 0int,
{
    match name1_at(src, behind_paren(src, j)) {
        Err(e) => Err(e),
        Ok((k1, name)) => if has_at(src, j, "("@) {
            proof {
                reveal_strlit("(");
                lemma_name_at(src, j + 1);
            }
            match terms_until(src, k1, ")"@, false, Seq::empty()) {
                Err(e) => Err(e),
                Ok((k2, args)) => Ok((k2, TermView::Ctr { name, args })),
            }
        } else {
            Ok((k1, TermView::Ctr { name, args: Seq::empty() }))
        },
    }
}

/// `(oper val0 val1)`, from the parenthesis at `j` on. The closing
/// parenthesis has to follow the second operand.
pub open spec fn op2_at(src: Seq<char>, j: int) -> Parsed<TermView>
    decreases src.len() - j, 0int,
{
    if !has_at(src, j, "("@) {
        Err(Expected { label: "("@, index: j })
    } else {
        match oper_at(src, j + 1) {
            Err(e) => Err(e),
            Ok((k1, oper)) => {
                proof {
                    reveal_strlit("(");
                    lemma_skipped(src, j + 1);
                }
                match moving_on(src, k1, term_at(src, k1)) {
                    Err(e) => Err(e),
                    Ok((k2, val0)) => match term_at(src, k2) {
                        Err(e) => Err(e),
                        Ok((k3, val1)) => match consume_at(src, k3, ")"@) {
                            Err(e) => Err(e),
                            Ok(k4) => Ok(
                                (
                                    k4,
                                    TermView::Op2 {
                                        oper,
                                        val0: Box::new(val0),
                                        val1: Box::new(val1),
                                    },
                                ),
                            ),
                        },
                    },
                }
            },
        }
    }
}

/// `(term*)`, from the parenthesis at `j` on.
pub open spec fn app_at(src: Seq<char>, j: int) -> Parsed<TermView>
    decreases src.len() - j, 0int,
{
    if !has_at(src, j, "("@) {
        Err(Expected { label: "("@, index: j })
    } else {
        proof {
            reveal_strlit("(");
        }
        match terms_until(src, j + 1, ")"@, false, Seq::empty()) {
            Err(e) => Err(e),
            Ok((k, items)) => Ok((k, spine_term(items))),
        }
    }
}

/// `[term,* ]`, from the bracket at `j` on.
pub open spec fn lst_at(src: Seq<char>, j: int) -> Parsed<TermView>
    decreases src.len() - j, 0int,
{
    if !starts_lst(src, j) {
        Err(Expected { label: "["@, index: j })
    } else {
        match terms_until(src, j + 1, "]"@, true, Seq::empty()) {
            Err(e) => Err(e),
            Ok((k, items)) => Ok((k, list_term(items))),
        }
    }
}

/// A rule, `lhs = rhs`. Where no term followed by `=` can be read, there is
/// no rule: nothing is read and the offset stays at `i`. Behind the `=` the
/// right-hand side has to follow.
pub open spec fn rule_at(src: Seq<char>, i: int) -> Parsed<Option<RuleView>> {
    match term_at(src, skipped(src, i)) {
        Err(_) => Ok((i, None)),
        Ok((k1, lhs)) => {
            let (k2, found) = text_at(src, k1, "="@);
            if found {
                match term_at(src, k2) {
                    Err(e) => Err(e),
                    Ok((k3, rhs)) => Ok((k3, Some(RuleView { lhs, rhs }))),
                }
            } else {
                Ok((i, None))
            }
        },
    }
}

/// The rules from `i` to the end of the text, added to `acc` in the order
/// read. Where significant text is left and no rule begins there, a
/// definition is missing at that offset.
pub open spec fn file_at(src: Seq<char>, i: int, acc: Seq<RuleView>) -> Parsed<Seq<RuleView>>
    decreases src.len() - i,
{
    let j = skipped(src, i);
    proof {
        lemma_skipped(src, i);
    }
    if j >= src.len() {
        Ok((j, acc))
    } else {
        match rule_at(src, j) {
            Err(e) => Err(e),
            Ok((next, Some(rule))) => if j < next <= src.len() {
                file_at(src, next, acc.push(rule))
            } else {
                Err(Expected { label: "definition"@, index: j })
            },
            Ok((_, None)) => Err(Expected { label: "definition"@, index: j }),
        }
    }
}

/// What a reader gives when only its value is asked for.
pub open spec fn value_of<T>(r: Parsed<T>) -> Result<T, Expected> {
    match r {
        Ok((_, value)) => Ok(value),
        Err(e) => Err(e),
    }
}

/// A string ends at or behind the offset it is looked for at, within the
/// text.
pub proof fn lemma_str_end(src: Seq<char>, i: int, delim: char)
    ensures
        i <= str_end(src, i, delim),
        i <= src.len() ==> str_end(src, i, delim) <= src.len(),
    decreases src.len() - i,
{
    if 0 <= i < src.len() && src[i] != delim && src[i] != '\0' {
        lemma_str_end(src, i + 1, delim);
    }
}

/// Every term that is read takes up at least one character of the text: what
/// `moving_on` asks of a read, the reads of terms give.
pub proof fn lemma_term_moves_on(src: Seq<char>, i: int)
    requires
        0 <= i <= src.len(),
    ensures
        term_at(src, i) matches Ok((next, _)) ==> i < next <= src.len(),
        moving_on(src, i, term_at(src, i)) == term_at(src, i),
    decreases src.len() - i, 1int,
{
    let j = skipped(src, i);
    lemma_skipped(src, i);
    if starts_let(src, j) {
        lemma_let_moves_on(src, j);
    } else if starts_dup(src, j) {
        lemma_dup_moves_on(src, j);
    } else if starts_lam(src, j) {
        lemma_lam_moves_on(src, j);
    } else if starts_ctr(src, j) {
        lemma_ctr_moves_on(src, j);
    } else if starts_op2(src, j) {
        lemma_op2_moves_on(src, j);
    } else if starts_app(src, j) {
        lemma_app_moves_on(src, j);
    } else if starts_u60(src, j) {
        lemma_name_end(src, j);
    } else if starts_chr(src, j) {
        lemma_text_at(src, j + 2, "'"@);
    } else if starts_str(src, j) {
        lemma_str_end(src, j + 1, char_at(src, j));
    } else if starts_lst(src, j) {
        lemma_lst_moves_on(src, j);
    } else if starts_var(src, j) {
        lemma_name_end(src, j);
    }
}

/// A run of terms ends at or behind the offset at which it begins, within the
/// text.
pub proof fn lemma_terms_until_moves_on(
    src: Seq<char>,
    i: int,
    close: Seq<char>,
    comma: bool,
    acc: Seq<TermView>,
)
    requires
        0 <= i <= src.len(),
    ensures
        terms_until(src, i, close, comma, acc) matches Ok((next, _)) ==> i <= next <= src.len(),
    decreases src.len() - i, 2int,
{
    lemma_text_at(src, i, close);
    let (next, found) = text_at(src, i, close);
    if !found {
        lemma_term_moves_on(src, i);
        match term_at(src, i) {
            Ok((k1, item)) => {
                lemma_text_at(src, k1, ","@);
                let k2 = if comma {
                    text_at(src, k1, ","@).0
                } else {
                    k1
                };
                lemma_terms_until_moves_on(src, k2, close, comma, acc.push(item));
            },
            Err(_) => {},
        }
    }
}

/// `lemma_term_moves_on` for a `let`.
proof fn lemma_let_moves_on(src: Seq<char>, j: int)
    requires
        0 <= j <= src.len(),
    ensures
        let_at(src, j) matches Ok((next, _)) ==> j < next <= src.len(),
    decreases src.len() - j, 0int,
{
    if starts_let(src, j) {
        lemma_name_at(src, j + "let "@.len());
        match name1_at(src, j + "let "@.len()) {
            Ok((k1, _)) => {
                lemma_text_at(src, k1, "="@);
                match consume_at(src, k1, "="@) {
                    Ok(k2) => {
                        lemma_term_moves_on(src, k2);
                        match term_at(src, k2) {
                            Ok((k3, _)) => {
                                lemma_text_at(src, k3, ";"@);
                                match consume_at(src, k3, ";"@) {
                                    Ok(k4) => {
                                        lemma_term_moves_on(src, k4);
                                    },
                                    Err(_) => {},
                                }
                            },
                            Err(_) => {},
                        }
                    },
                    Err(_) => {},
                }
            },
            Err(_) => {},
        }
    }
}

/// `lemma_term_moves_on` for a `dup`.
proof fn lemma_dup_moves_on(src: Seq<char>, j: int)
    requires
        0 <= j <= src.len(),
    ensures
        dup_at(src, j) matches Ok((next, _)) ==> j < next <= src.len(),
    decreases src.len() - j, 0int,
{
    if starts_dup(src, j) {
        lemma_name_at(src, j + "dup "@.len());
        match name1_at(src, j + "dup "@.len()) {
            Ok((k0, _)) => {
                lemma_name_at(src, k0);
                match name1_at(src, k0) {
                    Ok((k1, _)) => {
                        lemma_text_at(src, k1, "="@);
                        match consume_at(src, k1, "="@) {
                            Ok(k2) => {
                                lemma_term_moves_on(src, k2);
                                match term_at(src, k2) {
                                    Ok((k3, _)) => {
                                        lemma_text_at(src, k3, ";"@);
                                        match consume_at(src, k3, ";"@) {
                                            Ok(k4) => {
                                                lemma_term_moves_on(src, k4);
                                            },
                                            Err(_) => {},
                                        }
                                    },
                                    Err(_) => {},
                                }
                            },
                            Err(_) => {},
                        }
                    },
                    Err(_) => {},
                }
            },
            Err(_) => {},
        }
    }
}

/// `lemma_term_moves_on` for an abstraction.
proof fn lemma_lam_moves_on(src: Seq<char>, j: int)
    requires
        0 <= j <= src.len(),
    ensures
        lam_at(src, j) matches Ok((next, _)) ==> j < next <= src.len(),
    decreases src.len() - j, 0int,
{
    reveal_strlit("λ");
    reveal_strlit("@");
    if starts_lam(src, j) {
        lemma_name_at(src, j + 1);
        match name1_at(src, j + 1) {
            Ok((k1, _)) => {
                lemma_term_moves_on(src, k1);
            },
            Err(_) => {},
        }
    }
}

/// `lemma_term_moves_on` for a constructor.
proof fn lemma_ctr_moves_on(src: Seq<char>, j: int)
    requires
        0 <= j <= src.len(),
    ensures
        ctr_at(src, j) matches Ok((next, _)) ==> j < next <= src.len(),
    decreases src.len() - j, 0int,
{
    reveal_strlit("(");
    lemma_name_at(src, behind_paren(src, j));
    lemma_skipped(src, behind_paren(src, j));
    match name1_at(src, behind_paren(src, j)) {
        Ok((k1, _)) => {
            if has_at(src, j, "("@) {
                lemma_terms_until_moves_on(src, k1, ")"@, false, Seq::empty());
            }
        },
        Err(_) => {},
    }
}

/// `lemma_term_moves_on` for an operation.
proof fn lemma_op2_moves_on(src: Seq<char>, j: int)
    requires
        0 <= j <= src.len(),
    ensures
        op2_at(src, j) matches Ok((next, _)) ==> j < next <= src.len(),
    decreases src.len() - j, 0int,
{
    reveal_strlit("(");
    if has_at(src, j, "("@) {
        lemma_skipped(src, j + 1);
        match oper_at(src, j + 1) {
            Ok((k1, _)) => {
                lemma_term_moves_on(src, k1);
                match term_at(src, k1) {
                    Ok((k2, _)) => {
                        lemma_term_moves_on(src, k2);
                        match term_at(src, k2) {
                            Ok((k3, _)) => {
                                lemma_text_at(src, k3, ")"@);
                            },
                            Err(_) => {},
                        }
                    },
                    Err(_) => {},
                }
            },
            Err(_) => {},
        }
    }
}

/// `lemma_term_moves_on` for a run of terms in parentheses.
proof fn lemma_app_moves_on(src: Seq<char>, j: int)
    requires
        0 <= j <= src.len(),
    ensures
        app_at(src, j) matches Ok((next, _)) ==> j < next <= src.len(),
    decreases src.len() - j, 0int,
{
    reveal_strlit("(");
    if has_at(src, j, "("@) {
        lemma_terms_until_moves_on(src, j + 1, ")"@, false, Seq::empty());
    }
}

/// `lemma_term_moves_on` for a list.
proof fn lemma_lst_moves_on(src: Seq<char>, j: int)
    requires
        0 <= j <= src.len(),
    ensures
        lst_at(src, j) matches Ok((next, _)) ==> j < next <= src.len(),
    decreases src.len() - j, 0int,
{
    if starts_lst(src, j) {
        lemma_terms_until_moves_on(src, j + 1, "]"@, true, Seq::empty());
    }
}

/// A rule that is read takes up at least one character of the text.
pub proof fn lemma_rule_moves_on(src: Seq<char>, i: int)
    requires
        0 <= i <= src.len(),
    ensures
        rule_at(src, i) matches Ok((next, Some(_))) ==> i < next <= src.len(),
{
    lemma_skipped(src, i);
    lemma_term_moves_on(src, skipped(src, i));
    match term_at(src, skipped(src, i)) {
        Ok((k1, _)) => {
            lemma_text_at(src, k1, "="@);
            lemma_term_moves_on(src, text_at(src, k1, "="@).0);
        },
        Err(_) => {},
    }
}

} // verus!
