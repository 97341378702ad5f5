//! What reading and writing have to do with each other: a canonical term that
//! is written is read back as the same term.

use vstd::prelude::*;
use crate::grammar::{
    cons, file_at, list_term, oper_at, rule_at, spine_term, starts_dup, starts_lam, starts_let,
    str_end, string_term, term_at, terms_until, value_of,
};
use crate::parser::{
    char_at, consume_at, has_at, lemma_skipped, name1_at, name_end, opens_comment, skipped,
    text_at, Expected,
};
use crate::printer::{
    is_list, is_string, show, show_args, show_func, show_items, show_rule, show_rules,
    string_chars,
};
use crate::term::{Oper, RuleView, TermView};
use crate::text::{
    code_char, decimal, lemma_char_code, lemma_code_char, lemma_decimal_value, spec_char_code, spec_is_digit, spec_is_lower,
    spec_is_name_char, spec_is_oper_char, spec_is_space, spec_is_upper,
};

verus! {

/// A text that stands at an offset consists of parts that stand one behind
/// the other.
pub proof fn lemma_has_at_parts(src: Seq<char>, i: int, a: Seq<char>, b: Seq<char>)
    ensures
        has_at(src, i, a + b) <==> has_at(src, i, a) && has_at(src, i + a.len(), b),
{
    if has_at(src, i, a + b) {
        assert forall|k: int| 0 <= k < a.len() implies src[i + k] == #[trigger] a[k] by {
            assert((a + b)[k] == a[k]);
        }
        assert forall|k: int| 0 <= k < b.len() implies src[i + a.len() + k] == #[trigger] b[k] by {
            assert((a + b)[a.len() + k] == b[k]);
        }
    }
    if has_at(src, i, a) && has_at(src, i + a.len(), b) {
        assert forall|k: int| 0 <= k < (a + b).len() implies src[i + k] == #[trigger] (a + b)[k] by {
            if k < a.len() {
                assert((a + b)[k] == a[k]);
            } else {
                assert((a + b)[k] == b[k - a.len()]);
                assert(src[i + a.len() + (k - a.len())] == b[k - a.len()]);
            }
        }
    }
}

/// Where a text stands, its first character stands.
pub proof fn lemma_first_char(src: Seq<char>, i: int, pat: Seq<char>)
    requires
        pat.len() > 0,
    ensures
        has_at(src, i, pat) ==> char_at(src, i) == pat[0],
{
    if has_at(src, i, pat) {
        assert(src[i + 0] == pat[0]);
    }
}

/// A non-empty run of identifier characters.
pub open spec fn is_name(s: Seq<char>) -> bool {
    s.len() > 0 && forall|k: int| 0 <= k < s.len() ==> spec_is_name_char(#[trigger] s[k])
}

/// An identifier that stands at `i` and ends there is what is read at `i`.
pub proof fn lemma_name_run(src: Seq<char>, i: int, name: Seq<char>)
    requires
        has_at(src, i, name),
        forall|k: int| 0 <= k < name.len() ==> spec_is_name_char(#[trigger] name[k]),
        !spec_is_name_char(char_at(src, i + name.len())),
    ensures
        name_end(src, i) == i + name.len(),
        src.subrange(i, i + name.len()) == name,
    decreases name.len(),
{
    if name.len() > 0 {
        let rest = name.drop_first();
        assert(src[i + 0] == name[0]);
        assert(has_at(src, i + 1, rest)) by {
            assert forall|k: int| 0 <= k < rest.len() implies src[i + 1 + k] == #[trigger] rest[k] by {
                assert(src[i + (k + 1)] == name[k + 1]);
            }
        }
        assert forall|k: int| 0 <= k < rest.len() implies spec_is_name_char(#[trigger] rest[k]) by {
            assert(rest[k] == name[k + 1]);
        }
        lemma_name_run(src, i + 1, rest);
    }
    assert(src.subrange(i, i + name.len()) =~= name) by {
        assert forall|k: int| 0 <= k < name.len() implies src[i + k] == name[k] by {
            assert(src[i + k] == name[k]);
        }
    }
}

/// A name that a variable can have: an identifier that begins with a
/// lower-case letter or an underscore.
pub open spec fn is_var_name(s: Seq<char>) -> bool {
    is_name(s) && (spec_is_lower(s[0]) || s[0] == '_')
}

/// A name that a constructor can have: an identifier that begins with an
/// upper-case letter.
pub open spec fn is_ctr_name(s: Seq<char>) -> bool {
    is_name(s) && spec_is_upper(s[0])
}

/// The characters that can stand in a string between double quotes: any but
/// the double quote and NUL, which end the string.
pub open spec fn quotable(chars: Seq<char>) -> bool {
    forall|k: int| 0 <= k < chars.len() ==> #[trigger] chars[k] != '"' && chars[k] != '\0'
}

/// The terms that are read back as they are written. Names are identifiers
/// of the right kind. A constructor that has the shape of a string holds only
/// characters that can stand between double quotes; one that has the shape of
/// a list holds canonical items; any other has the name of a constructor and
/// canonical arguments. `spaced` says that a blank follows the term where it
/// is written: there a variable cannot be called `let` or `dup`, which would
/// be read as the keyword.
pub open spec fn canonical(t: TermView, spaced: bool) -> bool
    decreases t, 1int,
{
    match t {
        TermView::Var { name } => is_var_name(name) && (spaced ==> name != "let"@ && name
            != "dup"@),
        TermView::Dup { nam0, nam1, expr, body } => is_name(nam0) && is_name(nam1) && canonical(
            *expr,
            false,
        ) && canonical(*body, spaced),
        TermView::Let { name, expr, body } => is_name(name) && canonical(*expr, false)
            && canonical(*body, spaced),
        TermView::Lam { name, body } => is_name(name) && canonical(*body, spaced),
        TermView::App { func, argm } => canonical_func(*func) && canonical(*argm, false),
        TermView::Ctr { name, args } => if is_string(t) {
            quotable(string_chars(t))
        } else if is_list(t) {
            canonical_list(t)
        } else {
            is_ctr_name(name) && canonical_args(args, false)
        },
        TermView::Num { numb } => true,
        TermView::Op2 { oper, val0, val1 } => canonical(*val0, true) && canonical(*val1, false),
    }
}

/// `canonical` for the items of a term that has the shape of a list: a comma
/// or the closing bracket follows each.
pub open spec fn canonical_list(t: TermView) -> bool
    decreases t, 0int,
{
    match t {
        TermView::Ctr { name, args } => if name == "Cons"@ && args.len() == 2 {
            canonical(args[0], false) && canonical_list(args[1])
        } else {
            true
        },
        _ => true,
    }
}

/// `canonical` for the function of an application, which a blank follows.
pub open spec fn canonical_func(t: TermView) -> bool
    decreases t, 2int,
{
    match t {
        TermView::App { func, argm } => canonical_func(*func) && canonical(*argm, true),
        _ => canonical(t, true),
    }
}

/// `canonical` for the arguments of a constructor: a blank follows each but
/// the last, and the last where `spaced` says so.
pub open spec fn canonical_args(args: Seq<TermView>, spaced: bool) -> bool
    decreases args, 0int,
{
    if args.len() == 0 {
        true
    } else {
        canonical_args(args.drop_last(), true) && canonical(args.last(), spaced)
    }
}

/// The characters with which a canonical term can begin.
pub open spec fn opens_term(c: char) -> bool {
    spec_is_lower(c) || c == '_' || c == 'λ' || c == '(' || spec_is_digit(c) || c == '"' || c
        == '['
}

/// A canonical term is written with at least one character, and the first is
/// one of those with which a term begins.
pub proof fn lemma_show_opens(t: TermView, spaced: bool)
    requires
        canonical(t, spaced),
    ensures
        show(t).len() > 0,
        opens_term(show(t)[0]),
{
    reveal_strlit("dup ");
    reveal_strlit("let ");
    reveal_strlit("λ");
    reveal_strlit("(");
    reveal_strlit("[");
    reveal_strlit("\"");
    match t {
        TermView::Num { numb } => {
            lemma_decimal_value(numb as nat);
        },
        _ => {},
    }
}

/// The function of a canonical application is written with at least one
/// character, and the first is one of those with which a term begins.
pub proof fn lemma_show_func_opens(t: TermView)
    requires
        canonical_func(t),
    ensures
        show_func(t).len() > 0,
        opens_term(show_func(t)[0]),
    decreases t,
{
    match t {
        TermView::App { func, argm } => {
            lemma_show_func_opens(*func);
        },
        _ => {
            lemma_show_opens(t, true);
        },
    }
}

/// Nothing is passed over at a character with which a term begins.
pub proof fn lemma_skipped_at_opening(src: Seq<char>, i: int)
    requires
        0 <= i < src.len(),
        opens_term(src[i]) || spec_is_name_char(src[i]),
    ensures
        skipped(src, i) == i,
{
}

/// One blank before a significant character is passed over.
pub proof fn lemma_skipped_blank(src: Seq<char>, i: int)
    requires
        0 <= i,
        i + 1 < src.len(),
        src[i] == ' ',
        !spec_is_space(src[i + 1]),
        !opens_comment(src, i + 1),
    ensures
        skipped(src, i) == i + 1,
{
    assert(skipped(src, i + 1) == i + 1);
}

/// A term is read behind insignificant characters as it is read at the first
/// significant one.
pub proof fn lemma_term_behind(src: Seq<char>, i: int, j: int)
    requires
        skipped(src, i) == j,
        term_at(src, j) is Ok,
    ensures
        term_at(src, i) == term_at(src, j),
{
    lemma_skipped(src, i);
}

/// A term is read behind one blank as it is read at its first character.
pub proof fn lemma_term_behind_blank(src: Seq<char>, i: int)
    requires
        0 <= i,
        i + 1 < src.len(),
        src[i] == ' ',
        opens_term(src[i + 1]),
        term_at(src, i + 1) is Ok,
    ensures
        term_at(src, i) == term_at(src, i + 1),
{
    lemma_skipped_blank(src, i);
    lemma_term_behind(src, i, i + 1);
}

/// An identifier that stands at `p` and ends there is read at `p`.
pub proof fn lemma_reads_name(src: Seq<char>, p: int, name: Seq<char>)
    requires
        is_name(name),
        has_at(src, p, name),
        !spec_is_name_char(char_at(src, p + name.len())),
    ensures
        name1_at(src, p) == Ok::<(int, Seq<char>), Expected>((p + name.len(), name)),
{
    lemma_first_char(src, p, name);
    lemma_skipped_at_opening(src, p);
    lemma_name_run(src, p, name);
}

/// An identifier behind one blank is read from the blank on.
pub proof fn lemma_reads_name_behind_blank(src: Seq<char>, p: int, name: Seq<char>)
    requires
        is_name(name),
        char_at(src, p) == ' ',
        has_at(src, p + 1, name),
        !spec_is_name_char(char_at(src, p + 1 + name.len())),
    ensures
        name1_at(src, p) == Ok::<(int, Seq<char>), Expected>((p + 1 + name.len(), name)),
{
    lemma_first_char(src, p + 1, name);
    lemma_skipped_blank(src, p);
    lemma_name_run(src, p + 1, name);
}

/// Which forms can begin at an offset, by the character that stands there.
pub proof fn lemma_starts(src: Seq<char>, j: int)
    ensures
        starts_let(src, j) ==> char_at(src, j) == 'l',
        starts_dup(src, j) ==> char_at(src, j) == 'd',
        starts_lam(src, j) <==> char_at(src, j) == 'λ' || char_at(src, j) == '@',
        has_at(src, j, "("@) <==> char_at(src, j) == '(',
{
    reveal_strlit("let ");
    reveal_strlit("dup ");
    reveal_strlit("λ");
    reveal_strlit("@");
    reveal_strlit("(");
    lemma_first_char(src, j, "let "@);
    lemma_first_char(src, j, "dup "@);
    lemma_first_char(src, j, "λ"@);
    lemma_first_char(src, j, "@"@);
    lemma_first_char(src, j, "("@);
}

/// An identifier that is followed by something else than an identifier
/// character is not taken for the keyword `word`, unless it is that word and
/// a blank follows.
pub proof fn lemma_not_keyword(src: Seq<char>, i: int, name: Seq<char>, word: Seq<char>)
    requires
        is_name(name),
        has_at(src, i, name),
        !spec_is_name_char(char_at(src, i + name.len())),
        word.len() == 3,
        forall|k: int| 0 <= k < 3 ==> spec_is_name_char(#[trigger] word[k]),
        name != word || char_at(src, i + name.len()) != ' ',
    ensures
        !has_at(src, i, word + seq![' ']),
{
    let pat = word + seq![' '];
    if has_at(src, i, pat) {
        assert(pat[0] == word[0] && pat[1] == word[1] && pat[2] == word[2] && pat[3] == ' ');
        assert(src[i + 0] == pat[0]);
        assert(src[i + 1] == pat[1]);
        assert(src[i + 2] == pat[2]);
        assert(src[i + 3] == pat[3]);
        if name.len() >= 4 {
            assert(src[i + 3] == name[3]);
        } else if name.len() == 3 {
            assert(src[i + 0] == name[0]);
            assert(src[i + 1] == name[1]);
            assert(src[i + 2] == name[2]);
            assert(name =~= word);
        } else if name.len() == 2 {
            assert(spec_is_name_char(word[2]));
        } else {
            assert(spec_is_name_char(word[1]));
        }
    }
}

/// A variable that is written at `i` is read there.
pub proof fn lemma_reads_var(src: Seq<char>, i: int, name: Seq<char>)
    requires
        is_var_name(name),
        has_at(src, i, name),
        !spec_is_name_char(char_at(src, i + name.len())),
        char_at(src, i + name.len()) == ' ' ==> name != "let"@ && name != "dup"@,
    ensures
        term_at(src, i) == Ok::<(int, TermView), Expected>(
            (i + name.len(), TermView::Var { name }),
        ),
{
    lemma_first_char(src, i, name);
    lemma_skipped_at_opening(src, i);
    lemma_starts(src, i);
    lemma_name_run(src, i, name);
    reveal_strlit("let ");
    reveal_strlit("dup ");
    reveal_strlit("let");
    reveal_strlit("dup");
    assert("let "@ =~= "let"@ + seq![' ']);
    assert("dup "@ =~= "dup"@ + seq![' ']);
    lemma_not_keyword(src, i, name, "let"@);
    lemma_not_keyword(src, i, name, "dup"@);
}

/// A number that is written at `i` is read there.
pub proof fn lemma_reads_number(src: Seq<char>, i: int, n: u64)
    requires
        has_at(src, i, decimal(n as nat)),
        !spec_is_name_char(char_at(src, i + decimal(n as nat).len())),
    ensures
        term_at(src, i) == Ok::<(int, TermView), Expected>(
            (i + decimal(n as nat).len(), TermView::Num { numb: n }),
        ),
{
    let numeral = decimal(n as nat);
    lemma_decimal_value(n as nat);
    lemma_first_char(src, i, numeral);
    lemma_skipped_at_opening(src, i);
    lemma_starts(src, i);
    lemma_name_run(src, i, numeral);
}

/// An abstraction that is written at `i` is read there, if its body is read
/// where it is written.
pub proof fn lemma_reads_lam(
    src: Seq<char>,
    i: int,
    name: Seq<char>,
    body: TermView,
    e: int,
)
    requires
        is_name(name),
        has_at(src, i, "λ"@ + name + " "@),
        opens_term(char_at(src, i + 2 + name.len())),
        term_at(src, i + 2 + name.len()) == Ok::<(int, TermView), Expected>((e, body)),
    ensures
        term_at(src, i) == Ok::<(int, TermView), Expected>(
            (e, TermView::Lam { name, body: Box::new(body) }),
        ),
{
    reveal_strlit("λ");
    reveal_strlit(" ");
    lemma_has_at_parts(src, i, "λ"@ + name, " "@);
    lemma_has_at_parts(src, i, "λ"@, name);
    lemma_first_char(src, i, "λ"@);
    lemma_first_char(src, i + 1 + name.len(), " "@);
    lemma_skipped_at_opening(src, i);
    lemma_starts(src, i);
    lemma_reads_name(src, i + 1, name);
    lemma_term_behind_blank(src, i + 1 + name.len());
}

/// A `let` that is written at `i` is read there, if its parts are read where
/// they are written: the expression ends at `m`, the body at `e`.
pub proof fn lemma_reads_let(
    src: Seq<char>,
    i: int,
    name: Seq<char>,
    expr: TermView,
    body: TermView,
    m: int,
    e: int,
)
    requires
        is_name(name),
        has_at(src, i, "let "@ + name + " = "@),
        opens_term(char_at(src, i + 7 + name.len())),
        term_at(src, i + 7 + name.len()) == Ok::<(int, TermView), Expected>((m, expr)),
        i + 7 + name.len() < m,
        has_at(src, m, "; "@),
        opens_term(char_at(src, m + 2)),
        term_at(src, m + 2) == Ok::<(int, TermView), Expected>((e, body)),
    ensures
        term_at(src, i) == Ok::<(int, TermView), Expected>(
            (e, TermView::Let { name, expr: Box::new(expr), body: Box::new(body) }),
        ),
{
    reveal_strlit("let ");
    reveal_strlit(" = ");
    reveal_strlit("; ");
    reveal_strlit("=");
    reveal_strlit(";");
    let n = name.len() as int;
    lemma_has_at_parts(src, i, "let "@ + name, " = "@);
    lemma_has_at_parts(src, i, "let "@, name);
    lemma_first_char(src, i, "let "@);
    lemma_skipped_at_opening(src, i);
    let k1 = i + 4 + n;
    assert(src[k1 + 0] == " = "@[0]);
    assert(src[k1 + 1] == " = "@[1]);
    assert(src[k1 + 2] == " = "@[2]);
    lemma_reads_name(src, i + 4, name);
    lemma_skipped_blank(src, k1);
    assert(has_at(src, k1 + 1, "="@));
    assert(consume_at(src, k1, "="@) == Ok::<int, Expected>(k1 + 2));
    lemma_term_behind_blank(src, k1 + 2);
    assert(src[m + 0] == "; "@[0]);
    assert(src[m + 1] == "; "@[1]);
    assert(skipped(src, m) == m);
    assert(has_at(src, m, ";"@));
    assert(text_at(src, m, ";"@) == (m + 1, true));
    lemma_term_behind_blank(src, m + 1);
}

/// A `dup` that is written at `i` is read there, if its parts are read where
/// they are written: the expression ends at `m`, the body at `e`.
pub proof fn lemma_reads_dup(
    src: Seq<char>,
    i: int,
    nam0: Seq<char>,
    nam1: Seq<char>,
    expr: TermView,
    body: TermView,
    m: int,
    e: int,
)
    requires
        is_name(nam0),
        is_name(nam1),
        has_at(src, i, "dup "@ + nam0 + " "@ + nam1 + " = "@),
        opens_term(char_at(src, i + 8 + nam0.len() + nam1.len())),
        term_at(src, i + 8 + nam0.len() + nam1.len()) == Ok::<(int, TermView), Expected>(
            (m, expr),
        ),
        i + 8 + nam0.len() + nam1.len() < m,
        has_at(src, m, "; "@),
        opens_term(char_at(src, m + 2)),
        term_at(src, m + 2) == Ok::<(int, TermView), Expected>((e, body)),
    ensures
        term_at(src, i) == Ok::<(int, TermView), Expected>(
            (e, TermView::Dup { nam0, nam1, expr: Box::new(expr), body: Box::new(body) }),
        ),
{
    reveal_strlit("dup ");
    reveal_strlit(" ");
    reveal_strlit(" = ");
    reveal_strlit("; ");
    reveal_strlit("=");
    reveal_strlit(";");
    let n0 = nam0.len() as int;
    let n1 = nam1.len() as int;
    lemma_has_at_parts(src, i, "dup "@ + nam0 + " "@ + nam1, " = "@);
    lemma_has_at_parts(src, i, "dup "@ + nam0 + " "@, nam1);
    lemma_has_at_parts(src, i, "dup "@ + nam0, " "@);
    lemma_has_at_parts(src, i, "dup "@, nam0);
    lemma_first_char(src, i, "dup "@);
    lemma_skipped_at_opening(src, i);
    lemma_starts(src, i);
    let k0 = i + 4 + n0;
    lemma_first_char(src, k0, " "@);
    lemma_reads_name(src, i + 4, nam0);
    let k1 = k0 + 1 + n1;
    assert(src[k1 + 0] == " = "@[0]);
    assert(src[k1 + 1] == " = "@[1]);
    assert(src[k1 + 2] == " = "@[2]);
    lemma_reads_name_behind_blank(src, k0, nam1);
    lemma_skipped_blank(src, k1);
    assert(has_at(src, k1 + 1, "="@));
    assert(consume_at(src, k1, "="@) == Ok::<int, Expected>(k1 + 2));
    lemma_term_behind_blank(src, k1 + 2);
    assert(src[m + 0] == "; "@[0]);
    assert(src[m + 1] == "; "@[1]);
    assert(skipped(src, m) == m);
    assert(has_at(src, m, ";"@));
    assert(text_at(src, m, ";"@) == (m + 1, true));
    lemma_term_behind_blank(src, m + 1);
}

/// Where a text stands, its first two characters stand.
pub proof fn lemma_two_chars(src: Seq<char>, p: int, pat: Seq<char>)
    ensures
        has_at(src, p, pat) && pat.len() >= 1 ==> char_at(src, p) == pat[0],
        has_at(src, p, pat) && pat.len() >= 2 ==> char_at(src, p + 1) == pat[1],
{
    if has_at(src, p, pat) {
        if pat.len() >= 1 {
            assert(src[p + 0] == pat[0]);
        }
        if pat.len() >= 2 {
            assert(src[p + 1] == pat[1]);
        }
    }
}

/// The symbol of an operator that is written at `p`, with a blank behind it,
/// is read there as that operator.
pub proof fn lemma_reads_oper(src: Seq<char>, p: int, oper: Oper)
    requires
        has_at(src, p, oper.symbol() + " "@),
    ensures
        oper_at(src, p) == Ok::<(int, Oper), Expected>((p + oper.symbol().len(), oper)),
        1 <= oper.symbol().len() <= 2,
        skipped(src, p) == p,
        spec_is_oper_char(char_at(src, p)),
{
    reveal_strlit(" ");
    reveal_strlit("+");
    reveal_strlit("-");
    reveal_strlit("*");
    reveal_strlit("/");
    reveal_strlit("%");
    reveal_strlit("&");
    reveal_strlit("|");
    reveal_strlit("^");
    reveal_strlit("<<");
    reveal_strlit(">>");
    reveal_strlit("<=");
    reveal_strlit("<");
    reveal_strlit("==");
    reveal_strlit(">=");
    reveal_strlit(">");
    reveal_strlit("!=");
    let symbol = oper.symbol();
    lemma_has_at_parts(src, p, symbol, " "@);
    lemma_first_char(src, p + symbol.len(), " "@);
    lemma_two_chars(src, p, symbol);
    assert(skipped(src, p) == p);
    lemma_two_chars(src, p, "+"@);
    lemma_two_chars(src, p, "-"@);
    lemma_two_chars(src, p, "*"@);
    lemma_two_chars(src, p, "/"@);
    lemma_two_chars(src, p, "%"@);
    lemma_two_chars(src, p, "&"@);
    lemma_two_chars(src, p, "|"@);
    lemma_two_chars(src, p, "^"@);
    lemma_two_chars(src, p, "<<"@);
    lemma_two_chars(src, p, ">>"@);
    lemma_two_chars(src, p, "<="@);
    lemma_two_chars(src, p, "<"@);
    lemma_two_chars(src, p, "=="@);
    lemma_two_chars(src, p, ">="@);
    lemma_two_chars(src, p, ">"@);
    lemma_two_chars(src, p, "!="@);
}

/// An operation that is written at `i` is read there, if its operands are
/// read where they are written: the first ends at `m`, the second at `e`.
pub proof fn lemma_reads_op2(
    src: Seq<char>,
    i: int,
    oper: Oper,
    val0: TermView,
    val1: TermView,
    m: int,
    e: int,
)
    requires
        has_at(src, i, "("@ + oper.symbol() + " "@),
        opens_term(char_at(src, i + 2 + oper.symbol().len())),
        term_at(src, i + 2 + oper.symbol().len()) == Ok::<(int, TermView), Expected>((m, val0)),
        i + 2 + oper.symbol().len() < m,
        char_at(src, m) == ' ',
        opens_term(char_at(src, m + 1)),
        term_at(src, m + 1) == Ok::<(int, TermView), Expected>((e, val1)),
        char_at(src, e) == ')',
    ensures
        term_at(src, i) == Ok::<(int, TermView), Expected>(
            (e + 1, TermView::Op2 { oper, val0: Box::new(val0), val1: Box::new(val1) }),
        ),
{
    reveal_strlit("(");
    reveal_strlit(")");
    reveal_strlit(" ");
    let symbol = oper.symbol();
    assert("("@ + symbol + " "@ =~= "("@ + (symbol + " "@));
    lemma_has_at_parts(src, i, "("@, symbol + " "@);
    lemma_has_at_parts(src, i + 1, symbol, " "@);
    lemma_first_char(src, i, "("@);
    lemma_first_char(src, i + 1 + symbol.len(), " "@);
    lemma_skipped_at_opening(src, i);
    lemma_starts(src, i);
    lemma_reads_oper(src, i + 1, oper);
    let k1 = i + 1 + symbol.len();
    lemma_term_behind_blank(src, k1);
    lemma_term_behind_blank(src, m);
    assert(skipped(src, e) == e);
    assert(has_at(src, e, ")"@));
    assert(text_at(src, e, ")"@) == (e + 1, true));
}

/// In a run of terms that a parenthesis closes, a term that stands behind a
/// blank is read and added, and the run goes on behind it.
pub proof fn lemma_reads_item(
    src: Seq<char>,
    q: int,
    item: TermView,
    e: int,
    acc: Seq<TermView>,
)
    requires
        char_at(src, q) == ' ',
        opens_term(char_at(src, q + 1)),
        term_at(src, q + 1) == Ok::<(int, TermView), Expected>((e, item)),
        q + 1 < e <= src.len(),
    ensures
        terms_until(src, q, ")"@, false, acc) == terms_until(
            src,
            e,
            ")"@,
            false,
            acc.push(item),
        ),
{
    reveal_strlit(")");
    lemma_skipped_blank(src, q);
    lemma_first_char(src, q + 1, ")"@);
    lemma_term_behind_blank(src, q);
}

/// In a run of terms that a parenthesis closes, a term that stands first is
/// read and added, and the run goes on behind it.
pub proof fn lemma_reads_first_item(
    src: Seq<char>,
    p: int,
    item: TermView,
    e: int,
    acc: Seq<TermView>,
)
    requires
        opens_term(char_at(src, p)),
        term_at(src, p) == Ok::<(int, TermView), Expected>((e, item)),
        p < e <= src.len(),
    ensures
        terms_until(src, p, ")"@, false, acc) == terms_until(
            src,
            e,
            ")"@,
            false,
            acc.push(item),
        ),
{
    reveal_strlit(")");
    lemma_skipped_at_opening(src, p);
    lemma_first_char(src, p, ")"@);
}

/// A run of terms ends at the parenthesis that closes it.
pub proof fn lemma_reads_close(src: Seq<char>, e: int, acc: Seq<TermView>)
    requires
        char_at(src, e) == ')',
    ensures
        terms_until(src, e, ")"@, false, acc) == Ok::<(int, Seq<TermView>), Expected>(
            (e + 1, acc),
        ),
{
    reveal_strlit(")");
    assert(skipped(src, e) == e);
    assert(has_at(src, e, ")"@));
}

/// The arguments of a constructor are written with a blank first.
pub proof fn lemma_show_args_first(args: Seq<TermView>)
    requires
        args.len() > 0,
    ensures
        show_args(args).len() > 0,
        show_args(args)[0] == ' ',
    decreases args.len(),
{
    reveal_strlit(" ");
    if args.len() > 1 {
        lemma_show_args_first(args.drop_last());
    } else {
        assert(show_args(args.drop_last()).len() == 0);
    }
}

/// The function of a run of applications with its arguments, in the order in
/// which they are written.
pub open spec fn spine_items(t: TermView) -> Seq<TermView>
    decreases t,
{
    match t {
        TermView::App { func, argm } => spine_items(*func).push(*argm),
        _ => seq![t],
    }
}

/// A term is the application of the function of its run to the arguments of
/// its run.
pub proof fn lemma_spine_term(t: TermView)
    ensures
        spine_items(t).len() > 0,
        spine_term(spine_items(t)) == t,
    decreases t,
{
    match t {
        TermView::App { func, argm } => {
            lemma_spine_term(*func);
            let inner = spine_items(*func);
            let items = spine_items(t);
            assert(items.drop_first().drop_last() =~= inner.drop_first());
            assert(items.drop_first().last() == *argm);
            assert(items[0] == inner[0]);
        },
        _ => {
            assert(spine_items(t).drop_first() =~= Seq::<TermView>::empty());
        },
    }
}

/// A constructor that is written at `i` is read there, if its arguments are
/// read behind its name, up to the parenthesis before `e`.
pub proof fn lemma_reads_ctr(
    src: Seq<char>,
    i: int,
    name: Seq<char>,
    args: Seq<TermView>,
    e: int,
)
    requires
        is_ctr_name(name),
        has_at(src, i, "("@ + name),
        !spec_is_name_char(char_at(src, i + 1 + name.len())),
        terms_until(src, i + 1 + name.len(), ")"@, false, Seq::empty()) == Ok::<
            (int, Seq<TermView>),
            Expected,
        >((e, args)),
    ensures
        term_at(src, i) == Ok::<(int, TermView), Expected>((e, TermView::Ctr { name, args })),
{
    reveal_strlit("(");
    lemma_has_at_parts(src, i, "("@, name);
    lemma_first_char(src, i, "("@);
    lemma_first_char(src, i + 1, name);
    lemma_skipped_at_opening(src, i);
    lemma_skipped_at_opening(src, i + 1);
    lemma_starts(src, i);
    lemma_reads_name(src, i + 1, name);
}

/// A run of applications that is written at `i` is read there, if the terms
/// of the run are read behind the parenthesis, up to the one before `e`.
pub proof fn lemma_reads_app(src: Seq<char>, i: int, items: Seq<TermView>, e: int)
    requires
        has_at(src, i, "("@),
        opens_term(char_at(src, i + 1)),
        terms_until(src, i + 1, ")"@, false, Seq::empty()) == Ok::<
            (int, Seq<TermView>),
            Expected,
        >((e, items)),
    ensures
        term_at(src, i) == Ok::<(int, TermView), Expected>((e, spine_term(items))),
{
    reveal_strlit("(");
    lemma_first_char(src, i, "("@);
    lemma_skipped_at_opening(src, i);
    lemma_skipped_at_opening(src, i + 1);
    lemma_starts(src, i);
}

/// A string that is written ends where its characters end.
pub proof fn lemma_str_end_run(src: Seq<char>, i: int, chars: Seq<char>)
    requires
        has_at(src, i, chars),
        quotable(chars),
        char_at(src, i + chars.len()) == '"',
    ensures
        str_end(src, i, '"') == i + chars.len(),
    decreases chars.len(),
{
    if chars.len() > 0 {
        let rest = chars.drop_first();
        assert(src[i + 0] == chars[0]);
        assert(has_at(src, i + 1, rest)) by {
            assert forall|k: int| 0 <= k < rest.len() implies src[i + 1 + k] == #[trigger] rest[k] by {
                assert(src[i + (k + 1)] == chars[k + 1]);
            }
        }
        assert forall|k: int| 0 <= k < rest.len() implies #[trigger] rest[k] != '"' && rest[k]
            != '\0' by {
            assert(rest[k] == chars[k + 1]);
        }
        lemma_str_end_run(src, i + 1, rest);
    }
}

/// A string that is written at `i` in double quotes is read there as the
/// term of the string.
pub proof fn lemma_reads_string(src: Seq<char>, i: int, chars: Seq<char>)
    requires
        has_at(src, i, "\""@ + chars + "\""@),
        quotable(chars),
    ensures
        term_at(src, i) == Ok::<(int, TermView), Expected>(
            (i + chars.len() + 2, string_term(chars)),
        ),
{
    reveal_strlit("\"");
    let n = chars.len() as int;
    lemma_has_at_parts(src, i, "\""@ + chars, "\""@);
    lemma_has_at_parts(src, i, "\""@, chars);
    lemma_first_char(src, i, "\""@);
    lemma_first_char(src, i + 1 + n, "\""@);
    assert(skipped(src, i) == i);
    lemma_starts(src, i);
    lemma_str_end_run(src, i + 1, chars);
    assert(src.subrange(i + 1, i + 1 + n) =~= chars) by {
        assert forall|k: int| 0 <= k < n implies src[i + 1 + k] == chars[k] by {
            assert(src[i + 1 + k] == chars[k]);
        }
    }
}

/// The term of a string literal has the shape of a string, and its
/// characters are those of the literal.
pub proof fn lemma_string_term_shape(chars: Seq<char>)
    ensures
        is_string(string_term(chars)),
        string_chars(string_term(chars)) == chars,
    decreases chars.len(),
{
    let t = string_term(chars);
    if chars.len() > 0 {
        let c = chars[0];
        let rest = string_term(chars.drop_first());
        lemma_string_term_shape(chars.drop_first());
        lemma_char_code(c);
        assert(t == cons("StrCons"@, TermView::Num { numb: spec_char_code(c) }, rest));
        assert(seq![c] + chars.drop_first() =~= chars);
    } else {
        assert(string_chars(t) =~= chars);
    }
}

/// A term that has the shape of a string is the term of its characters.
pub proof fn lemma_string_chain(t: TermView)
    requires
        is_string(t),
    ensures
        string_term(string_chars(t)) == t,
    decreases t,
{
    let name = t->Ctr_name;
    let args = t->Ctr_args;
    if name == "StrCons"@ && args.len() == 2 {
        let numb = args[0]->numb;
        let chars = string_chars(t);
        lemma_string_chain(args[1]);
        assert(chars.drop_first() =~= string_chars(args[1]));
        assert(chars[0] == code_char(numb));
        lemma_code_char(numb);
        assert(args =~= seq![args[0], args[1]]);
    } else {
        assert(args =~= Seq::<TermView>::empty());
    }
}

/// The items of a term that has the shape of a list.
pub open spec fn list_items(t: TermView) -> Seq<TermView>
    decreases t,
{
    match t {
        TermView::Ctr { name, args } => if name == "Cons"@ && args.len() == 2 {
            seq![args[0]] + list_items(args[1])
        } else {
            Seq::empty()
        },
        _ => Seq::empty(),
    }
}

/// A term that has the shape of a list is the list of its items.
pub proof fn lemma_list_chain(t: TermView)
    requires
        is_list(t),
    ensures
        list_term(list_items(t)) == t,
    decreases t,
{
    let name = t->Ctr_name;
    let args = t->Ctr_args;
    if name == "Cons"@ && args.len() == 2 {
        let items = list_items(t);
        lemma_list_chain(args[1]);
        assert(items.drop_first() =~= list_items(args[1]));
        assert(args =~= seq![args[0], args[1]]);
    } else {
        assert(args =~= Seq::<TermView>::empty());
    }
}

/// A list ends at the bracket that closes it.
pub proof fn lemma_reads_bracket(src: Seq<char>, e: int, acc: Seq<TermView>)
    requires
        char_at(src, e) == ']',
    ensures
        text_at(src, e, ","@).0 == e,
        terms_until(src, e, "]"@, true, acc) == Ok::<(int, Seq<TermView>), Expected>(
            (e + 1, acc),
        ),
{
    reveal_strlit("]");
    reveal_strlit(",");
    assert(skipped(src, e) == e);
    lemma_first_char(src, e, ","@);
    assert(has_at(src, e, "]"@));
}

/// In a list, a term that stands behind a comma and a blank is read and
/// added, and the list goes on behind it.
pub proof fn lemma_reads_list_item(
    src: Seq<char>,
    p: int,
    item: TermView,
    e: int,
    acc: Seq<TermView>,
)
    requires
        has_at(src, p, ", "@),
        opens_term(char_at(src, p + 2)),
        term_at(src, p + 2) == Ok::<(int, TermView), Expected>((e, item)),
        p + 2 < e <= src.len(),
    ensures
        terms_until(src, text_at(src, p, ","@).0, "]"@, true, acc) == terms_until(
            src,
            text_at(src, e, ","@).0,
            "]"@,
            true,
            acc.push(item),
        ),
{
    reveal_strlit(",");
    reveal_strlit(", ");
    reveal_strlit("]");
    assert(src[p + 0] == ", "@[0]);
    assert(src[p + 1] == ", "@[1]);
    assert(skipped(src, p) == p);
    assert(has_at(src, p, ","@));
    lemma_skipped_blank(src, p + 1);
    lemma_first_char(src, p + 2, "]"@);
    lemma_term_behind_blank(src, p + 1);
}

/// In a list, the term that stands first is read and added, and the list
/// goes on behind it.
pub proof fn lemma_reads_first_list_item(
    src: Seq<char>,
    p: int,
    item: TermView,
    e: int,
    acc: Seq<TermView>,
)
    requires
        opens_term(char_at(src, p)),
        term_at(src, p) == Ok::<(int, TermView), Expected>((e, item)),
        p < e <= src.len(),
    ensures
        terms_until(src, p, "]"@, true, acc) == terms_until(
            src,
            text_at(src, e, ","@).0,
            "]"@,
            true,
            acc.push(item),
        ),
{
    reveal_strlit("]");
    lemma_skipped_at_opening(src, p);
    lemma_first_char(src, p, "]"@);
}

/// A list that is written at `i` is read there, if its items are read behind
/// the bracket, up to the one before `e`.
pub proof fn lemma_reads_lst(src: Seq<char>, i: int, items: Seq<TermView>, e: int)
    requires
        char_at(src, i) == '[',
        terms_until(src, i + 1, "]"@, true, Seq::empty()) == Ok::<
            (int, Seq<TermView>),
            Expected,
        >((e, items)),
    ensures
        term_at(src, i) == Ok::<(int, TermView), Expected>((e, list_term(items))),
{
    assert(skipped(src, i) == i);
    lemma_starts(src, i);
}

/// A canonical term that is written at `i`, with no identifier character
/// behind it, is read there, and the reading ends where the writing ends.
pub proof fn lemma_reads_back(src: Seq<char>, i: int, t: TermView)
    requires
        has_at(src, i, show(t)),
        !spec_is_name_char(char_at(src, i + show(t).len())),
        canonical(t, char_at(src, i + show(t).len()) == ' '),
    ensures
        term_at(src, i) == Ok::<(int, TermView), Expected>((i + show(t).len(), t)),
        show(t).len() > 0,
        opens_term(char_at(src, i)),
    decreases t, 2int,
{
    lemma_show_opens(t, char_at(src, i + show(t).len()) == ' ');
    lemma_first_char(src, i, show(t));
    match t {
        TermView::Var { name } => {
            lemma_reads_var(src, i, name);
        },
        TermView::Num { numb } => {
            lemma_reads_number(src, i, numb);
        },
        TermView::Lam { .. } => {
            lemma_reads_back_lam(src, i, t);
        },
        TermView::Let { .. } => {
            lemma_reads_back_let(src, i, t);
        },
        TermView::Dup { .. } => {
            lemma_reads_back_dup(src, i, t);
        },
        TermView::Op2 { .. } => {
            lemma_reads_back_op2(src, i, t);
        },
        TermView::Ctr { .. } => {
            if is_string(t) {
                reveal_strlit("\"");
                lemma_string_chain(t);
                lemma_reads_string(src, i, string_chars(t));
            } else if is_list(t) {
                lemma_reads_back_list(src, i, t);
            } else {
                lemma_reads_back_ctr(src, i, t);
            }
        },
        TermView::App { .. } => {
            lemma_reads_back_app(src, i, t);
        },
    }
}

/// `lemma_reads_back` for an abstraction.
proof fn lemma_reads_back_lam(src: Seq<char>, i: int, t: TermView)
    requires
        t is Lam,
        has_at(src, i, show(t)),
        !spec_is_name_char(char_at(src, i + show(t).len())),
        canonical(t, char_at(src, i + show(t).len()) == ' '),
    ensures
        term_at(src, i) == Ok::<(int, TermView), Expected>((i + show(t).len(), t)),
    decreases t, 1int,
{
    let name = t->Lam_name;
    let body = *t->Lam_body;
    reveal_strlit(" ");
    reveal_strlit("λ");
    lemma_has_at_parts(src, i, "λ"@ + name + " "@, show(body));
    let b = i + 2 + name.len();
    lemma_reads_back(src, b, body);
    lemma_reads_lam(src, i, name, body, b + show(body).len());
}

/// `lemma_reads_back` for a `let`.
proof fn lemma_reads_back_let(src: Seq<char>, i: int, t: TermView)
    requires
        t is Let,
        has_at(src, i, show(t)),
        !spec_is_name_char(char_at(src, i + show(t).len())),
        canonical(t, char_at(src, i + show(t).len()) == ' '),
    ensures
        term_at(src, i) == Ok::<(int, TermView), Expected>((i + show(t).len(), t)),
    decreases t, 1int,
{
    let name = t->Let_name;
    let expr = *t->Let_expr;
    let body = *t->Let_body;
    reveal_strlit("let ");
    reveal_strlit(" = ");
    reveal_strlit("; ");
    let head = "let "@ + name + " = "@;
    lemma_has_at_parts(src, i, head + show(expr) + "; "@, show(body));
    lemma_has_at_parts(src, i, head + show(expr), "; "@);
    lemma_has_at_parts(src, i, head, show(expr));
    let a = i + 7 + name.len();
    let m = a + show(expr).len();
    lemma_first_char(src, m, "; "@);
    lemma_reads_back(src, a, expr);
    lemma_reads_back(src, m + 2, body);
    lemma_reads_let(src, i, name, expr, body, m, m + 2 + show(body).len());
}

/// `lemma_reads_back` for a `dup`.
proof fn lemma_reads_back_dup(src: Seq<char>, i: int, t: TermView)
    requires
        t is Dup,
        has_at(src, i, show(t)),
        !spec_is_name_char(char_at(src, i + show(t).len())),
        canonical(t, char_at(src, i + show(t).len()) == ' '),
    ensures
        term_at(src, i) == Ok::<(int, TermView), Expected>((i + show(t).len(), t)),
    decreases t, 1int,
{
    let nam0 = t->Dup_nam0;
    let nam1 = t->Dup_nam1;
    let expr = *t->Dup_expr;
    let body = *t->Dup_body;
    reveal_strlit("dup ");
    reveal_strlit(" ");
    reveal_strlit(" = ");
    reveal_strlit("; ");
    let head = "dup "@ + nam0 + " "@ + nam1 + " = "@;
    lemma_has_at_parts(src, i, head + show(expr) + "; "@, show(body));
    lemma_has_at_parts(src, i, head + show(expr), "; "@);
    lemma_has_at_parts(src, i, head, show(expr));
    let a = i + 8 + nam0.len() + nam1.len();
    let m = a + show(expr).len();
    lemma_first_char(src, m, "; "@);
    lemma_reads_back(src, a, expr);
    lemma_reads_back(src, m + 2, body);
    lemma_reads_dup(src, i, nam0, nam1, expr, body, m, m + 2 + show(body).len());
}

/// `lemma_reads_back` for an operation.
proof fn lemma_reads_back_op2(src: Seq<char>, i: int, t: TermView)
    requires
        t is Op2,
        has_at(src, i, show(t)),
        !spec_is_name_char(char_at(src, i + show(t).len())),
        canonical(t, char_at(src, i + show(t).len()) == ' '),
    ensures
        term_at(src, i) == Ok::<(int, TermView), Expected>((i + show(t).len(), t)),
    decreases t, 1int,
{
    let oper = t->Op2_oper;
    let val0 = *t->Op2_val0;
    let val1 = *t->Op2_val1;
    reveal_strlit(" ");
    reveal_strlit("(");
    reveal_strlit(")");
    let head = "("@ + oper.symbol() + " "@;
    lemma_has_at_parts(src, i, head + show(val0) + " "@ + show(val1), ")"@);
    lemma_has_at_parts(src, i, head + show(val0) + " "@, show(val1));
    lemma_has_at_parts(src, i, head + show(val0), " "@);
    lemma_has_at_parts(src, i, head, show(val0));
    let a = i + 2 + oper.symbol().len();
    let m = a + show(val0).len();
    let e = m + 1 + show(val1).len();
    lemma_first_char(src, m, " "@);
    lemma_first_char(src, e, ")"@);
    lemma_reads_back(src, a, val0);
    lemma_reads_back(src, m + 1, val1);
    lemma_reads_op2(src, i, oper, val0, val1, m, e);
}

/// `lemma_reads_back` for a constructor that is written with its name.
proof fn lemma_reads_back_ctr(src: Seq<char>, i: int, t: TermView)
    requires
        t is Ctr,
        !is_string(t),
        !is_list(t),
        has_at(src, i, show(t)),
        !spec_is_name_char(char_at(src, i + show(t).len())),
        canonical(t, char_at(src, i + show(t).len()) == ' '),
    ensures
        term_at(src, i) == Ok::<(int, TermView), Expected>((i + show(t).len(), t)),
    decreases t, 1int,
{
    let name = t->Ctr_name;
    let args = t->Ctr_args;
    reveal_strlit(" ");
    reveal_strlit("(");
    reveal_strlit(")");
    lemma_has_at_parts(src, i, "("@ + name + show_args(args), ")"@);
    lemma_has_at_parts(src, i, "("@ + name, show_args(args));
    let p = i + 1 + name.len();
    let q = p + show_args(args).len();
    lemma_first_char(src, q, ")"@);
    if args.len() > 0 {
        lemma_show_args_first(args);
        lemma_first_char(src, p, show_args(args));
    }
    lemma_reads_args(src, p, args, Seq::empty());
    assert(Seq::<TermView>::empty() + args =~= args);
    lemma_reads_close(src, q, args);
    lemma_reads_ctr(src, i, name, args, q + 1);
}

/// `lemma_reads_back` for an application.
proof fn lemma_reads_back_app(src: Seq<char>, i: int, t: TermView)
    requires
        t is App,
        has_at(src, i, show(t)),
        !spec_is_name_char(char_at(src, i + show(t).len())),
        canonical(t, char_at(src, i + show(t).len()) == ' '),
    ensures
        term_at(src, i) == Ok::<(int, TermView), Expected>((i + show(t).len(), t)),
    decreases t, 1int,
{
    let func = *t->App_func;
    let argm = *t->App_argm;
    reveal_strlit(" ");
    reveal_strlit("(");
    reveal_strlit(")");
    let head = "("@ + show_func(func);
    lemma_has_at_parts(src, i, head + " "@ + show(argm), ")"@);
    lemma_has_at_parts(src, i, head + " "@, show(argm));
    lemma_has_at_parts(src, i, head, " "@);
    lemma_has_at_parts(src, i, "("@, show_func(func));
    let q = i + 1 + show_func(func).len();
    let e = q + 1 + show(argm).len();
    lemma_first_char(src, q, " "@);
    lemma_first_char(src, e, ")"@);
    lemma_show_func_opens(func);
    lemma_first_char(src, i + 1, show_func(func));
    lemma_reads_func(src, i + 1, func, Seq::empty());
    lemma_reads_back(src, q + 1, argm);
    let items = Seq::<TermView>::empty() + spine_items(func);
    lemma_reads_item(src, q, argm, e, items);
    lemma_reads_close(src, e, items.push(argm));
    assert(items.push(argm) =~= spine_items(t));
    lemma_spine_term(t);
    lemma_reads_app(src, i, spine_items(t), e + 1);
}

/// `lemma_reads_back` for a constructor that is written as a list.
proof fn lemma_reads_back_list(src: Seq<char>, i: int, t: TermView)
    requires
        is_list(t),
        !is_string(t),
        has_at(src, i, show(t)),
        canonical(t, char_at(src, i + show(t).len()) == ' '),
    ensures
        term_at(src, i) == Ok::<(int, TermView), Expected>((i + show(t).len(), t)),
    decreases t, 1int,
{
    reveal_strlit("[");
    reveal_strlit("]");
    reveal_strlit(", ");
    let inner = show_items(t, true);
    let n = inner.len() as int;
    lemma_has_at_parts(src, i, "["@ + inner, "]"@);
    lemma_has_at_parts(src, i, "["@, inner);
    lemma_first_char(src, i, "["@);
    lemma_first_char(src, i + 1 + n, "]"@);
    let name = t->Ctr_name;
    let args = t->Ctr_args;
    assert(canonical_list(t));
    if name == "Cons"@ && args.len() == 2 {
        let item = args[0];
        let rest = args[1];
        let tail = show_items(rest, false);
        assert(canonical(item, false) && canonical_list(rest));
        assert(inner =~= show(item) + tail);
        lemma_has_at_parts(src, i + 1, show(item), tail);
        let e = i + 1 + show(item).len();
        lemma_show_items_first(rest);
        if tail.len() > 0 {
            lemma_first_char(src, e, tail);
        }
        lemma_reads_back(src, i + 1, item);
        let first = Seq::<TermView>::empty().push(item);
        lemma_reads_first_list_item(src, i + 1, item, e, Seq::empty());
        lemma_reads_list_rest(src, e, rest, first);
        assert(first + list_items(rest) =~= list_items(t));
    } else {
        assert(inner =~= Seq::<char>::empty());
        lemma_reads_bracket(src, i + 1, Seq::empty());
        assert(list_items(t) =~= Seq::<TermView>::empty());
    }
    lemma_list_chain(t);
    lemma_reads_lst(src, i, list_items(t), i + n + 2);
}

/// The items of a list behind the first are written with a comma first, if
/// there are any.
pub proof fn lemma_show_items_first(t: TermView)
    ensures
        show_items(t, false).len() > 0 ==> show_items(t, false)[0] == ',',
{
    reveal_strlit(", ");
}

/// The items of a canonical list that are written behind its first item are
/// read one after the other, up to the bracket that closes the list.
pub proof fn lemma_reads_list_rest(src: Seq<char>, p: int, t: TermView, acc: Seq<TermView>)
    requires
        is_list(t),
        canonical_list(t),
        has_at(src, p, show_items(t, false)),
        char_at(src, p + show_items(t, false).len()) == ']',
    ensures
        terms_until(src, text_at(src, p, ","@).0, "]"@, true, acc) == Ok::<
            (int, Seq<TermView>),
            Expected,
        >((p + show_items(t, false).len() + 1, acc + list_items(t))),
    decreases t, 0int,
{
    reveal_strlit(", ");
    let name = t->Ctr_name;
    let args = t->Ctr_args;
    if name == "Cons"@ && args.len() == 2 {
        let item = args[0];
        let rest = args[1];
        let tail = show_items(rest, false);
        lemma_has_at_parts(src, p, ", "@ + show(item), tail);
        lemma_has_at_parts(src, p, ", "@, show(item));
        let a = p + 2;
        let e = a + show(item).len();
        lemma_show_items_first(rest);
        if tail.len() > 0 {
            lemma_first_char(src, e, tail);
        }
        lemma_reads_back(src, a, item);
        lemma_reads_list_item(src, p, item, e, acc);
        lemma_reads_list_rest(src, e, rest, acc.push(item));
        assert(acc.push(item) + list_items(rest) =~= acc + list_items(t));
    } else {
        assert(show_items(t, false) =~= Seq::<char>::empty());
        lemma_reads_bracket(src, p, acc);
        assert(acc + list_items(t) =~= acc);
    }
}

/// The arguments of a canonical constructor that are written at `p` are read
/// there one after the other and added to the run.
pub proof fn lemma_reads_args(src: Seq<char>, p: int, args: Seq<TermView>, acc: Seq<TermView>)
    requires
        has_at(src, p, show_args(args)),
        char_at(src, p + show_args(args).len()) == ' ' || char_at(src, p + show_args(args).len())
            == ')',
        canonical_args(args, char_at(src, p + show_args(args).len()) == ' '),
    ensures
        terms_until(src, p, ")"@, false, acc) == terms_until(
            src,
            p + show_args(args).len(),
            ")"@,
            false,
            acc + args,
        ),
    decreases args, 0int,
{
    reveal_strlit(" ");
    if args.len() == 0 {
        assert(acc + args =~= acc);
    } else {
        let init = args.drop_last();
        let last = args.last();
        lemma_has_at_parts(src, p, show_args(init) + " "@, show(last));
        lemma_has_at_parts(src, p, show_args(init), " "@);
        let q = p + show_args(init).len();
        lemma_first_char(src, q, " "@);
        lemma_reads_args(src, p, init, acc);
        lemma_reads_back(src, q + 1, last);
        lemma_reads_item(src, q, last, q + 1 + show(last).len(), acc + init);
        assert((acc + init).push(last) =~= acc + args);
    }
}

/// The function of a canonical application that is written at `p` is read
/// there
/// term by term, and its terms are added to the run.
pub proof fn lemma_reads_func(src: Seq<char>, p: int, f: TermView, acc: Seq<TermView>)
    requires
        canonical_func(f),
        has_at(src, p, show_func(f)),
        char_at(src, p + show_func(f).len()) == ' ',
    ensures
        terms_until(src, p, ")"@, false, acc) == terms_until(
            src,
            p + show_func(f).len(),
            ")"@,
            false,
            acc + spine_items(f),
        ),
    decreases f, 3int,
{
    reveal_strlit(" ");
    match f {
        TermView::App { func, argm } => {
            lemma_has_at_parts(src, p, show_func(*func) + " "@, show(*argm));
            lemma_has_at_parts(src, p, show_func(*func), " "@);
            let q = p + show_func(*func).len();
            lemma_first_char(src, q, " "@);
            lemma_reads_func(src, p, *func, acc);
            lemma_reads_back(src, q + 1, *argm);
            lemma_reads_item(
                src,
                q,
                *argm,
                q + 1 + show(*argm).len(),
                acc + spine_items(*func),
            );
            assert((acc + spine_items(*func)).push(*argm) =~= acc + spine_items(f));
        },
        _ => {
            lemma_reads_back(src, p, f);
            lemma_reads_first_item(src, p, f, p + show(f).len(), acc);
            assert(acc.push(f) =~= acc + spine_items(f));
        },
    }
}

/// A canonical term that is written and read again is the term that was
/// written.
pub proof fn law_read_written_term(t: TermView)
    requires
        canonical(t, false),
    ensures
        value_of(term_at(show(t), 0)) == Ok::<TermView, Expected>(t),
{
    let src = show(t);
    assert(has_at(src, 0, src));
    lemma_reads_back(src, 0, t);
}

/// An operation on two canonical terms is written as its symbol and its
/// operands
/// in parentheses, with one blank between them, and read back as the same
/// operation.
pub proof fn law_operation_round_trip(oper: Oper, val0: TermView, val1: TermView)
    requires
        canonical(val0, true),
        canonical(val1, false),
    ensures
        show(TermView::Op2 { oper, val0: Box::new(val0), val1: Box::new(val1) }) == "("@
            + oper.symbol() + " "@ + show(val0) + " "@ + show(val1) + ")"@,
        value_of(
            term_at(show(TermView::Op2 { oper, val0: Box::new(val0), val1: Box::new(val1) }), 0),
        ) == Ok::<TermView, Expected>(
            TermView::Op2 { oper, val0: Box::new(val0), val1: Box::new(val1) },
        ),
{
    law_read_written_term(TermView::Op2 { oper, val0: Box::new(val0), val1: Box::new(val1) });
}

/// Reading the numeral of a number gives the number, and the number is
/// written as its numeral.
pub proof fn law_number_round_trip(n: u64)
    ensures
        show(TermView::Num { numb: n }) == decimal(n as nat),
        value_of(term_at(decimal(n as nat), 0)) == Ok::<TermView, Expected>(
            TermView::Num { numb: n },
        ),
{
    let src = decimal(n as nat);
    assert(has_at(src, 0, src));
    lemma_reads_number(src, 0, n);
}

/// The term of a string literal is written as the characters of the literal
/// in double quotes.
pub proof fn law_string_written(chars: Seq<char>)
    ensures
        show(string_term(chars)) == "\""@ + chars + "\""@,
{
    lemma_string_term_shape(chars);
}

/// A string that holds neither a double quote nor NUL, written in double
/// quotes, is read back as the term of that string.
pub proof fn law_string_round_trip(chars: Seq<char>)
    requires
        quotable(chars),
    ensures
        value_of(term_at(show(string_term(chars)), 0)) == Ok::<TermView, Expected>(
            string_term(chars),
        ),
{
    lemma_string_term_shape(chars);
    law_read_written_term(string_term(chars));
}

/// A constructor whose name and number of arguments are not those of a list
/// or of a string is written with its name and its arguments in parentheses,
/// whatever its arguments are: `Cons` with three arguments is no list.
pub proof fn law_constructor_written_plainly(name: Seq<char>, args: Seq<TermView>)
    requires
        !(name == "Cons"@ && args.len() == 2),
        !(name == "Nil"@ && args.len() == 0),
        !(name == "StrCons"@ && args.len() == 2),
        !(name == "StrNil"@ && args.len() == 0),
    ensures
        show(TermView::Ctr { name, args }) == "("@ + name + show_args(args) + ")"@,
{
}

/// A chain of `Cons` or of `StrCons` that does not end in `Nil` or in
/// `StrNil` is written with its name and its arguments in parentheses.
pub proof fn law_open_chain_written_plainly(name: Seq<char>, args: Seq<TermView>)
    requires
        args.len() == 2,
        !is_list(args[1]),
        !is_string(args[1]),
    ensures
        show(TermView::Ctr { name, args }) == "("@ + name + show_args(args) + ")"@,
{
}

/// The items of a list as they are written: a comma and a blank before each
/// but the first.
pub open spec fn show_joined(items: Seq<TermView>, first: bool) -> Seq<char>
    decreases items.len(),
{
    if items.len() == 0 {
        Seq::empty()
    } else {
        (if first {
            Seq::empty()
        } else {
            ", "@
        }) + show(items[0]) + show_joined(items.drop_first(), false)
    }
}

/// Every one of `items` is a canonical term.
pub open spec fn canonical_items(items: Seq<TermView>) -> bool {
    forall|k: int| 0 <= k < items.len() ==> canonical(#[trigger] items[k], false)
}

/// The term of a list literal has the shape of a list and not that of a
/// string, and its items are written as those of the literal.
pub proof fn lemma_list_term_shape(items: Seq<TermView>, first: bool)
    ensures
        is_list(list_term(items)),
        !is_string(list_term(items)),
        show_items(list_term(items), first) == show_joined(items, first),
        canonical_items(items) ==> canonical_list(list_term(items)),
    decreases items.len(),
{
    reveal_strlit("Cons");
    reveal_strlit("Nil");
    reveal_strlit("StrCons");
    reveal_strlit("StrNil");
    assert("Cons"@.len() != "StrCons"@.len());
    assert("Cons"@.len() != "StrNil"@.len());
    assert("Nil"@.len() != "StrCons"@.len());
    assert("Nil"@.len() != "StrNil"@.len());
    if items.len() > 0 {
        let rest = items.drop_first();
        lemma_list_term_shape(rest, false);
        if canonical_items(items) {
            assert(canonical(items[0], false));
            assert forall|k: int| 0 <= k < rest.len() implies canonical(
                #[trigger] rest[k],
                false,
            ) by {
                assert(rest[k] == items[k + 1]);
            }
        }
    }
}

/// The term of a list literal is written as its items in square brackets,
/// with a comma and a blank between them.
pub proof fn law_list_written(items: Seq<TermView>)
    ensures
        show(list_term(items)) == "["@ + show_joined(items, true) + "]"@,
{
    lemma_list_term_shape(items, true);
}

/// A list of canonical terms that is written and read again is the list that
/// was written.
pub proof fn law_list_round_trip(items: Seq<TermView>)
    requires
        canonical_items(items),
    ensures
        value_of(term_at(show(list_term(items)), 0)) == Ok::<TermView, Expected>(
            list_term(items),
        ),
{
    lemma_list_term_shape(items, true);
    law_read_written_term(list_term(items));
}

/// The rules that are read back as they are written: both sides are
/// canonical, the left one with a blank behind it.
pub open spec fn canonical_rule(rule: RuleView) -> bool {
    canonical(rule.lhs, true) && canonical(rule.rhs, false)
}

/// Every one of `rules` is a canonical rule.
pub open spec fn canonical_rules(rules: Seq<RuleView>) -> bool {
    forall|k: int| 0 <= k < rules.len() ==> canonical_rule(#[trigger] rules[k])
}

/// A canonical rule that is written at `i`, with the end of the line or of
/// the text behind it, is read there.
pub proof fn lemma_reads_rule(src: Seq<char>, i: int, rule: RuleView)
    requires
        canonical_rule(rule),
        has_at(src, i, show_rule(rule)),
        char_at(src, i + show_rule(rule).len()) == '\n' || i + show_rule(rule).len()
            == src.len(),
    ensures
        rule_at(src, i) == Ok::<(int, Option<RuleView>), Expected>(
            (i + show_rule(rule).len(), Some(rule)),
        ),
        opens_term(char_at(src, i)),
        show_rule(rule).len() > 0,
{
    reveal_strlit(" = ");
    reveal_strlit("=");
    lemma_has_at_parts(src, i, show(rule.lhs) + " = "@, show(rule.rhs));
    lemma_has_at_parts(src, i, show(rule.lhs), " = "@);
    let k1 = i + show(rule.lhs).len();
    assert(src[k1 + 0] == " = "@[0]);
    assert(src[k1 + 1] == " = "@[1]);
    assert(src[k1 + 2] == " = "@[2]);
    lemma_reads_back(src, i, rule.lhs);
    lemma_skipped_at_opening(src, i);
    lemma_skipped_blank(src, k1);
    assert(has_at(src, k1 + 1, "="@));
    lemma_reads_back(src, k1 + 3, rule.rhs);
    lemma_term_behind_blank(src, k1 + 2);
}

/// Rules that are written one to a line, from `p` to the end of a line or of
/// the text, are read there one after the other and added to those read
/// before.
pub proof fn lemma_reads_rules(src: Seq<char>, p: int, rules: Seq<RuleView>, acc: Seq<RuleView>)
    requires
        rules.len() > 0,
        canonical_rules(rules),
        has_at(src, p, show_rules(rules)),
        char_at(src, p + show_rules(rules).len()) == '\n' || p + show_rules(rules).len()
            == src.len(),
    ensures
        file_at(src, p, acc) == file_at(src, p + show_rules(rules).len(), acc + rules),
        opens_term(char_at(src, p)),
    decreases rules.len(),
{
    reveal_strlit("\n");
    if rules.len() == 1 {
        let rule = rules[0];
        lemma_reads_rule(src, p, rule);
        lemma_skipped_at_opening(src, p);
        assert(acc.push(rule) =~= acc + rules);
    } else {
        let init = rules.drop_last();
        let rule = rules.last();
        assert(canonical_rule(rule));
        assert forall|k: int| 0 <= k < init.len() implies canonical_rule(#[trigger] init[k]) by {
            assert(init[k] == rules[k]);
        }
        lemma_has_at_parts(src, p, show_rules(init) + "\n"@, show_rule(rule));
        lemma_has_at_parts(src, p, show_rules(init), "\n"@);
        let q = p + show_rules(init).len();
        lemma_first_char(src, q, "\n"@);
        lemma_reads_rules(src, p, init, acc);
        lemma_reads_rule(src, q + 1, rule);
        assert(skipped(src, q + 1) == q + 1) by {
            lemma_skipped_at_opening(src, q + 1);
        }
        assert(skipped(src, q) == q + 1);
        assert((acc + init).push(rule) =~= acc + rules);
    }
}

/// A file of canonical rules that is written and read again holds the rules
/// that were written, in their order.
pub proof fn law_file_round_trip(rules: Seq<RuleView>)
    requires
        canonical_rules(rules),
    ensures
        value_of(file_at(show_rules(rules), 0, Seq::empty())) == Ok::<Seq<RuleView>, Expected>(
            rules,
        ),
{
    let src = show_rules(rules);
    if rules.len() > 0 {
        assert(has_at(src, 0, src));
        lemma_reads_rules(src, 0, rules, Seq::empty());
        assert(Seq::<RuleView>::empty() + rules =~= rules);
    } else {
        assert(rules =~= Seq::<RuleView>::empty());
    }
    assert(skipped(src, src.len() as int) == src.len());
}

/// A canonical rule that is written and read again is the rule that was
/// written.
pub proof fn law_rule_round_trip(rule: RuleView)
    requires
        canonical_rule(rule),
    ensures
        value_of(rule_at(show_rule(rule), 0)) == Ok::<Option<RuleView>, Expected>(Some(rule)),
{
    let src = show_rule(rule);
    assert(has_at(src, 0, src));
    lemma_reads_rule(src, 0, rule);
}

} // verus!
