//! Writing terms, rules and files in the surface syntax.
//!
//! A chain of `StrCons` that ends in `StrNil` is written as a string, a chain
//! of `Cons` that ends in `Nil` as a list, and only a chain that has this
//! shape all the way down: any other constructor is written with its name
//! and arguments.

use vstd::prelude::*;
use vstd::string::StringExecFns;
use crate::term::{views, File, Oper, Rule, RuleView, Term, TermView};
use crate::text::{
    char_of_code, code_char, decimal, is_scalar_value, push_char, push_decimal, same_text,
};

verus! {

/// `t` has the shape of a string: `StrCons` of a character code and a string,
/// or `StrNil`.
pub open spec fn is_string(t: TermView) -> bool
    decreases t,
{
    match t {
        TermView::Ctr { name, args } => {
            ||| name == "StrNil"@ && args.len() == 0
            ||| {
                &&& name == "StrCons"@
                &&& args.len() == 2
                &&& args[0] is Num
                &&& is_scalar_value(args[0]->numb as int)
                &&& is_string(args[1])
            }
        },
        _ => false,
    }
}

/// The characters of a term that has the shape of a string.
pub open spec fn string_chars(t: TermView) -> Seq<char>
    decreases t,
{
    match t {
        TermView::Ctr { name, args } => if name == "StrCons"@ && args.len() == 2 && args[0] is Num {
            seq![code_char(args[0]->numb)] + string_chars(args[1])
        } else {
            Seq::empty()
        },
        _ => Seq::empty(),
    }
}

/// `t` has the shape of a list: `Cons` of an item and a list, or `Nil`.
pub open spec fn is_list(t: TermView) -> bool
    decreases t,
{
    match t {
        TermView::Ctr { name, args } => {
            ||| name == "Nil"@ && args.len() == 0
            ||| name == "Cons"@ && args.len() == 2 && is_list(args[1])
        },
        _ => false,
    }
}

/// How a term is written.
pub open spec fn show(t: TermView) -> Seq<char>
    decreases t, 1int,
{
    match t {
        TermView::Var { name } => name,
        TermView::Dup { nam0, nam1, expr, body } => "dup "@ + nam0 + " "@ + nam1 + " = "@ + show(
            *expr,
        ) + "; "@ + show(*body),
        TermView::Let { name, expr, body } => "let "@ + name + " = "@ + show(*expr) + "; "@ + show(
            *body,
        ),
        TermView::Lam { name, body } => "λ"@ + name + " "@ + show(*body),
        TermView::App { func, argm } => "("@ + show_func(*func) + " "@ + show(*argm) + ")"@,
        TermView::Ctr { name, args } => if is_string(t) {
            "\""@ + string_chars(t) + "\""@
        } else if is_list(t) {
            "["@ + show_items(t, true) + "]"@
        } else {
            "("@ + name + show_args(args) + ")"@
        },
        TermView::Num { numb } => decimal(numb as nat),
        TermView::Op2 { oper, val0, val1 } => "("@ + oper.symbol() + " "@ + show(*val0) + " "@
            + show(*val1) + ")"@,
    }
}

/// How the function of an application is written: an application in this
/// place is written without parentheses of its own, so that a run of
/// applications becomes one parenthesised run of terms.
pub open spec fn show_func(t: TermView) -> Seq<char>
    decreases t, 2int,
{
    match t {
        TermView::App { func, argm } => show_func(*func) + " "@ + show(*argm),
        _ => show(t),
    }
}

/// How the arguments of a constructor are written: a blank before each.
pub open spec fn show_args(args: Seq<TermView>) -> Seq<char>
    decreases args, 0int,
{
    if args.len() == 0 {
        Seq::empty()
    } else {
        show_args(args.drop_last()) + " "@ + show(args.last())
    }
}

/// How the items of a list are written: a comma and a blank between them.
pub open spec fn show_items(t: TermView, first: bool) -> Seq<char>
    decreases t, 0int,
{
    match t {
        TermView::Ctr { name, args } => if name == "Cons"@ && args.len() == 2 {
            (if first {
                Seq::empty()
            } else {
                ", "@
            }) + show(args[0]) + show_items(args[1], false)
        } else {
            Seq::empty()
        },
        _ => Seq::empty(),
    }
}

/// How a rule is written.
pub open spec fn show_rule(rule: RuleView) -> Seq<char> {
    show(rule.lhs) + " = "@ + show(rule.rhs)
}

/// How the rules of a file are written: one to a line.
pub open spec fn show_rules(rules: Seq<RuleView>) -> Seq<char>
    decreases rules.len(),
{
    if rules.len() == 0 {
        Seq::empty()
    } else if rules.len() == 1 {
        show_rule(rules[0])
    } else {
        show_rules(rules.drop_last()) + "\n"@ + show_rule(rules.last())
    }
}

/// Whether a term has the shape of a string.
pub fn has_string_shape(term: &Term) -> (b: bool)
    ensures
        b == is_string(term@),
{
    let mut at: &Term = term;
    loop
        invariant
            is_string(term@) == is_string(at@),
        decreases at,
    {
        match at {
            Term::Ctr { name, args } => {
                proof {
                    at.lemma_ctr_view();
                }
                if args.len() == 0 {
                    return same_text(name.as_str(), "StrNil");
                }
                if args.len() != 2 || !same_text(name.as_str(), "StrCons") {
                    return false;
                }
                match &*args[0] {
                    Term::Num { numb } => {
                        if *numb > 0x10FFFF || char_of_code(*numb as u32).is_none() {
                            return false;
                        }
                    },
                    _ => {
                        return false;
                    },
                }
                at = &*args[1];
            },
            _ => {
                return false;
            },
        }
    }
}

/// Whether a term has the shape of a list.
pub fn has_list_shape(term: &Term) -> (b: bool)
    ensures
        b == is_list(term@),
{
    let mut at: &Term = term;
    loop
        invariant
            is_list(term@) == is_list(at@),
        decreases at,
    {
        match at {
            Term::Ctr { name, args } => {
                proof {
                    at.lemma_ctr_view();
                }
                if args.len() == 0 {
                    return same_text(name.as_str(), "Nil");
                }
                if args.len() != 2 || !same_text(name.as_str(), "Cons") {
                    return false;
                }
                at = &*args[1];
            },
            _ => {
                return false;
            },
        }
    }
}

/// Appends the characters of a term that has the shape of a string.
fn write_chars(term: &Term, out: &mut String)
    requires
        is_string(term@),
    ensures
        final(out)@ == old(out)@ + string_chars(term@),
{
    let mut at: &Term = term;
    loop
        invariant
            is_string(at@),
            old(out)@ + string_chars(term@) == out@ + string_chars(at@),
        decreases at,
    {
        match at {
            Term::Ctr { name, args } => {
                proof {
                    at.lemma_ctr_view();
                }
                if args.len() != 2 {
                    proof {
                        assert(out@ + string_chars(at@) =~= out@);
                    }
                    return ;
                }
                match &*args[0] {
                    Term::Num { numb } => {
                        match char_of_code(*numb as u32) {
                            Some(c) => {
                                proof {
                                    assert(out@.push(c) + string_chars(args[1]@) =~= out@
                                        + string_chars(at@));
                                }
                                push_char(out, c);
                            },
                            None => {},
                        }
                    },
                    _ => {},
                }
                at = &*args[1];
            },
            _ => {
                return ;
            },
        }
    }
}

impl Oper {
    /// The symbol of the operator, as a string of its own.
    pub fn to_string(&self) -> (s: String)
        ensures
            s@ == self.symbol(),
    {
        self.text().to_owned()
    }
}

/// Text that is appended piece by piece is the text appended at once.
proof fn lemma_appended(before: Seq<char>, written: Seq<char>, more: Seq<char>)
    ensures
        (before + written) + more == before + (written + more),
{
    assert((before + written) + more =~= before + (written + more));
}

impl Term {
    /// Appends the term as it is written.
    pub fn write(&self, out: &mut String)
        ensures
            final(out)@ == old(out)@ + show(self@),
        decreases self, 1int,
    {
        let ghost before = out@;
        match self {
            Term::Var { name } => {
                out.append(name.as_str());
            },
            Term::Dup { nam0, nam1, expr, body } => {
                out.append("dup ");
                let ghost w1 = "dup "@;
                out.append(nam0.as_str());
                let ghost w2 = w1 + nam0@;
                out.append(" ");
                let ghost w3 = w2 + " "@;
                out.append(nam1.as_str());
                let ghost w4 = w3 + nam1@;
                out.append(" = ");
                let ghost w5 = w4 + " = "@;
                expr.write(out);
                let ghost w6 = w5 + show(expr@);
                out.append("; ");
                let ghost w7 = w6 + "; "@;
                body.write(out);
                proof {
                    lemma_appended(before, w1, nam0@);
                    lemma_appended(before, w2, " "@);
                    lemma_appended(before, w3, nam1@);
                    lemma_appended(before, w4, " = "@);
                    lemma_appended(before, w5, show(expr@));
                    lemma_appended(before, w6, "; "@);
                    lemma_appended(before, w7, show(body@));
                }
            },
            Term::Let { name, expr, body } => {
                out.append("let ");
                let ghost w1 = "let "@;
                out.append(name.as_str());
                let ghost w2 = w1 + name@;
                out.append(" = ");
                let ghost w3 = w2 + " = "@;
                expr.write(out);
                let ghost w4 = w3 + show(expr@);
                out.append("; ");
                let ghost w5 = w4 + "; "@;
                body.write(out);
                proof {
                    lemma_appended(before, w1, name@);
                    lemma_appended(before, w2, " = "@);
                    lemma_appended(before, w3, show(expr@));
                    lemma_appended(before, w4, "; "@);
                    lemma_appended(before, w5, show(body@));
                }
            },
            Term::Lam { name, body } => {
                out.append("λ");
                let ghost w1 = "λ"@;
                out.append(name.as_str());
                let ghost w2 = w1 + name@;
                out.append(" ");
                let ghost w3 = w2 + " "@;
                body.write(out);
                proof {
                    lemma_appended(before, w1, name@);
                    lemma_appended(before, w2, " "@);
                    lemma_appended(before, w3, show(body@));
                }
            },
            Term::App { func, argm } => {
                out.append("(");
                let ghost w1 = "("@;
                func.write_func(out);
                let ghost w2 = w1 + show_func(func@);
                out.append(" ");
                let ghost w3 = w2 + " "@;
                argm.write(out);
                let ghost w4 = w3 + show(argm@);
                out.append(")");
                proof {
                    lemma_appended(before, w1, show_func(func@));
                    lemma_appended(before, w2, " "@);
                    lemma_appended(before, w3, show(argm@));
                    lemma_appended(before, w4, ")"@);
                }
            },
            Term::Ctr { name, args } => {
                proof {
                    self.lemma_ctr_view();
                }
                if has_string_shape(self) {
                    out.append("\"");
                    let ghost w1 = "\""@;
                    write_chars(self, out);
                    let ghost w2 = w1 + string_chars(self@);
                    out.append("\"");
                    proof {
                        lemma_appended(before, w1, string_chars(self@));
                        lemma_appended(before, w2, "\""@);
                    }
                } else if has_list_shape(self) {
                    out.append("[");
                    let ghost w1 = "["@;
                    self.write_items(out);
                    let ghost w2 = w1 + show_items(self@, true);
                    out.append("]");
                    proof {
                        lemma_appended(before, w1, show_items(self@, true));
                        lemma_appended(before, w2, "]"@);
                    }
                } else {
                    out.append("(");
                    let ghost w1 = "("@;
                    out.append(name.as_str());
                    let ghost w2 = w1 + name@;
                    let mut k: usize = 0;
                    proof {
                        lemma_appended(before, w1, name@);
                        assert(views(args@).take(0) =~= Seq::<TermView>::empty());
                        assert(w2 + show_args(views(args@).take(0)) =~= w2);
                    }
                    while k < args.len()
                        invariant
                            k <= args.len(),
                            self is Ctr,
                            self->Ctr_args == *args,
                            out@ == before + (w2 + show_args(views(args@).take(k as int))),
                        decreases args.len() - k,
                    {
                        let ghost shown = show_args(views(args@).take(k as int));
                        out.append(" ");
                        let item: &Term = &*args[k];
                        item.write(out);
                        proof {
                            let done = views(args@).take(k + 1);
                            assert(done.drop_last() =~= views(args@).take(k as int));
                            assert(done.last() == item@);
                            assert(show_args(done) == shown + " "@ + show(item@));
                            lemma_appended(before, w2 + shown, " "@);
                            lemma_appended(before, w2 + shown + " "@, show(item@));
                            lemma_appended(w2, shown, " "@);
                            lemma_appended(w2, shown + " "@, show(item@));
                        }
                        k += 1;
                    }
                    out.append(")");
                    proof {
                        assert(views(args@).take(args@.len() as int) =~= views(args@));
                        lemma_appended(before, w2 + show_args(views(args@)), ")"@);
                    }
                }
            },
            Term::Num { numb } => {
                push_decimal(out, *numb);
            },
            Term::Op2 { oper, val0, val1 } => {
                out.append("(");
                let ghost w1 = "("@;
                out.append(oper.text());
                let ghost w2 = w1 + oper.symbol();
                out.append(" ");
                let ghost w3 = w2 + " "@;
                val0.write(out);
                let ghost w4 = w3 + show(val0@);
                out.append(" ");
                let ghost w5 = w4 + " "@;
                val1.write(out);
                let ghost w6 = w5 + show(val1@);
                out.append(")");
                proof {
                    lemma_appended(before, w1, oper.symbol());
                    lemma_appended(before, w2, " "@);
                    lemma_appended(before, w3, show(val0@));
                    lemma_appended(before, w4, " "@);
                    lemma_appended(before, w5, show(val1@));
                    lemma_appended(before, w6, ")"@);
                }
            },
        }
    }

    /// Appends the term as the function of an application.
    fn write_func(&self, out: &mut String)
        ensures
            final(out)@ == old(out)@ + show_func(self@),
        decreases self, 2int,
    {
        let ghost before = out@;
        match self {
            Term::App { func, argm } => {
                func.write_func(out);
                let ghost w1 = show_func(func@);
                out.append(" ");
                let ghost w2 = w1 + " "@;
                argm.write(out);
                proof {
                    lemma_appended(before, w1, " "@);
                    lemma_appended(before, w2, show(argm@));
                }
            },
            _ => {
                self.write(out);
            },
        }
    }

    /// Appends the items of a term that has the shape of a list.
    fn write_items(&self, out: &mut String)
        requires
            is_list(self@),
        ensures
            final(out)@ == old(out)@ + show_items(self@, true),
        decreases self, 0int,
    {
        let ghost before = out@;
        let mut at: &Term = self;
        let mut first = true;
        loop
            invariant
                before == old(out)@,
                is_list(at@),
                at == self || decreases_to!(self => at),
                before + show_items(self@, true) == out@ + show_items(at@, first),
            decreases at,
        {
            let ghost start = out@;
            match at {
                Term::Ctr { name, args } => {
                    proof {
                        at.lemma_ctr_view();
                    }
                    if args.len() != 2 {
                        proof {
                            assert(show_items(at@, first) =~= Seq::<char>::empty());
                            assert(out@ + show_items(at@, first) =~= out@);
                        }
                        return ;
                    }
                    let ghost sep = if first {
                        Seq::<char>::empty()
                    } else {
                        ", "@
                    };
                    if !first {
                        out.append(", ");
                    }
                    proof {
                        assert(out@ =~= start + sep);
                    }
                    let item: &Term = &*args[0];
                    item.write(out);
                    proof {
                        assert(show_items(at@, first) == sep + show(item@) + show_items(
                            args[1]@,
                            false,
                        ));
                        lemma_appended(start, sep + show(item@), show_items(args[1]@, false));
                        lemma_appended(start, sep, show(item@));
                    }
                    first = false;
                    at = &*args[1];
                },
                _ => {
                    return ;
                },
            }
        }
    }

    /// The term as it is written.
    pub fn to_string(&self) -> (s: String)
        ensures
            s@ == show(self@),
    {
        let mut out = String::new();
        self.write(&mut out);
        proof {
            assert(out@ =~= show(self@));
        }
        out
    }
}

impl Rule {
    /// Appends the rule as it is written, `lhs = rhs`.
    pub fn write(&self, out: &mut String)
        ensures
            final(out)@ == old(out)@ + show_rule(self@),
    {
        let ghost before = out@;
        self.lhs.write(out);
        out.append(" = ");
        self.rhs.write(out);
        proof {
            assert(out@ =~= before + show_rule(self@));
        }
    }

    /// The rule as it is written.
    pub fn to_string(&self) -> (s: String)
        ensures
            s@ == show_rule(self@),
    {
        let mut out = String::new();
        self.write(&mut out);
        proof {
            assert(out@ =~= show_rule(self@));
        }
        out
    }
}

impl File {
    /// The rules as they are written, one to a line.
    pub fn to_string(&self) -> (s: String)
        ensures
            s@ == show_rules(self@),
    {
        let mut out = String::new();
        let mut k: usize = 0;
        proof {
            assert(self@.take(0) =~= Seq::<RuleView>::empty());
        }
        while k < self.rules.len()
            invariant
                k <= self.rules.len(),
                out@ == show_rules(self@.take(k as int)),
            decreases self.rules.len() - k,
        {
            let ghost start = out@;
            if k > 0 {
                out.append("\n");
            }
            self.rules[k].write(&mut out);
            proof {
                let done = self@.take(k + 1);
                assert(done.drop_last() =~= self@.take(k as int));
                assert(done.last() == self.rules@[k as int]@);
                if k == 0 {
                    assert(out@ =~= show_rule(done[0]));
                } else {
                    assert(out@ =~= show_rules(done));
                }
            }
            k += 1;
        }
        proof {
            assert(self@.take(self.rules@.len() as int) =~= self@);
        }
        out
    }
}

} // verus!
