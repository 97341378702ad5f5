//! The term tree, rewrite rules and files, each with its mathematical view.

use vstd::prelude::*;

verus! {

/// The sixteen binary operators.
#[derive(Clone, Copy, Debug, PartialEq, Eq, Structural)]
pub enum Oper {
    Add,
    Sub,
    Mul,
    Div,
    Mod,
    And,
    Or,
    Xor,
    Shl,
    Shr,
    Lte,
    Ltn,
    Eql,
    Gte,
    Gtn,
    Neq,
}

impl Oper {
    /// The symbol an operator is written with.
    pub open spec fn symbol(self) -> Seq<char> {
        match self {
            Oper::Add => "+"@,
            Oper::Sub => "-"@,
            Oper::Mul => "*"@,
            Oper::Div => "/"@,
            Oper::Mod => "%"@,
            Oper::And => "&"@,
            Oper::Or => "|"@,
            Oper::Xor => "^"@,
            Oper::Shl => "<<"@,
            Oper::Shr => ">>"@,
            Oper::Lte => "<="@,
            Oper::Ltn => "<"@,
            Oper::Eql => "=="@,
            Oper::Gte => ">="@,
            Oper::Gtn => ">"@,
            Oper::Neq => "!="@,
        }
    }

    /// The symbol an operator is written with.
    pub fn text(&self) -> (s: &'static str)
        ensures
            s@ == self.symbol(),
    {
        match self {
            Oper::Add => "+",
            Oper::Sub => "-",
            Oper::Mul => "*",
            Oper::Div => "/",
            Oper::Mod => "%",
            Oper::And => "&",
            Oper::Or => "|",
            Oper::Xor => "^",
            Oper::Shl => "<<",
            Oper::Shr => ">>",
            Oper::Lte => "<=",
            Oper::Ltn => "<",
            Oper::Eql => "==",
            Oper::Gte => ">=",
            Oper::Gtn => ">",
            Oper::Neq => "!=",
        }
    }
}

/// A term of the language. Names are kept as written: nothing here ties a
/// variable to the binder it refers to.
#[derive(Debug, PartialEq, Eq)]
pub enum Term {
    Var { name: String },
    Dup { nam0: String, nam1: String, expr: Box<Term>, body: Box<Term> },
    Let { name: String, expr: Box<Term>, body: Box<Term> },
    Lam { name: String, body: Box<Term> },
    App { func: Box<Term>, argm: Box<Term> },
    Ctr { name: String, args: Vec<Box<Term>> },
    Num { numb: u64 },
    Op2 { oper: Oper, val0: Box<Term>, val1: Box<Term> },
}

pub type BTerm = Box<Term>;

/// The mathematical value of a term.
pub enum TermView {
    Var { name: Seq<char> },
    Dup { nam0: Seq<char>, nam1: Seq<char>, expr: Box<TermView>, body: Box<TermView> },
    Let { name: Seq<char>, expr: Box<TermView>, body: Box<TermView> },
    Lam { name: Seq<char>, body: Box<TermView> },
    App { func: Box<TermView>, argm: Box<TermView> },
    Ctr { name: Seq<char>, args: Seq<TermView> },
    Num { numb: u64 },
    Op2 { oper: Oper, val0: Box<TermView>, val1: Box<TermView> },
}

/// The values of a run of terms, in order.
pub open spec fn views(items: Seq<Box<Term>>) -> Seq<TermView> {
    Seq::new(items.len(), |i: int| items[i]@)
}

impl Term {
    /// The value of a term, by recursion over the tree.
    pub open spec fn model(&self) -> TermView
        decreases self,
    {
        match self {
            Term::Var { name } => TermView::Var { name: name@ },
            Term::Dup { nam0, nam1, expr, body } => TermView::Dup {
                nam0: nam0@,
                nam1: nam1@,
                expr: Box::new(expr.model()),
                body: Box::new(body.model()),
            },
            Term::Let { name, expr, body } => TermView::Let {
                name: name@,
                expr: Box::new(expr.model()),
                body: Box::new(body.model()),
            },
            Term::Lam { name, body } => TermView::Lam { name: name@, body: Box::new(body.model()) },
            Term::App { func, argm } => TermView::App {
                func: Box::new(func.model()),
                argm: Box::new(argm.model()),
            },
            Term::Ctr { name, args } => TermView::Ctr {
                name: name@,
                args: Seq::new(
                    args@.len(),
                    |i: int|
                        if 0 <= i < args@.len() {
                            args@[i].model()
                        } else {
                            arbitrary()
                        },
                ),
            },
            Term::Num { numb } => TermView::Num { numb: *numb },
            Term::Op2 { oper, val0, val1 } => TermView::Op2 {
                oper: *oper,
                val0: Box::new(val0.model()),
                val1: Box::new(val1.model()),
            },
        }
    }

    /// The arguments of a constructor term are seen one by one.
    pub proof fn lemma_ctr_view(&self)
        requires
            self is Ctr,
        ensures
            self@ == (TermView::Ctr { name: self->Ctr_name@, args: views(self->Ctr_args@) }),
    {
        assert(self@->Ctr_args =~= views(self->Ctr_args@));
    }

    /// A constructor term with the given name and arguments.
    pub fn ctr(name: String, args: Vec<Box<Term>>) -> (t: Box<Term>)
        ensures
            t@ == (TermView::Ctr { name: name@, args: views(args@) }),
    {
        let t = Term::Ctr { name, args };
        proof {
            t.lemma_ctr_view();
        }
        Box::new(t)
    }
}

impl View for Term {
    type V = TermView;

    open spec fn view(&self) -> TermView {
        self.model()
    }
}

impl Clone for Term {
    fn clone(&self) -> (res: Self)
        ensures
            res@ == self@,
        decreases self,
    {
        match self {
            Term::Var { name } => Term::Var { name: name.clone() },
            Term::Dup { nam0, nam1, expr, body } => Term::Dup {
                nam0: nam0.clone(),
                nam1: nam1.clone(),
                expr: Box::new((&**expr).clone()),
                body: Box::new((&**body).clone()),
            },
            Term::Let { name, expr, body } => Term::Let {
                name: name.clone(),
                expr: Box::new((&**expr).clone()),
                body: Box::new((&**body).clone()),
            },
            Term::Lam { name, body } => Term::Lam {
                name: name.clone(),
                body: Box::new((&**body).clone()),
            },
            Term::App { func, argm } => Term::App {
                func: Box::new((&**func).clone()),
                argm: Box::new((&**argm).clone()),
            },
            Term::Ctr { name, args } => {
                let mut copy: Vec<Box<Term>> = Vec::new();
                let mut i: usize = 0;
                while i < args.len()
                    invariant
                        i <= args.len(),
                        self is Ctr,
                        self->Ctr_args == *args,
                        copy@.len() == i,
                        forall|j: int| 0 <= j < i ==> (#[trigger] copy@[j])@ == args@[j]@,
                    decreases args.len() - i,
                {
                    let item: &Term = &*args[i];
                    copy.push(Box::new(item.clone()));
                    i += 1;
                }
                let res = Term::Ctr { name: name.clone(), args: copy };
                proof {
                    res.lemma_ctr_view();
                    self.lemma_ctr_view();
                    assert(views(copy@) =~= views(args@));
                }
                res
            },
            Term::Num { numb } => Term::Num { numb: *numb },
            Term::Op2 { oper, val0, val1 } => Term::Op2 {
                oper: *oper,
                val0: Box::new((&**val0).clone()),
                val1: Box::new((&**val1).clone()),
            },
        }
    }
}

/// A rewrite rule, `lhs = rhs`.
#[derive(Debug, PartialEq, Eq)]
pub struct Rule {
    pub lhs: Box<Term>,
    pub rhs: Box<Term>,
}

/// The mathematical value of a rule.
pub struct RuleView {
    pub lhs: TermView,
    pub rhs: TermView,
}

impl View for Rule {
    type V = RuleView;

    open spec fn view(&self) -> RuleView {
        RuleView { lhs: self.lhs@, rhs: self.rhs@ }
    }
}

impl Clone for Rule {
    fn clone(&self) -> (res: Self)
        ensures
            res@ == self@,
    {
        Rule { lhs: Box::new((&*self.lhs).clone()), rhs: Box::new((&*self.rhs).clone()) }
    }
}

/// The rules of a source file, in the order in which they were written.
#[derive(Debug, PartialEq, Eq)]
pub struct File {
    pub rules: Vec<Rule>,
}

/// The values of a run of rules, in order.
pub open spec fn rule_views(rules: Seq<Rule>) -> Seq<RuleView> {
    Seq::new(rules.len(), |i: int| rules[i]@)
}

impl View for File {
    type V = Seq<RuleView>;

    open spec fn view(&self) -> Seq<RuleView> {
        rule_views(self.rules@)
    }
}

} // verus!
