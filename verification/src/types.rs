//! Expressions, which are both the syntax that the parser builds and the
//! values that evaluation gives, and the result of one evaluation.
use crate::appstate::{State, StateView};
use crate::errors::{ErrView, JreplErr};
use crate::number::Number;
use vstd::prelude::*;

verus! {

/// An expression.
#[derive(Debug, PartialEq)]
pub enum Expr {
    /// A string literal, with its quotes.
    String(String),
    /// A number.
    Number(Number),
    /// A truth value.
    Bool(bool),
    /// The empty value.
    Nil,
    /// A name to be looked up in the symbol table.
    Symbol(String),
    /// A list: a command with its arguments, or an aggregate of literals.
    List(Vec<Expr>),
}

/// An expression as a value.
pub enum ExprView {
    String(Seq<char>),
    Number(u64),
    Bool(bool),
    Nil,
    Symbol(Seq<char>),
    List(Seq<ExprView>),
}

/// The value of an expression.
pub open spec fn expr_view(e: Expr) -> ExprView
    decreases e,
{
    match e {
        Expr::String(s) => ExprView::String(s@),
        Expr::Number(n) => ExprView::Number(n@),
        Expr::Bool(b) => ExprView::Bool(b),
        Expr::Nil => ExprView::Nil,
        Expr::Symbol(s) => ExprView::Symbol(s@),
        Expr::List(items) => ExprView::List(
            Seq::new(
                items@.len(),
                |i: int|
                    if 0 <= i < items@.len() {
                        expr_view(items@[i])
                    } else {
                        ExprView::Nil
                    },
            ),
        ),
    }
}

impl View for Expr {
    type V = ExprView;

    open spec fn view(&self) -> ExprView {
        expr_view(*self)
    }
}

/// The values of the expressions of a sequence.
pub open spec fn expr_views(items: Seq<Expr>) -> Seq<ExprView> {
    Seq::new(items.len(), |i: int| items[i]@)
}

/// The value of a list is the list of its items' values.
pub proof fn lemma_list_view(items: Vec<Expr>)
    ensures
        Expr::List(items)@ == ExprView::List(expr_views(items@)),
{
    assert(Expr::List(items)@->List_0 =~= expr_views(items@));
}

impl ExprView {
    /// A value that cannot be expanded further: a string, a number, a truth
    /// value or the empty value.
    pub open spec fn is_terminal(self) -> bool {
        self is String || self is Number || self is Bool || self is Nil
    }

    /// A terminal, or a list whose items are all literal: no symbol occurs
    /// anywhere in it.
    pub open spec fn is_literal(self) -> bool
        decreases self,
    {
        match self {
            ExprView::Symbol(_) => false,
            ExprView::List(items) => forall|i: int|
                0 <= i < items.len() ==> (#[trigger] items[i]).is_literal(),
            _ => true,
        }
    }
}

impl Expr {
    /// Whether the expression is a string, a number, a truth value or the
    /// empty value.
    pub fn is_terminal(&self) -> (r: bool)
        ensures
            r == self@.is_terminal(),
    {
        match self {
            Expr::String(_) | Expr::Number(_) | Expr::Bool(_) | Expr::Nil => true,
            _ => false,
        }
    }

    /// Whether no symbol occurs anywhere in the expression.
    pub fn is_literal(&self) -> (r: bool)
        ensures
            r == self@.is_literal(),
        decreases self,
    {
        match self {
            Expr::Symbol(_) => false,
            Expr::List(items) => {
                proof {
                    lemma_list_view(*items);
                }
                let mut i: usize = 0;
                while i < items.len()
                    invariant
                        i <= items.len(),
                        *self == Expr::List(*items),
                        self@ == ExprView::List(expr_views(items@)),
                        forall|j: int|
                            0 <= j < i ==> (#[trigger] expr_views(items@)[j]).is_literal(),
                    decreases items.len() - i,
                {
                    if !items[i].is_literal() {
                        assert(expr_views(items@)[i as int] == items@[i as int]@);
                        assert(!self@->List_0[i as int].is_literal());
                        return false;
                    }
                    i += 1;
                }
                true
            },
            _ => true,
        }
    }
}

impl Expr {
    /// A copy of the expression.
    pub fn duplicate(&self) -> (r: Expr)
        ensures
            r@ == self@,
        decreases self,
    {
        match self {
            Expr::String(s) => Expr::String(s.clone()),
            Expr::Number(n) => Expr::Number(*n),
            Expr::Bool(b) => Expr::Bool(*b),
            Expr::Nil => Expr::Nil,
            Expr::Symbol(s) => Expr::Symbol(s.clone()),
            Expr::List(items) => {
                let mut copy: Vec<Expr> = Vec::new();
                let mut i: usize = 0;
                while i < items.len()
                    invariant
                        i <= items.len(),
                        self matches Expr::List(list) && list == *items,
                        copy@.len() == i,
                        forall|j: int| 0 <= j < i ==> copy@[j]@ == items@[j]@,
                    decreases items.len() - i,
                {
                    let item = items[i].duplicate();
                    copy.push(item);
                    i += 1;
                }
                proof {
                    lemma_list_view(*items);
                    lemma_list_view(copy);
                    assert(expr_views(copy@) =~= expr_views(items@));
                }
                Expr::List(copy)
            },
        }
    }
}

impl Clone for Expr {
    fn clone(&self) -> (r: Expr)
        ensures
            r@ == self@,
    {
        self.duplicate()
    }
}

/// A parsed input.
#[derive(Debug, PartialEq)]
pub struct AST {
    pub expr: Expr,
}

/// The result of one evaluation: a value, a state to go on with, a message
/// for the user and an error, each of which may be missing.
pub struct Effect {
    pub eval_value: Option<Expr>,
    pub next_state: Option<State>,
    pub user_feedback: Option<String>,
    pub err: Option<JreplErr>,
}

/// The result of one evaluation, as a value.
pub struct EffectView {
    pub value: Option<ExprView>,
    pub next_state: Option<StateView>,
    pub feedback: Option<Seq<char>>,
    pub err: Option<ErrView>,
}

impl View for Effect {
    type V = EffectView;

    open spec fn view(&self) -> EffectView {
        EffectView {
            value: match self.eval_value {
                Some(e) => Some(e@),
                None => None,
            },
            next_state: match self.next_state {
                Some(s) => Some(s@),
                None => None,
            },
            feedback: match self.user_feedback {
                Some(m) => Some(m@),
                None => None,
            },
            err: match self.err {
                Some(e) => Some(e@),
                None => None,
            },
        }
    }
}

/// The effect that is a value and nothing else.
pub open spec fn value_effect(v: ExprView) -> EffectView {
    EffectView { value: Some(v), next_state: None, feedback: None, err: None }
}

/// The effect that is an error and nothing else.
pub open spec fn error_effect(e: ErrView) -> EffectView {
    EffectView { value: None, next_state: None, feedback: None, err: Some(e) }
}

impl Effect {
    /// The effect that is the given value and nothing else.
    pub fn from_eval_value(expr: Expr) -> (r: Effect)
        ensures
            r@ == value_effect(expr@),
    {
        Effect { eval_value: Some(expr), next_state: None, user_feedback: None, err: None }
    }

    /// The effect that is the given error and nothing else.
    pub fn from_err(err: JreplErr) -> (r: Effect)
        ensures
            r@ == error_effect(err@),
    {
        Effect { eval_value: None, next_state: None, user_feedback: None, err: Some(err) }
    }
}

} // verus!
