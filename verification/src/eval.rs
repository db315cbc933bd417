//! The evaluator: what an expression gives in a state.
//!
//! A list whose first item names a command hands its other items to the
//! command as they stand. Each command decides which of them it evaluates,
//! and when: `if` never evaluates the branch that it does not take.
use crate::appstate::{
    command_of, find_command, resolve_symbol, resolved, AppState, StateBuilder, StateView,
};
use crate::symbols::{Referent, ReferentView};
use crate::command::Builtin;
use crate::errors::{ErrKind, JreplErr};
use crate::faults::{eval_error, plain_error, value_error, value_error_between, EvalFault};
use crate::help::{help_message, help_text};
use crate::number::{
    double_difference, double_product, double_quotient, double_sum, is_zero_bits, negated, Number,
    ONE_BITS,
};
use crate::types::{expr_views, lemma_list_view, value_effect, Effect, EffectView, Expr, ExprView};
use vstd::prelude::*;
use vstd::slice::slice_subrange;

verus! {

/// The four arithmetic operations.
#[derive(Clone, Copy, Debug, PartialEq, Eq, Structural)]
pub enum Operator {
    Add,
    Subtract,
    Multiply,
    Divide,
}

/// The accumulator after one more number. Division by zero is a fault.
pub open spec fn arith_step(op: Operator, acc: u64, x: u64) -> Result<u64, EvalFault> {
    match op {
        Operator::Add => Ok(double_sum(acc, x)),
        Operator::Subtract => Ok(double_difference(acc, x)),
        Operator::Multiply => Ok(double_product(acc, x)),
        Operator::Divide => if is_zero_bits(x) {
            Err(EvalFault::DivisionByZero)
        } else {
            Ok(double_quotient(acc, x))
        },
    }
}

/// The effect that is a number, or the error in its place.
pub open spec fn number_effect(r: Result<u64, EvalFault>) -> Result<EffectView, EvalFault> {
    match r {
        Ok(n) => Ok(value_effect(ExprView::Number(n))),
        Err(k) => Err(k),
    }
}

/// What an expression evaluates to.
///
/// A terminal is its own value. A symbol is the terminal that it stands for.
/// The empty list is the empty value. A list of one item invokes the command
/// that the item names, without arguments, and is the item's value where it
/// names none. A longer list without symbols is its own value. Any other list
/// invokes the command that its first item names on its other items.
pub open spec fn eval_spec(state: StateView, e: ExprView) -> Result<EffectView, EvalFault>
    decreases e, 0nat,
{
    match e {
        ExprView::Symbol(name) => match resolve_symbol(state, name) {
            Ok(v) => Ok(value_effect(v)),
            Err(k) => Err(k),
        },
        ExprView::List(items) => if items.len() == 0 {
            Ok(value_effect(ExprView::Nil))
        } else if items.len() == 1 {
            match head_command(state, items[0]) {
                Some(builtin) => apply_builtin(state, builtin, items.skip(1)),
                None => match value_of_spec(state, items[0]) {
                    Ok(v) => Ok(value_effect(v)),
                    Err(k) => Err(k),
                },
            }
        } else if e.is_literal() {
            Ok(value_effect(e))
        } else {
            match items[0] {
                ExprView::Symbol(name) => match find_command(state, name) {
                    Ok(c) => apply_builtin(state, c.builtin, items.skip(1)),
                    Err(f) => Err(f),
                },
                head => Err(EvalFault::BadHead { head }),
            }
        },
        _ => Ok(value_effect(e)),
    }
}

/// The operation of the command that an expression names, if it is a symbol
/// bound to a command.
pub open spec fn head_command(state: StateView, head: ExprView) -> Option<Builtin> {
    match head {
        ExprView::Symbol(name) => match command_of(state, name) {
            Some(c) => Some(c.builtin),
            None => None,
        },
        _ => None,
    }
}

/// The value of an expression: itself where no symbol occurs in it, the
/// terminal that a symbol stands for, and what a list evaluates to. A list
/// that evaluates to no value is an error.
pub open spec fn value_of_spec(state: StateView, e: ExprView) -> Result<ExprView, EvalFault>
    decreases e, 1nat,
{
    if e.is_literal() {
        Ok(e)
    } else {
        match e {
            ExprView::Symbol(name) => resolve_symbol(state, name),
            _ => match eval_spec(state, e) {
                Ok(effect) => match effect.value {
                    Some(v) => Ok(v),
                    None => Err(EvalFault::NoValue),
                },
                Err(k) => Err(k),
            },
        }
    }
}

/// The number that an expression's value is. Any other value is an error.
pub open spec fn number_of_spec(state: StateView, e: ExprView) -> Result<u64, EvalFault>
    decreases e, 2nat,
{
    match value_of_spec(state, e) {
        Ok(ExprView::Number(n)) => Ok(n),
        Ok(got) => Err(EvalFault::NotANumber { got }),
        Err(k) => Err(k),
    }
}

/// The accumulator after the arguments from `from` up to `to`, taken from
/// left to right, or the first error among them.
pub open spec fn fold_spec(
    state: StateView,
    op: Operator,
    init: u64,
    args: Seq<ExprView>,
    from: nat,
    to: nat,
) -> Result<u64, EvalFault>
    decreases args, to,
{
    if to <= from || to > args.len() {
        Ok(init)
    } else {
        match fold_spec(state, op, init, args, from, (to - 1) as nat) {
            Ok(acc) => match number_of_spec(state, args[to - 1]) {
                Ok(x) => arith_step(op, acc, x),
                Err(k) => Err(k),
            },
            Err(k) => Err(k),
        }
    }
}

/// The state with the exit flag set.
pub open spec fn exiting(state: StateView) -> StateView {
    StateView { exit: true, ..state }
}

/// The state in which the name is bound to the value.
pub open spec fn defining(state: StateView, name: Seq<char>, value: ExprView) -> StateView {
    StateView { symbols: state.symbols.insert(name, ReferentView::Expr(value)), ..state }
}

/// What a command does with its arguments.
pub open spec fn apply_builtin(state: StateView, builtin: Builtin, args: Seq<ExprView>) -> Result<
    EffectView,
    EvalFault,
>
    decreases args, args.len() + 1,
{
    match builtin {
        Builtin::Help => Ok(value_effect(ExprView::String(help_text(state.commands)))),
        Builtin::Exit => Ok(
            EffectView { value: None, next_state: Some(exiting(state)), feedback: None, err: None },
        ),
        Builtin::Add => number_effect(fold_spec(state, Operator::Add, 0, args, 0, args.len())),
        Builtin::Multiply => number_effect(
            fold_spec(state, Operator::Multiply, ONE_BITS, args, 0, args.len()),
        ),
        Builtin::Subtract => if args.len() == 0 {
            Err(EvalFault::MinusArity)
        } else {
            match number_of_spec(state, args[0]) {
                Ok(first) => if args.len() == 1 {
                    Ok(value_effect(ExprView::Number(negated(first))))
                } else {
                    number_effect(
                        fold_spec(state, Operator::Subtract, first, args, 1, args.len()),
                    )
                },
                Err(k) => Err(k),
            }
        },
        Builtin::Divide => if args.len() == 0 {
            Err(EvalFault::DivideArity)
        } else {
            match number_of_spec(state, args[0]) {
                Ok(first) => if args.len() == 1 {
                    number_effect(arith_step(Operator::Divide, ONE_BITS, first))
                } else {
                    number_effect(fold_spec(state, Operator::Divide, first, args, 1, args.len()))
                },
                Err(k) => Err(k),
            }
        },
        Builtin::Define => if args.len() != 2 {
            Err(EvalFault::DefnArity)
        } else {
            match args[0] {
                ExprView::Symbol(name) => match value_of_spec(state, args[1]) {
                    Ok(value) => if value.is_terminal() {
                        Ok(
                            EffectView {
                                value: Some(value),
                                next_state: Some(defining(state, name, value)),
                                feedback: None,
                                err: None,
                            },
                        )
                    } else {
                        Err(EvalFault::DefnValue { got: value })
                    },
                    Err(k) => Err(k),
                },
                got => Err(EvalFault::DefnName { got }),
            }
        },
        Builtin::If => if args.len() < 2 || args.len() > 3 {
            Err(EvalFault::IfArity)
        } else {
            match value_of_spec(state, args[0]) {
                Ok(ExprView::Bool(condition)) => if condition {
                    eval_spec(state, args[1])
                } else if args.len() == 3 {
                    eval_spec(state, args[2])
                } else {
                    Ok(value_effect(ExprView::Nil))
                },
                Ok(got) => Err(EvalFault::IfCondition { got }),
                Err(k) => Err(k),
            }
        },
    }
}

/// Whether the result is the effect, or the error for the fault, that the
/// model gives.
pub open spec fn evaluated(
    r: Result<Effect, JreplErr>,
    expected: Result<EffectView, EvalFault>,
) -> bool {
    match expected {
        Ok(effect) => r matches Ok(x) && x@ == effect,
        Err(f) => r matches Err(e) && e@ == eval_error(f),
    }
}

/// Whether the result is the number, or the error for the fault, that the
/// model gives.
pub open spec fn numbered(r: Result<Number, JreplErr>, expected: Result<u64, EvalFault>) -> bool {
    match expected {
        Ok(n) => r matches Ok(x) && x@ == n,
        Err(f) => r matches Err(e) && e@ == eval_error(f),
    }
}

/// Evaluates an expression in a state.
pub fn eval(app_state: &AppState, expr: &Expr) -> (r: Result<Effect, JreplErr>)
    ensures
        evaluated(r, eval_spec(app_state@, expr@)),
    decreases expr@, 0nat,
{
    match expr {
        Expr::Symbol(symbol) => {
            match app_state.resolve_symbol_to_terminal(symbol.as_str()) {
                Ok(v) => Ok(Effect::from_eval_value(v)),
                Err(e) => Err(e),
            }
        },
        Expr::List(items) => {
            proof {
                lemma_list_view(*items);
            }
            let ghost views = expr_views(items@);
            if items.len() == 0 {
                return Ok(Effect::from_eval_value(Expr::Nil));
            }
            assert(views[0] == items@[0]@);
            let rest = slice_subrange(items.as_slice(), 1, items.len());
            assert(expr_views(rest@) =~= views.skip(1));
            if items.len() == 1 {
                if let Expr::Symbol(symbol) = &items[0] {
                    if let Ok(command) = app_state.get_command_from_symbol(symbol.as_str()) {
                        return run_builtin(app_state, command.builtin, rest);
                    }
                }
                return match value_of(app_state, &items[0]) {
                    Ok(v) => Ok(Effect::from_eval_value(v)),
                    Err(e) => Err(e),
                };
            }
            if expr.is_literal() {
                return Ok(Effect::from_eval_value(expr.duplicate()));
            }
            match &items[0] {
                Expr::Symbol(symbol) => {
                    match app_state.get_command_from_symbol(symbol.as_str()) {
                        Ok(command) => run_builtin(app_state, command.builtin, rest),
                        Err(e) => Err(e),
                    }
                },
                head => Err(
                    value_error_between(
                        ErrKind::OperatorFormatErr,
                        "Invalid list: expected a command symbol at position 0, found ",
                        head,
                        ". Multi-element lists must start with a command (e.g., (+ 1 2)). To evaluate a literal, put it alone in the list or use a list of literals: (42), (true), (\"a\" \"b\").",
                    ),
                ),
            }
        },
        _ => Ok(Effect::from_eval_value(expr.duplicate())),
    }
}

/// The value of an expression: the expression itself where no symbol occurs
/// in it, else what it resolves or evaluates to.
pub fn value_of(app_state: &AppState, expr: &Expr) -> (r: Result<Expr, JreplErr>)
    ensures
        resolved(r, value_of_spec(app_state@, expr@)),
    decreases expr@, 1nat,
{
    if expr.is_literal() {
        return Ok(expr.duplicate());
    }
    match expr {
        Expr::Symbol(symbol) => app_state.resolve_symbol_to_terminal(symbol.as_str()),
        _ => {
            match eval(app_state, expr) {
                Ok(effect) => match effect.eval_value {
                    Some(v) => Ok(v),
                    None => Err(
                        plain_error(ErrKind::OperatorFormatErr, "Subexpression returned no value"),
                    ),
                },
                Err(e) => Err(e),
            }
        },
    }
}

/// The number that an expression's value is.
pub fn number_of(app_state: &AppState, expr: &Expr) -> (r: Result<Number, JreplErr>)
    ensures
        numbered(r, number_of_spec(app_state@, expr@)),
    decreases expr@, 2nat,
{
    match value_of(app_state, expr) {
        Ok(Expr::Number(n)) => Ok(n),
        Ok(got) => Err(
            value_error(ErrKind::UndefinedSymbol, "Type error: expected Number, got ", &got),
        ),
        Err(e) => Err(e),
    }
}

/// One step of an arithmetic command: the accumulator after one more
/// number.
pub fn arith(op: Operator, acc: Number, x: Number) -> (r: Result<Number, JreplErr>)
    ensures
        numbered(r, arith_step(op, acc@, x@)),
{
    match op {
        Operator::Add => Ok(acc.plus(x)),
        Operator::Subtract => Ok(acc.minus(x)),
        Operator::Multiply => Ok(acc.times(x)),
        Operator::Divide => {
            if x.is_zero() {
                Err(plain_error(ErrKind::ArithmeticErr, "Division by zero"))
            } else {
                Ok(acc.over(x))
            }
        },
    }
}

/// The numbers that the arguments from `from` on evaluate to, folded into
/// the start value from left to right.
fn fold_numbers(app_state: &AppState, op: Operator, init: Number, args: &[Expr], from: usize) -> (r:
    Result<Number, JreplErr>)
    ensures
        numbered(
            r,
            fold_spec(app_state@, op, init@, expr_views(args@), from as nat, args@.len()),
        ),
    decreases expr_views(args@), args@.len(),
{
    let ghost views = expr_views(args@);
    let mut acc = init;
    let mut i: usize = from;
    if from >= args.len() {
        return Ok(init);
    }
    while i < args.len()
        invariant
            from <= i <= args.len(),
            views == expr_views(args@),
            fold_spec(app_state@, op, init@, views, from as nat, i as nat) == Ok::<u64, EvalFault>(
                acc@,
            ),
        decreases args.len() - i,
    {
        assert(views[i as int] == args@[i as int]@);
        match number_of(app_state, &args[i]) {
            Ok(x) => match arith(op, acc, x) {
                Ok(next) => {
                    acc = next;
                },
                Err(e) => {
                    proof {
                        lemma_fold_fails(
                            app_state@,
                            op,
                            init@,
                            views,
                            from as nat,
                            i as nat + 1,
                            views.len(),
                        );
                    }
                    return Err(e);
                },
            },
            Err(e) => {
                proof {
                    lemma_fold_fails(
                        app_state@,
                        op,
                        init@,
                        views,
                        from as nat,
                        i as nat + 1,
                        views.len(),
                    );
                }
                return Err(e);
            },
        }
        i += 1;
    }
    Ok(acc)
}

/// An error among the first arguments is the error of the whole fold.
proof fn lemma_fold_fails(
    state: StateView,
    op: Operator,
    init: u64,
    args: Seq<ExprView>,
    from: nat,
    to: nat,
    end: nat,
)
    requires
        from < to <= end <= args.len(),
        fold_spec(state, op, init, args, from, to) is Err,
    ensures
        fold_spec(state, op, init, args, from, end) == fold_spec(state, op, init, args, from, to),
    decreases end,
{
    if to < end {
        lemma_fold_fails(state, op, init, args, from, to, (end - 1) as nat);
    }
}

/// Performs a command on its arguments, which are handed over as they stand.
pub fn run_builtin(app_state: &AppState, builtin: Builtin, args: &[Expr]) -> (r: Result<
    Effect,
    JreplErr,
>)
    ensures
        evaluated(r, apply_builtin(app_state@, builtin, expr_views(args@))),
    decreases expr_views(args@), args@.len() + 2,
{
    match builtin {
        Builtin::Help => Ok(run_help(app_state)),
        Builtin::Exit => Ok(run_exit(app_state)),
        Builtin::Add => run_fold(app_state, Operator::Add, Number::zero(), args),
        Builtin::Multiply => run_fold(app_state, Operator::Multiply, Number::one(), args),
        Builtin::Subtract => run_subtract(app_state, args),
        Builtin::Divide => run_divide(app_state, args),
        Builtin::Define => run_define(app_state, args),
        Builtin::If => run_if(app_state, args),
    }
}

/// `help`: the table of the registered commands, as a string.
fn run_help(app_state: &AppState) -> (r: Effect)
    ensures
        r@ == value_effect(ExprView::String(help_text(app_state@.commands))),
{
    let text = help_message(app_state.get_commands());
    Effect::from_eval_value(Expr::String(text))
}

/// `exit`: no value, and a state in which the exit flag is set.
fn run_exit(app_state: &AppState) -> (r: Effect)
    ensures
        r@ == (EffectView {
            value: None,
            next_state: Some(exiting(app_state@)),
            feedback: None,
            err: None,
        }),
{
    let action = |b: StateBuilder| -> (r: StateBuilder)
        ensures
            r@ == exiting(b@),
        {
            let mut b = b;
            b.exit = true;
            b
        };
    let next_state = app_state.apply_action(action);
    Effect { eval_value: None, next_state: Some(next_state), user_feedback: None, err: None }
}

/// `+` and `*`: the arguments folded into the start value.
fn run_fold(app_state: &AppState, op: Operator, init: Number, args: &[Expr]) -> (r: Result<
    Effect,
    JreplErr,
>)
    ensures
        evaluated(
            r,
            number_effect(
                fold_spec(app_state@, op, init@, expr_views(args@), 0, args@.len() as nat),
            ),
        ),
    decreases expr_views(args@), args@.len() + 1,
{
    match fold_numbers(app_state, op, init, args, 0) {
        Ok(n) => Ok(Effect::from_eval_value(Expr::Number(n))),
        Err(e) => Err(e),
    }
}

/// `-`: the negation of a single argument, else the first argument less the
/// others.
fn run_subtract(app_state: &AppState, args: &[Expr]) -> (r: Result<Effect, JreplErr>)
    ensures
        evaluated(r, apply_builtin(app_state@, Builtin::Subtract, expr_views(args@))),
    decreases expr_views(args@), args@.len() + 1,
{
    let ghost views = expr_views(args@);
    if args.len() == 0 {
        return Err(plain_error(ErrKind::UndefinedSymbol, "'-' expects at least one argument"));
    }
    assert(views[0] == args@[0]@);
    let first = match number_of(app_state, &args[0]) {
        Ok(n) => n,
        Err(e) => {
            return Err(e);
        },
    };
    if args.len() == 1 {
        return Ok(Effect::from_eval_value(Expr::Number(first.negate())));
    }
    match fold_numbers(app_state, Operator::Subtract, first, args, 1) {
        Ok(n) => Ok(Effect::from_eval_value(Expr::Number(n))),
        Err(e) => Err(e),
    }
}

/// `/`: the reciprocal of a single argument, else the first argument divided
/// by the others.
fn run_divide(app_state: &AppState, args: &[Expr]) -> (r: Result<Effect, JreplErr>)
    ensures
        evaluated(r, apply_builtin(app_state@, Builtin::Divide, expr_views(args@))),
    decreases expr_views(args@), args@.len() + 1,
{
    let ghost views = expr_views(args@);
    if args.len() == 0 {
        return Err(
            plain_error(ErrKind::OperatorFormatErr, "'/' expects at least one argument"),
        );
    }
    assert(views[0] == args@[0]@);
    let first = match number_of(app_state, &args[0]) {
        Ok(n) => n,
        Err(e) => {
            return Err(e);
        },
    };
    let quotient = if args.len() == 1 {
        arith(Operator::Divide, Number::one(), first)
    } else {
        fold_numbers(app_state, Operator::Divide, first, args, 1)
    };
    match quotient {
        Ok(n) => Ok(Effect::from_eval_value(Expr::Number(n))),
        Err(e) => Err(e),
    }
}

/// `defn`: binds the symbol that is its first argument to the value of its
/// second one, which has to be a terminal.
fn run_define(app_state: &AppState, args: &[Expr]) -> (r: Result<Effect, JreplErr>)
    ensures
        evaluated(r, apply_builtin(app_state@, Builtin::Define, expr_views(args@))),
    decreases expr_views(args@), args@.len() + 1,
{
    let ghost views = expr_views(args@);
    if args.len() != 2 {
        return Err(
            plain_error(
                ErrKind::OperatorFormatErr,
                "'defn' expects exactly 2 arguments: <name> <expr>",
            ),
        );
    }
    assert(views[0] == args@[0]@);
    assert(views[1] == args@[1]@);
    let name = match &args[0] {
        Expr::Symbol(s) => s.clone(),
        got => {
            return Err(
                value_error(
                    ErrKind::OperatorFormatErr,
                    "'defn' first argument must be a symbol name, got ",
                    got,
                ),
            );
        },
    };
    let value = match value_of(app_state, &args[1]) {
        Ok(v) => v,
        Err(e) => {
            return Err(e);
        },
    };
    if !value.is_terminal() {
        return Err(
            value_error(
                ErrKind::UndefinedSymbol,
                "'defn' value must evaluate to a terminal (String|Number|Bool|None), got ",
                &value,
            ),
        );
    }
    let bound = value.duplicate();
    let ghost n = name@;
    let ghost v = value@;
    let action = |b: StateBuilder| -> (r: StateBuilder)
        ensures
            r@ == defining(b@, n, v),
        {
            let mut b = b;
            b.symbol_table.insert(name, Referent::Expr(bound));
            b
        };
    let next_state = app_state.apply_action(action);
    Ok(
        Effect {
            eval_value: Some(value),
            next_state: Some(next_state),
            user_feedback: None,
            err: None,
        },
    )
}

/// `if`, with two or three arguments: the second argument where the first
/// one is true, else the third one, if there is one. The other branch is not
/// evaluated.
fn run_if(app_state: &AppState, args: &[Expr]) -> (r: Result<Effect, JreplErr>)
    ensures
        evaluated(r, apply_builtin(app_state@, Builtin::If, expr_views(args@))),
    decreases expr_views(args@), args@.len() + 1,
{
    let ghost views = expr_views(args@);
    if args.len() < 2 || args.len() > 3 {
        return Err(
            plain_error(
                ErrKind::UndefinedSymbol,
                "'if' expects 2 or 3 arguments: condition, then-branch and else-branch",
            ),
        );
    }
    assert(views[0] == args@[0]@);
    assert(views[1] == args@[1]@);
    let condition = match value_of(app_state, &args[0]) {
        Ok(Expr::Bool(b)) => b,
        Ok(got) => {
            return Err(
                value_error(
                    ErrKind::UndefinedSymbol,
                    "Type error in 'if': expected Bool for condition, got ",
                    &got,
                ),
            );
        },
        Err(e) => {
            return Err(e);
        },
    };
    if condition {
        eval(app_state, &args[1])
    } else if args.len() == 3 {
        assert(views[2] == args@[2]@);
        eval(app_state, &args[2])
    } else {
        Ok(Effect::from_eval_value(Expr::Nil))
    }
}

/// What a literal evaluates to: the empty value for the empty list, the item
/// of a list of one item, and otherwise the literal itself.
pub open spec fn literal_value(e: ExprView) -> ExprView {
    match e {
        ExprView::List(items) => if items.len() == 0 {
            ExprView::Nil
        } else if items.len() == 1 {
            items[0]
        } else {
            e
        },
        _ => e,
    }
}

/// Evaluating an expression in which no symbol occurs gives the same value in
/// every state, however often it is done, and never a new state, a message or
/// an error.
pub proof fn lemma_literal_evaluation(state: StateView, other: StateView, e: ExprView)
    requires
        e.is_literal(),
    ensures
        eval_spec(state, e) == Ok::<EffectView, EvalFault>(value_effect(literal_value(e))),
        eval_spec(other, e) == eval_spec(state, e),
        value_of_spec(state, e) == Ok::<ExprView, EvalFault>(e),
{
    match e {
        ExprView::List(items) => {
            if items.len() == 1 {
                assert(items[0].is_literal());
                assert(head_command(state, items[0]) is None);
                assert(head_command(other, items[0]) is None);
            }
        },
        _ => {},
    }
}

/// A symbol that is not bound does not resolve: looking it up, evaluating it
/// and taking its value are errors of the kind `UndefinedSymbol`.
pub proof fn lemma_undefined_symbol(state: StateView, name: Seq<char>)
    requires
        !state.symbols.dom().contains(name),
    ensures
        resolve_symbol(state, name) == Err::<ExprView, EvalFault>(EvalFault::Undefined { name }),
        eval_spec(state, ExprView::Symbol(name)) == Err::<EffectView, EvalFault>(
            EvalFault::Undefined { name },
        ),
        value_of_spec(state, ExprView::Symbol(name)) == Err::<ExprView, EvalFault>(
            EvalFault::Undefined { name },
        ),
        eval_error(EvalFault::Undefined { name }).kind == ErrKind::UndefinedSymbol,
{
}

/// `if` evaluates the branch that its condition selects and no other: where
/// the condition is true the result is that of the second argument, whatever
/// the third one is, and where it is false the result is that of the third
/// argument, whatever the second one is.
pub proof fn lemma_if_is_lazy(
    state: StateView,
    condition: ExprView,
    chosen: ExprView,
    ignored: ExprView,
)
    ensures
        value_of_spec(state, condition) == Ok::<ExprView, EvalFault>(ExprView::Bool(true))
            ==> apply_builtin(state, Builtin::If, seq![condition, chosen, ignored]) == eval_spec(
            state,
            chosen,
        ) && apply_builtin(state, Builtin::If, seq![condition, chosen]) == eval_spec(state, chosen),
        value_of_spec(state, condition) == Ok::<ExprView, EvalFault>(ExprView::Bool(false))
            ==> apply_builtin(state, Builtin::If, seq![condition, ignored, chosen]) == eval_spec(
            state,
            chosen,
        ) && apply_builtin(state, Builtin::If, seq![condition, ignored]) == Ok::<
            EffectView,
            EvalFault,
        >(value_effect(ExprView::Nil)),
{
}

/// After `defn` has bound a name to a terminal value, the name evaluates to
/// that value. A second `defn` of the name leaves no trace of the first.
pub proof fn lemma_define_then_resolve(
    state: StateView,
    name: Seq<char>,
    first: ExprView,
    second: ExprView,
)
    requires
        second.is_terminal(),
    ensures
        eval_spec(defining(state, name, second), ExprView::Symbol(name)) == Ok::<
            EffectView,
            EvalFault,
        >(value_effect(second)),
        defining(defining(state, name, first), name, second) == defining(state, name, second),
        value_of_spec(state, second) == Ok::<ExprView, EvalFault>(second),
        apply_builtin(state, Builtin::Define, seq![ExprView::Symbol(name), second]) == Ok::<
            EffectView,
            EvalFault,
        >(
            EffectView {
                value: Some(second),
                next_state: Some(defining(state, name, second)),
                feedback: None,
                err: None,
            },
        ),
{
    assert(defining(defining(state, name, first), name, second).symbols =~= defining(
        state,
        name,
        second,
    ).symbols);
}

} // verus!
