//! Why an evaluation fails, and the error that reports it.
use crate::errors::{ErrKind, ErrView, JreplErr};
use crate::render::rendering;
use crate::types::{Expr, ExprView};
use vstd::prelude::*;

verus! {

/// Why an evaluation fails.
pub enum EvalFault {
    /// The symbol is not bound.
    Undefined { name: Seq<char> },
    /// The symbol is bound to a command where a value is wanted.
    NotAValue { name: Seq<char> },
    /// The symbol is bound to a list.
    NotATerminal { name: Seq<char> },
    /// The aliases that lead to the symbol run in a circle.
    Circular { name: Seq<char> },
    /// A command is looked up while no symbol is bound.
    EmptyTable,
    /// The symbol at the head of a list is not bound.
    NoCommand { name: Seq<char> },
    /// The symbol at the head of a list is bound to a value.
    NotACommand { name: Seq<char> },
    /// The head of a list is no symbol.
    BadHead { head: ExprView },
    /// A list that is used as a value evaluates to none.
    NoValue,
    /// A value that should be a number is none.
    NotANumber { got: ExprView },
    /// A divisor is zero.
    DivisionByZero,
    /// `-` without arguments.
    MinusArity,
    /// `/` without arguments.
    DivideArity,
    /// `defn` with other than two arguments.
    DefnArity,
    /// The first argument of `defn` is no symbol.
    DefnName { got: ExprView },
    /// The value that `defn` should bind is no terminal.
    DefnValue { got: ExprView },
    /// `if` with fewer than two or more than three arguments.
    IfArity,
    /// The condition of `if` is no truth value.
    IfCondition { got: ExprView },
}

/// The error with the given kind whose message is the three parts in a row.
pub open spec fn error_of(
    kind: ErrKind,
    before: Seq<char>,
    middle: Seq<char>,
    after: Seq<char>,
) -> ErrView {
    ErrView { kind, message: before + middle + after }
}

/// The error that reports a fault: its kind, and a message that names the
/// symbol or shows the value at fault.
pub open spec fn eval_error(f: EvalFault) -> ErrView {
    match f {
        EvalFault::Undefined { name } => error_of(
            ErrKind::UndefinedSymbol,
            "Undefined symbol: "@,
            name,
            "."@,
        ),
        EvalFault::NotAValue { name } => error_of(
            ErrKind::UndefinedSymbol,
            "Expected '"@,
            name,
            "' to resolve to a terminal, but it resolved to a command."@,
        ),
        EvalFault::NotATerminal { name } => error_of(
            ErrKind::UndefinedSymbol,
            "Expected '"@,
            name,
            "' to resolve to a terminal, but it resolved to a list."@,
        ),
        EvalFault::Circular { name } => error_of(
            ErrKind::UndefinedSymbol,
            "The aliases that lead to '"@,
            name,
            "' run in a circle."@,
        ),
        EvalFault::EmptyTable => error_of(
            ErrKind::UndefinedSymbol,
            "symbol table is empty"@,
            Seq::empty(),
            Seq::empty(),
        ),
        EvalFault::NoCommand { name } => error_of(
            ErrKind::UndefinedSymbol,
            "Undefined symbol: "@,
            name,
            ". Expected a command."@,
        ),
        EvalFault::NotACommand { name } => error_of(
            ErrKind::UndefinedSymbol,
            "Found symbol '"@,
            name,
            "' but it resolves to a value, not to a command."@,
        ),
        EvalFault::BadHead { head } => error_of(
            ErrKind::OperatorFormatErr,
            "Invalid list: expected a command symbol at position 0, found "@,
            rendering(head),
            ". Multi-element lists must start with a command (e.g., (+ 1 2)). To evaluate a literal, put it alone in the list or use a list of literals: (42), (true), (\"a\" \"b\")."@,
        ),
        EvalFault::NoValue => error_of(
            ErrKind::OperatorFormatErr,
            "Subexpression returned no value"@,
            Seq::empty(),
            Seq::empty(),
        ),
        EvalFault::NotANumber { got } => error_of(
            ErrKind::UndefinedSymbol,
            "Type error: expected Number, got "@,
            rendering(got),
            Seq::empty(),
        ),
        EvalFault::DivisionByZero => error_of(
            ErrKind::ArithmeticErr,
            "Division by zero"@,
            Seq::empty(),
            Seq::empty(),
        ),
        EvalFault::MinusArity => error_of(
            ErrKind::UndefinedSymbol,
            "'-' expects at least one argument"@,
            Seq::empty(),
            Seq::empty(),
        ),
        EvalFault::DivideArity => error_of(
            ErrKind::OperatorFormatErr,
            "'/' expects at least one argument"@,
            Seq::empty(),
            Seq::empty(),
        ),
        EvalFault::DefnArity => error_of(
            ErrKind::OperatorFormatErr,
            "'defn' expects exactly 2 arguments: <name> <expr>"@,
            Seq::empty(),
            Seq::empty(),
        ),
        EvalFault::DefnName { got } => error_of(
            ErrKind::OperatorFormatErr,
            "'defn' first argument must be a symbol name, got "@,
            rendering(got),
            Seq::empty(),
        ),
        EvalFault::DefnValue { got } => error_of(
            ErrKind::UndefinedSymbol,
            "'defn' value must evaluate to a terminal (String|Number|Bool|None), got "@,
            rendering(got),
            Seq::empty(),
        ),
        EvalFault::IfArity => error_of(
            ErrKind::UndefinedSymbol,
            "'if' expects 2 or 3 arguments: condition, then-branch and else-branch"@,
            Seq::empty(),
            Seq::empty(),
        ),
        EvalFault::IfCondition { got } => error_of(
            ErrKind::UndefinedSymbol,
            "Type error in 'if': expected Bool for condition, got "@,
            rendering(got),
            Seq::empty(),
        ),
    }
}

/// The error whose message is the three texts in a row.
pub fn named_error(kind: ErrKind, before: &str, name: &str, after: &str) -> (e: JreplErr)
    ensures
        e@ == error_of(kind, before@, name@, after@),
{
    let mut m = String::from_str(before);
    m.append(name);
    m.append(after);
    JreplErr::new(kind, m)
}

/// The error whose message is the text.
pub fn plain_error(kind: ErrKind, message: &str) -> (e: JreplErr)
    ensures
        e@ == error_of(kind, message@, Seq::empty(), Seq::empty()),
{
    let m = String::from_str(message);
    assert(m@ =~= message@ + Seq::<char>::empty() + Seq::<char>::empty());
    JreplErr::new(kind, m)
}

/// The error whose message shows the value between the two texts.
pub fn value_error_between(kind: ErrKind, before: &str, value: &Expr, after: &str) -> (e: JreplErr)
    ensures
        e@ == error_of(kind, before@, rendering(value@), after@),
{
    let shown = value.render();
    named_error(kind, before, shown.as_str(), after)
}

/// The error whose message shows the value after the text.
pub fn value_error(kind: ErrKind, before: &str, value: &Expr) -> (e: JreplErr)
    ensures
        e@ == error_of(kind, before@, rendering(value@), Seq::empty()),
{
    let mut m = String::from_str(before);
    let shown = value.render();
    m.append(shown.as_str());
    assert(m@ =~= before@ + rendering(value@) + Seq::<char>::empty());
    JreplErr::new(kind, m)
}

} // verus!
