//! Commands: the built-in operations that a list can invoke by name.
use std::rc::Rc;
use vstd::prelude::*;

verus! {

/// The built-in operations.
#[derive(Clone, Copy, Debug, PartialEq, Eq, Structural)]
pub enum Builtin {
    /// Lists the registered commands.
    Help,
    /// Asks the interpreter to stop.
    Exit,
    /// The sum of the arguments.
    Add,
    /// The first argument less the others, or the negation of a single one.
    Subtract,
    /// The product of the arguments.
    Multiply,
    /// The first argument divided by the others, or the reciprocal of a
    /// single one.
    Divide,
    /// Binds a name to a value.
    Define,
    /// Chooses between two expressions.
    If,
}

/// A command: the symbol that invokes it, a description for the user, and the
/// operation that it performs.
#[derive(Debug, PartialEq)]
pub struct Command {
    pub symbol: String,
    pub description: String,
    pub builtin: Builtin,
}

/// A command as a value.
pub struct CommandView {
    pub symbol: Seq<char>,
    pub description: Seq<char>,
    pub builtin: Builtin,
}

impl View for Command {
    type V = CommandView;

    open spec fn view(&self) -> CommandView {
        CommandView {
            symbol: self.symbol@,
            description: self.description@,
            builtin: self.builtin,
        }
    }
}

impl Command {
    /// The command with the given symbol, description and operation.
    pub fn new(symbol: &str, description: &str, builtin: Builtin) -> (c: Command)
        ensures
            c@ == (CommandView { symbol: symbol@, description: description@, builtin }),
    {
        Command {
            symbol: String::from_str(symbol),
            description: String::from_str(description),
            builtin,
        }
    }

    /// A copy of the command.
    pub fn duplicate(&self) -> (c: Command)
        ensures
            c@ == self@,
    {
        Command {
            symbol: self.symbol.clone(),
            description: self.description.clone(),
            builtin: self.builtin,
        }
    }

    /// The description of the command.
    pub fn get_description(&self) -> (d: &str)
        ensures
            d@ == self@.description,
    {
        self.description.as_str()
    }
}

/// `Rc::clone`: one more pointer to the same command.
#[verifier::external_body]
pub(crate) fn share(command: &Rc<Command>) -> (r: Rc<Command>)
    ensures
        r == *command,
{
    Rc::clone(command)
}

} // verus!
