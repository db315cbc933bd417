//! The commands that the interpreter starts with.
use crate::command::{Builtin, Command, CommandView};
use crate::text::views;
use vstd::prelude::*;

verus! {

/// The built-in commands: each symbol with its description and operation.
pub open spec fn builtin_commands() -> Seq<CommandView> {
    seq![
        CommandView {
            symbol: "help"@,
            description: "help \t display avalible options. Usage: (help)"@,
            builtin: Builtin::Help,
        },
        CommandView {
            symbol: "exit"@,
            description: "exit \t exit the interpreter. Usage: (exit)"@,
            builtin: Builtin::Exit,
        },
        CommandView {
            symbol: "+"@,
            description: "+ \t Usage: (+ Number Number ...)"@,
            builtin: Builtin::Add,
        },
        CommandView {
            symbol: "-"@,
            description: "- \t Usage: (- Number Number ...)"@,
            builtin: Builtin::Subtract,
        },
        CommandView {
            symbol: "*"@,
            description: "* \t Usage: (* Number Number ...)"@,
            builtin: Builtin::Multiply,
        },
        CommandView {
            symbol: "/"@,
            description: "/ \t Usage: (/ Number Number ...)"@,
            builtin: Builtin::Divide,
        },
        CommandView {
            symbol: "defn"@,
            description: "defn \t Define or redefine a symbol. Usage: (defn <name> <expr>)"@,
            builtin: Builtin::Define,
        },
        CommandView {
            symbol: "if"@,
            description: "if\t Usage: (if <bool-expr> <then-expr> [<else-expr>])"@,
            builtin: Builtin::If,
        },
    ]
}

/// The built-in commands, ready to be registered.
pub fn get_commands() -> (r: Vec<Command>)
    ensures
        views(r@) == builtin_commands(),
{
    let mut r: Vec<Command> = Vec::new();
    r.push(
        Command::new("help", "help \t display avalible options. Usage: (help)", Builtin::Help),
    );
    r.push(Command::new("exit", "exit \t exit the interpreter. Usage: (exit)", Builtin::Exit));
    r.push(Command::new("+", "+ \t Usage: (+ Number Number ...)", Builtin::Add));
    r.push(Command::new("-", "- \t Usage: (- Number Number ...)", Builtin::Subtract));
    r.push(Command::new("*", "* \t Usage: (* Number Number ...)", Builtin::Multiply));
    r.push(Command::new("/", "/ \t Usage: (/ Number Number ...)", Builtin::Divide));
    r.push(
        Command::new(
            "defn",
            "defn \t Define or redefine a symbol. Usage: (defn <name> <expr>)",
            Builtin::Define,
        ),
    );
    r.push(
        Command::new(
            "if",
            "if\t Usage: (if <bool-expr> <then-expr> [<else-expr>])",
            Builtin::If,
        ),
    );
    assert(views(r@) =~= builtin_commands());
    r
}

} // verus!
