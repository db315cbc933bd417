//! A set of commands to look symbols up in.
use crate::command::{Command, CommandView};
use crate::text::views;
use vstd::prelude::*;

verus! {

/// The commands that symbols are looked up in.
pub struct Context {
    pub commands: Vec<Command>,
}

/// The place of the first command with the given symbol, or the number of
/// commands where there is none.
pub open spec fn first_with(commands: Seq<CommandView>, symbol: Seq<char>, from: nat) -> nat
    decreases commands.len() - from,
{
    if from >= commands.len() || commands[from as int].symbol == symbol {
        from
    } else {
        first_with(commands, symbol, from + 1)
    }
}

impl View for Context {
    type V = Seq<CommandView>;

    open spec fn view(&self) -> Seq<CommandView> {
        views(self.commands@)
    }
}

impl Context {
    /// The context without commands.
    pub fn new() -> (c: Context)
        ensures
            c@ == Seq::<CommandView>::empty(),
    {
        let c = Context { commands: Vec::new() };
        assert(c@ =~= Seq::<CommandView>::empty());
        c
    }

    /// The context of the given commands.
    pub fn from(commands: Vec<Command>) -> (c: Context)
        ensures
            c@ == views(commands@),
    {
        Context { commands }
    }

    /// Replaces the commands, and hands the context back.
    pub fn set_commands(&mut self, commands: Vec<Command>) -> (r: &mut Context)
        ensures
            r@ == views(commands@),
            *final(self) == *final(r),
    {
        self.commands = commands;
        self
    }

    /// Whether the text may name a command. No text is refused: which
    /// commands there are is settled when one is looked up.
    pub fn is_command(&self, command: &str) -> (r: bool)
        ensures
            r,
    {
        true
    }

    /// The first command of the context with the symbol.
    pub fn get_command(&self, symbol: &str) -> (r: Option<&Command>)
        ensures
            match r {
                Some(c) => first_with(self@, symbol@, 0) < self@.len() && c@ == self@[first_with(
                    self@,
                    symbol@,
                    0,
                ) as int],
                None => first_with(self@, symbol@, 0) >= self@.len(),
            },
    {
        let key = String::from_str(symbol);
        let mut i: usize = 0;
        while i < self.commands.len()
            invariant
                i <= self.commands.len(),
                key@ == symbol@,
                first_with(self@, symbol@, 0) == first_with(self@, symbol@, i as nat),
            decreases self.commands.len() - i,
        {
            assert(self@[i as int] == self.commands@[i as int]@);
            if self.commands[i].symbol == key {
                return Some(&self.commands[i]);
            }
            i += 1;
        }
        None
    }

    /// Whether a command of the context has the symbol.
    pub fn is_symbol(&self, symbol: &str) -> (r: bool)
        ensures
            r == (first_with(self@, symbol@, 0) < self@.len()),
    {
        self.get_command(symbol).is_some()
    }
}

} // verus!
