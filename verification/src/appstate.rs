//! The state that expressions are evaluated against: the symbol table, the
//! registered commands and the exit flag. A state is never changed in place
//! during evaluation: a new one is derived from it through a builder.
use crate::command::{share, Command, CommandView};
use crate::errors::{ErrKind, JreplErr};
use crate::faults::{eval_error, named_error, plain_error, EvalFault};
use crate::symbols::{Referent, ReferentView, SymbolTable};
use crate::text::views;
use crate::types::{Expr, ExprView};
use std::rc::Rc;
use vstd::prelude::*;

verus! {

/// The editor's part of the state: what the prompt shows. Evaluation does not
/// read it.
#[derive(Debug, PartialEq)]
pub struct Editor {
    pub prompt_symbol: String,
    pub prompt_text: String,
    pub cursor_pos: usize,
}

/// The editor's part of the state, as a value.
pub struct EditorView {
    pub prompt_symbol: Seq<char>,
    pub prompt_text: Seq<char>,
    pub cursor_pos: usize,
}

impl View for Editor {
    type V = EditorView;

    open spec fn view(&self) -> EditorView {
        EditorView {
            prompt_symbol: self.prompt_symbol@,
            prompt_text: self.prompt_text@,
            cursor_pos: self.cursor_pos,
        }
    }
}

impl Editor {
    /// The editor at the start: the prompt `>`, no text, the cursor behind
    /// the prompt.
    pub fn new() -> (e: Editor)
        ensures
            e@ == (EditorView { prompt_symbol: ">"@, prompt_text: ""@, cursor_pos: 1 }),
    {
        Editor {
            prompt_symbol: String::from_str(">"),
            prompt_text: String::from_str(""),
            cursor_pos: 1,
        }
    }
}

impl Clone for Editor {
    fn clone(&self) -> (e: Editor)
        ensures
            e@ == self@,
    {
        Editor {
            prompt_symbol: self.prompt_symbol.clone(),
            prompt_text: self.prompt_text.clone(),
            cursor_pos: self.cursor_pos,
        }
    }
}

/// A state as a value.
pub struct StateView {
    pub editor: EditorView,
    pub exit: bool,
    pub commands: Seq<CommandView>,
    pub symbols: Map<Seq<char>, ReferentView>,
}

/// The state at the start: nothing registered, nothing bound, no exit asked
/// for.
pub open spec fn initial_state() -> StateView {
    StateView {
        editor: EditorView { prompt_symbol: ">"@, prompt_text: ""@, cursor_pos: 1 },
        exit: false,
        commands: Seq::empty(),
        symbols: Map::empty(),
    }
}

/// The symbols after the first `n` of the commands were registered, each
/// under its symbol: of two commands with one symbol the later one stays.
pub open spec fn registered(
    symbols: Map<Seq<char>, ReferentView>,
    commands: Seq<CommandView>,
    n: nat,
) -> Map<Seq<char>, ReferentView>
    decreases n,
{
    if n == 0 || n > commands.len() {
        symbols
    } else {
        registered(symbols, commands, (n - 1) as nat).insert(
            commands[n - 1].symbol,
            ReferentView::Command(commands[n - 1]),
        )
    }
}

/// Of the commands that are registered under one symbol the last one is
/// bound, and a symbol that none of them has stays bound as it was.
pub proof fn lemma_registered(
    symbols: Map<Seq<char>, ReferentView>,
    commands: Seq<CommandView>,
    n: nat,
    symbol: Seq<char>,
)
    requires
        n <= commands.len(),
    ensures
        (forall|i: int| 0 <= i < n ==> (#[trigger] commands[i]).symbol != symbol) ==> (registered(
            symbols,
            commands,
            n,
        ).dom().contains(symbol) <==> symbols.dom().contains(symbol)) && (symbols.dom().contains(
            symbol,
        ) ==> registered(symbols, commands, n)[symbol] == symbols[symbol]),
        forall|last: int|
            0 <= last < n && (#[trigger] commands[last]).symbol == symbol && (forall|i: int|
                last < i < n ==> (#[trigger] commands[i]).symbol != symbol) ==> registered(
                symbols,
                commands,
                n,
            ).dom().contains(symbol) && registered(symbols, commands, n)[symbol]
                == ReferentView::Command(commands[last]),
    decreases n,
{
    if n > 0 {
        lemma_registered(symbols, commands, (n - 1) as nat, symbol);
    }
}

/// The command that a name is bound to, if it is bound to one.
pub open spec fn command_of(state: StateView, name: Seq<char>) -> Option<CommandView> {
    if state.symbols.dom().contains(name) {
        match state.symbols[name] {
            ReferentView::Command(c) => Some(c),
            ReferentView::Expr(_) => None,
        }
    } else {
        None
    }
}

/// The command that a name is bound to. It is a fault where no name is
/// bound at all, where this name is not bound, and where it is bound to a
/// value.
pub open spec fn find_command(state: StateView, name: Seq<char>) -> Result<CommandView, EvalFault> {
    if state.symbols == Map::<Seq<char>, ReferentView>::empty() {
        Err(EvalFault::EmptyTable)
    } else if state.symbols.dom().contains(name) {
        match state.symbols[name] {
            ReferentView::Command(c) => Ok(c),
            ReferentView::Expr(_) => Err(EvalFault::NotACommand { name }),
        }
    } else {
        Err(EvalFault::NoCommand { name })
    }
}

/// The terminal value at the end of the chain of aliases that starts at
/// `name`, following at most `fuel` aliases. It is a fault where a name is
/// not bound, where it is bound to a command or to a list, and where the
/// chain is longer than `fuel`.
pub open spec fn resolve(
    symbols: Map<Seq<char>, ReferentView>,
    name: Seq<char>,
    fuel: nat,
) -> Result<ExprView, EvalFault>
    decreases fuel,
{
    if !symbols.dom().contains(name) {
        Err(EvalFault::Undefined { name })
    } else {
        match symbols[name] {
            ReferentView::Command(_) => Err(EvalFault::NotAValue { name }),
            ReferentView::Expr(e) => if e.is_terminal() {
                Ok(e)
            } else {
                match e {
                    ExprView::Symbol(next) => if fuel == 0 {
                        Err(EvalFault::Circular { name })
                    } else {
                        resolve(symbols, next, (fuel - 1) as nat)
                    },
                    _ => Err(EvalFault::NotATerminal { name }),
                }
            },
        }
    }
}

/// The terminal value that a name stands for, following as many aliases as
/// names are bound.
pub open spec fn resolve_symbol(state: StateView, name: Seq<char>) -> Result<ExprView, EvalFault> {
    resolve(state.symbols, name, state.symbols.dom().len())
}

/// Whether a lookup was cut off because it ran out of fuel.
pub open spec fn cut_off(r: Result<ExprView, EvalFault>) -> bool {
    r matches Err(EvalFault::Circular { .. })
}

/// A lookup that is not cut off gives the same result with more fuel.
pub proof fn lemma_more_fuel(
    symbols: Map<Seq<char>, ReferentView>,
    name: Seq<char>,
    fuel: nat,
    more: nat,
)
    requires
        fuel <= more,
        !cut_off(resolve(symbols, name, fuel)),
    ensures
        resolve(symbols, name, more) == resolve(symbols, name, fuel),
    decreases fuel,
{
    if symbols.dom().contains(name) {
        match symbols[name] {
            ReferentView::Expr(ExprView::Symbol(next)) => {
                lemma_more_fuel(symbols, next, (fuel - 1) as nat, (more - 1) as nat);
            },
            _ => {},
        }
    }
}

/// The least fuel with which a lookup is not cut off, given some fuel with
/// which it is not.
proof fn lemma_least_fuel(
    symbols: Map<Seq<char>, ReferentView>,
    name: Seq<char>,
    fuel: nat,
) -> (least: nat)
    requires
        !cut_off(resolve(symbols, name, fuel)),
    ensures
        least <= fuel,
        !cut_off(resolve(symbols, name, least)),
        least > 0 ==> cut_off(resolve(symbols, name, (least - 1) as nat)),
    decreases fuel,
{
    if fuel > 0 && !cut_off(resolve(symbols, name, (fuel - 1) as nat)) {
        lemma_least_fuel(symbols, name, (fuel - 1) as nat)
    } else {
        fuel
    }
}

/// The fuel that a lookup needs, together with the names that need more, is
/// no more than the number of bound names: each alias on the way is a bound
/// name that needs more fuel than the next one.
proof fn lemma_fuel_bound(
    symbols: Map<Seq<char>, ReferentView>,
    name: Seq<char>,
    fuel: nat,
    seen: Set<Seq<char>>,
)
    requires
        symbols.dom().finite(),
        seen.finite(),
        seen.subset_of(symbols.dom()),
        forall|x: Seq<char>| seen.contains(x) ==> cut_off(#[trigger] resolve(symbols, x, fuel)),
        !cut_off(resolve(symbols, name, fuel)),
        fuel > 0 ==> cut_off(resolve(symbols, name, (fuel - 1) as nat)),
    ensures
        fuel + seen.len() <= symbols.dom().len(),
    decreases fuel,
{
    vstd::set_lib::lemma_len_subset(seen, symbols.dom());
    if fuel > 0 {
        assert(symbols.dom().contains(name));
        match symbols[name] {
            ReferentView::Expr(ExprView::Symbol(next)) => {
                let wider = seen.insert(name);
                assert(!seen.contains(name));
                assert forall|x: Seq<char>| wider.contains(x) implies cut_off(
                    #[trigger] resolve(symbols, x, (fuel - 1) as nat),
                ) by {
                    if x != name {
                        assert(cut_off(resolve(symbols, x, fuel)));
                        if !cut_off(resolve(symbols, x, (fuel - 1) as nat)) {
                            lemma_more_fuel(symbols, x, (fuel - 1) as nat, fuel);
                        }
                    }
                }
                if fuel > 1 {
                    assert(resolve(symbols, name, (fuel - 1) as nat) == resolve(
                        symbols,
                        next,
                        (fuel - 2) as nat,
                    ));
                }
                lemma_fuel_bound(symbols, next, (fuel - 1) as nat, wider);
            },
            _ => {
                assert(!cut_off(resolve(symbols, name, 0)));
                lemma_more_fuel(symbols, name, 0, (fuel - 1) as nat);
            },
        }
    }
}

/// The limit on the depth of a lookup cuts off only chains of aliases that
/// run in a circle: what resolves with any amount of fuel resolves in the
/// same way with as much fuel as names are bound.
pub proof fn lemma_depth_limit(state: StateView, name: Seq<char>, fuel: nat)
    requires
        state.symbols.dom().finite(),
        !cut_off(resolve(state.symbols, name, fuel)),
    ensures
        resolve_symbol(state, name) == resolve(state.symbols, name, fuel),
{
    let least = lemma_least_fuel(state.symbols, name, fuel);
    lemma_fuel_bound(state.symbols, name, least, Set::empty());
    lemma_more_fuel(state.symbols, name, least, fuel);
    lemma_more_fuel(state.symbols, name, least, state.symbols.dom().len());
}

/// An immutable snapshot of the interpreter's state.
pub struct State {
    editor: Editor,
    exit: bool,
    commands: Vec<Rc<Command>>,
    symbol_table: SymbolTable,
}

impl View for State {
    type V = StateView;

    closed spec fn view(&self) -> StateView {
        StateView {
            editor: self.editor@,
            exit: self.exit,
            commands: views(self.commands@),
            symbols: self.symbol_table@,
        }
    }
}

/// The staging copy of a state: its fields are changed freely, and the
/// result becomes a new state.
pub struct StateBuilder {
    pub editor: Editor,
    pub exit: bool,
    pub commands: Vec<Rc<Command>>,
    pub symbol_table: SymbolTable,
}

impl View for StateBuilder {
    type V = StateView;

    open spec fn view(&self) -> StateView {
        StateView {
            editor: self.editor@,
            exit: self.exit,
            commands: views(self.commands@),
            symbols: self.symbol_table@,
        }
    }
}

fn share_all(commands: &Vec<Rc<Command>>) -> (r: Vec<Rc<Command>>)
    ensures
        views(r@) == views(commands@),
{
    let mut r: Vec<Rc<Command>> = Vec::new();
    let mut i: usize = 0;
    while i < commands.len()
        invariant
            i <= commands.len(),
            r@.len() == i,
            forall|j: int| 0 <= j < i ==> r@[j] == commands@[j],
        decreases commands.len() - i,
    {
        r.push(share(&commands[i]));
        i += 1;
    }
    assert(views(r@) =~= views(commands@));
    r
}

impl State {
    /// The state at the start.
    pub fn new() -> (s: State)
        ensures
            s@ == initial_state(),
    {
        let s = State {
            editor: Editor::new(),
            exit: false,
            commands: Vec::new(),
            symbol_table: SymbolTable::new(),
        };
        assert(s@.commands =~= Seq::empty());
        s
    }

    /// A builder that holds a copy of every field.
    pub fn to_builder(&self) -> (b: StateBuilder)
        ensures
            b@ == self@,
    {
        StateBuilder {
            editor: self.editor.clone(),
            exit: self.exit,
            commands: share_all(&self.commands),
            symbol_table: self.symbol_table.clone(),
        }
    }

    /// Sets the exit flag.
    pub fn set_exit(&mut self)
        ensures
            final(self)@ == (StateView { exit: true, ..old(self)@ }),
    {
        self.exit = true;
    }

    /// The number of registered commands.
    pub fn commands_len(&self) -> (n: usize)
        ensures
            n == self@.commands.len(),
    {
        self.commands.len()
    }

    /// Whether the interpreter was asked to stop.
    pub fn get_exit(&self) -> (r: bool)
        ensures
            r == self@.exit,
    {
        self.exit
    }
}

impl Clone for State {
    fn clone(&self) -> (s: State)
        ensures
            s@ == self@,
    {
        self.to_builder().build()
    }
}

impl StateBuilder {
    /// The state that holds the builder's fields.
    pub fn build(self) -> (s: State)
        ensures
            s@ == self@,
    {
        State {
            editor: self.editor,
            exit: self.exit,
            commands: self.commands,
            symbol_table: self.symbol_table,
        }
    }
}

/// Whether the result is the value, or the error for the fault, that the
/// model gives.
pub open spec fn resolved(
    r: Result<Expr, JreplErr>,
    expected: Result<ExprView, EvalFault>,
) -> bool {
    match expected {
        Ok(v) => r matches Ok(x) && x@ == v,
        Err(f) => r matches Err(e) && e@ == eval_error(f),
    }
}

/// The current state of the interpreter.
pub struct AppState {
    state: State,
}

impl View for AppState {
    type V = StateView;

    closed spec fn view(&self) -> StateView {
        self.state@
    }
}

impl AppState {
    /// The interpreter at the start: nothing registered, nothing bound.
    pub fn new() -> (a: AppState)
        ensures
            a@ == initial_state(),
    {
        AppState { state: State::new() }
    }

    /// Makes the given state the current one.
    pub fn set_next_state(&mut self, state: State)
        ensures
            final(self)@ == state@,
    {
        self.state = state;
    }

    /// The terminal value that a symbol stands for, through any chain of
    /// aliases. A symbol that is not bound is an error, and so is one that
    /// leads to a command, to a list, or round in a circle.
    pub fn resolve_symbol_to_terminal(&self, symbol: &str) -> (r: Result<Expr, JreplErr>)
        ensures
            resolved(r, resolve_symbol(self@, symbol@)),
            !self@.symbols.dom().contains(symbol@) ==> (r matches Err(e) && e@.kind
                == ErrKind::UndefinedSymbol),
    {
        let table = &self.state.symbol_table;
        let mut fuel = table.len();
        let mut name = String::from_str(symbol);
        loop
            invariant
                table@ == self@.symbols,
                resolve_symbol(self@, symbol@) == resolve(self@.symbols, name@, fuel as nat),
                !self@.symbols.dom().contains(symbol@) ==> name@ == symbol@,
            decreases fuel,
        {
            match table.get(name.as_str()) {
                None => {
                    return Err(
                        named_error(
                            ErrKind::UndefinedSymbol,
                            "Undefined symbol: ",
                            name.as_str(),
                            ".",
                        ),
                    );
                },
                Some(Referent::Command(_)) => {
                    return Err(
                        named_error(
                            ErrKind::UndefinedSymbol,
                            "Expected '",
                            name.as_str(),
                            "' to resolve to a terminal, but it resolved to a command.",
                        ),
                    );
                },
                Some(Referent::Expr(expr)) => {
                    if expr.is_terminal() {
                        return Ok(expr.duplicate());
                    }
                    match expr {
                        Expr::Symbol(next) => {
                            if fuel == 0 {
                                return Err(
                                    named_error(
                                        ErrKind::UndefinedSymbol,
                                        "The aliases that lead to '",
                                        name.as_str(),
                                        "' run in a circle.",
                                    ),
                                );
                            }
                            fuel = fuel - 1;
                            name = next.clone();
                        },
                        _ => {
                            return Err(
                                named_error(
                                    ErrKind::UndefinedSymbol,
                                    "Expected '",
                                    name.as_str(),
                                    "' to resolve to a terminal, but it resolved to a list.",
                                ),
                            );
                        },
                    }
                },
            }
        }
    }

    /// The command that a symbol is bound to. It is an error where no symbol
    /// is bound at all, where this one is not bound, and where it is bound to
    /// a value.
    pub fn get_command_from_symbol(&self, symbol: &str) -> (r: Result<&Command, JreplErr>)
        ensures
            match find_command(self@, symbol@) {
                Ok(c) => r matches Ok(x) && x@ == c,
                Err(f) => r matches Err(e) && e@ == eval_error(f),
            },
    {
        if self.state.symbol_table.is_empty() {
            return Err(plain_error(ErrKind::UndefinedSymbol, "symbol table is empty"));
        }
        match self.state.symbol_table.get(symbol) {
            None => Err(
                named_error(
                    ErrKind::UndefinedSymbol,
                    "Undefined symbol: ",
                    symbol,
                    ". Expected a command.",
                ),
            ),
            Some(Referent::Command(c)) => Ok(c),
            Some(Referent::Expr(_)) => Err(
                named_error(
                    ErrKind::UndefinedSymbol,
                    "Found symbol '",
                    symbol,
                    "' but it resolves to a value, not to a command.",
                ),
            ),
        }
    }

    /// The registered commands, in the order of their registration.
    pub fn get_commands(&self) -> (r: &[Rc<Command>])
        ensures
            views(r@) == self@.commands,
    {
        self.state.commands.as_slice()
    }

    /// Replaces the registered commands and binds the symbol of each to it.
    /// Of two commands with one symbol, the later one is bound. What was
    /// bound before under other names stays.
    pub fn set_commands(&mut self, commands: Vec<Command>)
        ensures
            final(self)@ == (StateView {
                commands: views(commands@),
                symbols: registered(old(self)@.symbols, views(commands@), commands@.len()),
                ..old(self)@
            }),
    {
        let ghost all = views(commands@);
        let ghost before = self@.symbols;
        let mut shared: Vec<Rc<Command>> = Vec::new();
        let n = commands.len();
        let mut i: usize = 0;
        while i < n
            invariant
                i <= n,
                n == commands@.len(),
                all == views(commands@),
                shared@.len() == i,
                forall|j: int| 0 <= j < i ==> shared@[j]@ == all[j],
                self.state.symbol_table@ == registered(before, all, i as nat),
                self.state.editor == old(self).state.editor,
                self.state.exit == old(self).state.exit,
            decreases n - i,
        {
            let command = Rc::new(commands[i].duplicate());
            self.state.symbol_table.insert(
                commands[i].symbol.clone(),
                Referent::Command(share(&command)),
            );
            shared.push(command);
            i += 1;
        }
        assert(views(shared@) =~= all);
        self.state.commands = shared;
    }

    /// The state that `action` makes of a copy of the current one. The
    /// current state itself is not changed.
    pub fn apply_action<F: FnOnce(StateBuilder) -> StateBuilder>(&self, action: F) -> (s: State)
        requires
            forall|b: StateBuilder| b@ == self@ ==> action.requires((b,)),
        ensures
            exists|before: StateBuilder, after: StateBuilder|
                before@ == self@ && action.ensures((before,), after) && s@ == after@,
    {
        let builder = self.state.to_builder();
        let after = action(builder);
        after.build()
    }

    /// Whether the interpreter was asked to stop.
    pub fn should_exit(&self) -> (r: bool)
        ensures
            r == self@.exit,
    {
        self.state.exit
    }
}

} // verus!
