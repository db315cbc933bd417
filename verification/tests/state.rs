use jrepl::appstate::{AppState, Editor, State, StateBuilder};
use jrepl::symbols::{Referent, SymbolTable};
use jrepl::command::{Builtin, Command};
use jrepl::commands::get_commands;
use jrepl::context::Context;
use jrepl::errors::{ErrKind, JreplErr};
use jrepl::number::Number;
use jrepl::types::{Effect, Expr};
use jrepl::validation::{verify_syntax, SyntaxError};

#[test]
fn editor_starts_with_a_prompt() {
    let editor = Editor::new();
    assert_eq!(editor.prompt_symbol, ">");
    assert_eq!(editor.prompt_text, "");
    assert_eq!(editor.cursor_pos, 1);
    assert_eq!(editor.clone(), editor);
}

#[test]
fn a_new_state_is_empty() {
    let state = State::new();
    assert!(!state.get_exit());
    assert_eq!(state.commands_len(), 0);
    let builder = state.to_builder();
    assert!(builder.symbol_table.is_empty());
    assert_eq!(builder.symbol_table.len(), 0);
    assert!(!builder.exit);
    assert_eq!(builder.editor, Editor::new());
    let app_state = AppState::new();
    assert!(!app_state.should_exit());
    assert!(app_state.get_commands().is_empty());
}

#[test]
fn builder_round_trip_keeps_the_state() {
    let mut app_state = AppState::new();
    app_state.set_commands(get_commands());
    let same = app_state.apply_action(|b: StateBuilder| b);
    assert_eq!(same.commands_len(), 8);
    assert!(!same.get_exit());
    let builder = same.to_builder();
    assert_eq!(builder.symbol_table.len(), 8);
    assert_eq!(builder.commands.len(), 8);
    let mut changed = builder.build();
    changed.set_exit();
    assert!(changed.get_exit());
    assert!(!same.get_exit());
}

#[test]
fn a_copy_of_a_state_is_its_own() {
    let mut app_state = AppState::new();
    app_state.set_commands(get_commands());
    let state = app_state.apply_action(|b: StateBuilder| b);
    let mut copy = state.clone();
    copy.set_exit();
    assert!(copy.get_exit() && !state.get_exit());
    assert_eq!(copy.commands_len(), state.commands_len());
}

#[test]
fn symbol_table_binds_and_rebinds() {
    let mut table = SymbolTable::new();
    assert!(table.get("a").is_none());
    table.insert("a".into(), Referent::Expr(Expr::Bool(true)));
    table.insert("b".into(), Referent::Expr(Expr::Nil));
    table.insert("a".into(), Referent::Expr(Expr::Bool(false)));
    assert_eq!(table.len(), 2);
    assert!(!table.is_empty());
    match table.get("a") {
        Some(Referent::Expr(e)) => assert_eq!(*e, Expr::Bool(false)),
        _ => panic!("a is bound to a value"),
    }
    let copy = table.clone();
    table.insert("b".into(), Referent::Expr(Expr::Bool(true)));
    match copy.get("b") {
        Some(Referent::Expr(e)) => assert_eq!(*e, Expr::Nil),
        _ => panic!("b is bound to a value"),
    }
    assert!(copy.get("c").is_none());
    assert!(copy.get("").is_none());
}

#[test]
fn commands_are_found_by_symbol() {
    let mut app_state = AppState::new();
    assert_eq!(
        app_state.get_command_from_symbol("help").err().map(|e| e.kind()),
        Some(ErrKind::UndefinedSymbol)
    );
    app_state.set_commands(get_commands());
    let symbols: Vec<String> = app_state.get_commands().iter().map(|c| c.symbol.clone()).collect();
    assert_eq!(symbols, vec!["help", "exit", "+", "-", "*", "/", "defn", "if"]);
    for command in get_commands() {
        let found = app_state.get_command_from_symbol(&command.symbol).unwrap();
        assert_eq!(*found, command);
        assert_eq!(found.get_description(), command.description);
    }
    assert_eq!(
        app_state.get_command_from_symbol("nope").err(),
        Some(JreplErr::UndefinedSymbol("Undefined symbol: nope. Expected a command.".into()))
    );
}

#[test]
fn builtin_descriptions() {
    let commands = get_commands();
    assert_eq!(commands.len(), 8);
    assert_eq!(commands[0], Command::new("help", "help \t display avalible options. Usage: (help)", Builtin::Help));
    assert_eq!(commands[6].builtin, Builtin::Define);
    assert_eq!(commands[7].get_description(), "if\t Usage: (if <bool-expr> <then-expr> [<else-expr>])");
    assert_eq!(commands[2].duplicate(), commands[2]);
}

#[test]
fn effects() {
    let value = Effect::from_eval_value(Expr::Bool(true));
    assert_eq!(value.eval_value, Some(Expr::Bool(true)));
    assert!(value.next_state.is_none() && value.user_feedback.is_none() && value.err.is_none());
    let failed = Effect::from_err(JreplErr::EvalErr("no".into()));
    assert_eq!(failed.err, Some(JreplErr::EvalErr("no".into())));
    assert!(failed.eval_value.is_none() && failed.next_state.is_none() && failed.user_feedback.is_none());
}

#[test]
fn errors_have_kind_and_message() {
    let kinds = [
        ErrKind::UnbalancedDelimiter,
        ErrKind::LexificationErr,
        ErrKind::LexErr,
        ErrKind::VerifySyntaxErr,
        ErrKind::InvalidSymbol,
        ErrKind::InvalidSyntax,
        ErrKind::ParserErr,
        ErrKind::EvalErr,
        ErrKind::UndefinedSymbol,
        ErrKind::ArithmeticErr,
        ErrKind::OperatorFormatErr,
    ];
    for kind in kinds {
        let e = JreplErr::new(kind, "why".to_string());
        assert_eq!(e.kind(), kind);
        assert_eq!(e.message(), "why");
    }
    assert_eq!(JreplErr::new(ErrKind::LexErr, "m".into()), JreplErr::LexErr("m".into()));
}

#[test]
fn terminals_and_literals() {
    let number = Expr::Number(Number::zero());
    let list = Expr::List(vec![number.clone(), Expr::List(vec![Expr::Nil, Expr::Bool(true)])]);
    let with_symbol = Expr::List(vec![number.clone(), Expr::List(vec![Expr::Symbol("x".into())])]);
    assert!(number.is_terminal() && number.is_literal());
    assert!(Expr::Nil.is_terminal() && Expr::String("s".into()).is_terminal());
    assert!(!list.is_terminal() && list.is_literal());
    assert!(!with_symbol.is_terminal() && !with_symbol.is_literal());
    assert!(!Expr::Symbol("x".into()).is_terminal() && !Expr::Symbol("x".into()).is_literal());
    assert!(Expr::List(vec![]).is_literal());
    assert_eq!(with_symbol.duplicate(), with_symbol);
    assert_eq!(list.clone(), list);
}

#[test]
fn numbers_compare_as_doubles() {
    let of = |x: f64| Number::from_bits(x.to_bits());
    assert_eq!(of(0.0), of(-0.0));
    assert_ne!(of(f64::NAN), of(f64::NAN));
    assert_ne!(of(1.0), of(2.0));
    assert_eq!(of(f64::INFINITY), of(f64::INFINITY));
    assert!(of(0.0).is_zero() && of(-0.0).is_zero() && !of(5e-324).is_zero());
    assert!(of(f64::NAN).is_nan() && of(-f64::NAN).is_nan());
    assert!(!of(f64::INFINITY).is_nan() && !of(f64::NEG_INFINITY).is_nan() && !of(1.0).is_nan());
    assert_eq!(Number::zero().to_bits(), 0.0f64.to_bits());
    assert_eq!(Number::one().to_bits(), 1.0f64.to_bits());
    assert_eq!(of(2.5).negate(), of(-2.5));
    assert_eq!(of(-2.5).negate(), of(2.5));
}

#[test]
fn number_arithmetic_is_that_of_doubles() {
    let of = |x: f64| Number::from_bits(x.to_bits());
    let samples = [0.0, -0.0, 1.0, -1.5, 0.1, 0.2, 1e308, -1e308, 5e-324, 123456.789, f64::INFINITY];
    for a in samples {
        for b in samples {
            for (ours, theirs) in [
                (of(a).plus(of(b)), a + b),
                (of(a).minus(of(b)), a - b),
                (of(a).times(of(b)), a * b),
                (of(a).over(of(b)), a / b),
            ] {
                if theirs.is_nan() {
                    assert!(ours.is_nan(), "{} {}", a, b);
                } else {
                    assert_eq!(ours.to_bits(), theirs.to_bits(), "{} {}", a, b);
                }
            }
        }
    }
}

#[test]
fn number_text_converts_back() {
    let of = |x: f64| Number::from_bits(x.to_bits());
    assert_eq!(of(6.5).to_text(), "6.5");
    assert_eq!(of(100.0).to_text(), "100");
    assert_eq!(of(-5.0).to_text(), "-5");
    for x in [0.0, 1.0, 0.1, 3.14, 1e21, 1e-7, 1.0 / 3.0, 123456789.125, 5e-324, 1.7976931348623157e308] {
        let text = of(x).to_text();
        assert_eq!(Number::parse(&text), Some(of(x)), "{:?}", text);
    }
    assert_eq!(Number::parse("2.50"), Some(of(2.5)));
    assert_eq!(Number::parse("abc"), None);
}

#[test]
fn context_finds_the_first_command() {
    let mut context = Context::new();
    assert!(!context.is_symbol("help") && context.is_command("help"));
    assert!(context.get_command("help").is_none());
    context.set_commands(vec![
        Command::new("a", "first", Builtin::Help),
        Command::new("b", "b", Builtin::Exit),
        Command::new("a", "second", Builtin::Exit),
    ]);
    assert_eq!(context.get_command("a").map(|c| c.get_description()), Some("first"));
    assert!(context.is_symbol("b") && context.is_command("b"));
    assert!(!context.is_symbol("c") && context.is_command("c"));
    let other = Context::from(get_commands());
    assert_eq!(other.commands.len(), 8);
    assert!(other.is_symbol("defn"));
}

#[test]
fn syntax_errors_say_why() {
    let texts = |items: &[&str]| items.iter().map(|s| s.to_string()).collect::<Vec<String>>();
    assert_eq!(verify_syntax(&texts(&[])), Ok(()));
    assert_eq!(verify_syntax(&texts(&["(", "a", "`", ")", "(", ")"])), Ok(()));
    assert_eq!(
        verify_syntax(&texts(&["a"])),
        Err(SyntaxError::InvalidSyntax("Expected '(' at the start of an expression.".into()))
    );
    assert_eq!(
        verify_syntax(&texts(&["(", ")", ")"])),
        Err(SyntaxError::InvalidSyntax("Expected '(' at the start of an expression.".into()))
    );
    assert_eq!(
        verify_syntax(&texts(&["(", "\"", ")"])),
        Err(SyntaxError::InvalidSymbol("Expected '(', ')' or a symbol inside a list.".into()))
    );
    assert_eq!(
        verify_syntax(&texts(&["(", "\\"])),
        Err(SyntaxError::InvalidSymbol("Expected '(', ')' or a symbol inside a list.".into()))
    );
    assert_eq!(
        verify_syntax(&texts(&["(", "(", ")"])),
        Err(SyntaxError::InvalidSyntax("Unbalanced delimiter somewhere in user input".into()))
    );
}
