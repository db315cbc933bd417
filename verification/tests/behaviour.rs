use jrepl::appstate::{AppState, StateBuilder};
use jrepl::symbols::Referent;
use jrepl::command::{Builtin, Command};
use jrepl::commands::get_commands;
use jrepl::errors::{ErrKind, JreplErr};
use jrepl::eval::{arith, eval, number_of, run_builtin, value_of, Operator};
use jrepl::interpreter::interpret;
use jrepl::lexer::{lexer, Token, TokenKind};
use jrepl::number::Number;
use jrepl::parser::parse;
use jrepl::render::render_tokens;
use jrepl::types::Expr;

fn num(x: f64) -> Expr {
    Expr::Number(Number::from_bits(x.to_bits()))
}

fn sym(s: &str) -> Expr {
    Expr::Symbol(s.into())
}

fn ready() -> AppState {
    let mut app_state = AppState::new();
    app_state.set_commands(get_commands());
    app_state
}

fn value(app_state: &AppState, expr: &Expr) -> Option<Expr> {
    eval(app_state, expr).unwrap().eval_value
}

fn after(app_state: &AppState, expr: &Expr) -> AppState {
    let effect = eval(app_state, expr).unwrap();
    let mut next = AppState::new();
    next.set_next_state(effect.next_state.expect("a next state"));
    next
}

fn tree_of(text: &str) -> Expr {
    parse(&lexer(text).unwrap()).unwrap()
}

#[test]
fn round_trip_of_parsed_text() {
    for text in [
        "(help)",
        "()",
        "(defn x (if true 1.5 \"a b\"))",
        "(add 1 (mul 2 3) `a comment` (neg 0.25))",
        "  ( search   \"target(-t)ext\"   file1 ( nested ( deeper true false ) ) )  ",
        "lonely",
        "42",
        "",
    ] {
        let tree = tree_of(text);
        let rendered = tree.render();
        assert_eq!(tree_of(&rendered), tree, "{:?} became {:?}", text, rendered);
        assert_eq!(parse(&tree.to_tokens()), Ok(tree));
    }
}

#[test]
fn blanks_between_tokens_do_not_matter() {
    for text in ["  (a   (b `c  d`) \"e  f\" 1.5 true)x  ", "", "()", "(a)(b)", "a", "`c`"] {
        let tokens = lexer(text).unwrap();
        let normal = render_tokens(&tokens);
        assert_eq!(lexer(&normal), Ok(tokens));
        assert!(!normal.contains("  ") || text.contains("\"e  f\""), "{:?}", normal);
    }
    assert_eq!(render_tokens(&lexer("( a(b )c )").unwrap()), "( a ( b ) c )");
}

#[test]
fn round_trip_of_numbers() {
    for text in [
        "0",
        "0.1",
        "3.14",
        "(1000000000000000000000 0.000001 0.30000000000000004)",
        "(17976931348623157 0.0000000000000000000000000000000000000000001)",
        "(007 1.50 2.)",
    ] {
        match lexer(text) {
            Ok(tokens) => {
                let tree = parse(&tokens).unwrap();
                let rendered = tree.render();
                assert_eq!(lexer(&rendered).map(|t| t.len()), Ok(tree.to_tokens().len()));
                assert_eq!(tree_of(&rendered), tree, "{:?} became {:?}", text, rendered);
            }
            Err(e) => assert_eq!(text, "(007 1.50 2.)", "{:?}", e),
        }
    }
    assert_eq!(tree_of("0.1").render(), "0.1000000000000000055511151231257827021181583404541015625");
}

#[test]
fn rendering_is_canonical_text() {
    assert_eq!(tree_of("(add   1 (mul 2 3.5)   `note` \"s\")").render(), "( add 1 ( mul 2 3.5 ) \"s\" )");
    assert_eq!(tree_of("").render(), "");
    assert_eq!(Expr::Bool(false).render(), "false");
}

#[test]
fn arithmetic_scenarios() {
    let app_state = ready();
    let sum = Expr::List(vec![sym("+"), num(1.0), num(2.0), num(3.5)]);
    assert_eq!(value(&app_state, &sum), Some(num(6.5)));
    let negation = Expr::List(vec![sym("-"), num(5.0)]);
    assert_eq!(value(&app_state, &negation), Some(num(-5.0)));
    let empty_product = Expr::List(vec![sym("*")]);
    assert_eq!(value(&app_state, &empty_product), Some(num(1.0)));
    let empty_sum = Expr::List(vec![sym("+")]);
    assert_eq!(value(&app_state, &empty_sum), Some(num(0.0)));
    let division = Expr::List(vec![sym("/"), num(1.0), num(0.0)]);
    match eval(&app_state, &division) {
        Err(JreplErr::ArithmeticErr(_)) => {}
        _ => panic!("expected an arithmetic error"),
    }
}

#[test]
fn arithmetic_is_double_precision() {
    let app_state = ready();
    let sum = Expr::List(vec![sym("+"), num(0.1), num(0.2)]);
    assert_eq!(value(&app_state, &sum), Some(num(0.1 + 0.2)));
    let difference = Expr::List(vec![sym("-"), num(0.3), num(0.1)]);
    assert_eq!(value(&app_state, &difference), Some(num(0.3 - 0.1)));
    let product = Expr::List(vec![sym("*"), num(1.1), num(1.1), num(3.0)]);
    assert_eq!(value(&app_state, &product), Some(num(1.1 * 1.1 * 3.0)));
    let quotient = Expr::List(vec![sym("/"), num(1.0), num(3.0), num(7.0)]);
    assert_eq!(value(&app_state, &quotient), Some(num(1.0 / 3.0 / 7.0)));
    let reciprocal = Expr::List(vec![sym("/"), num(8.0)]);
    assert_eq!(value(&app_state, &reciprocal), Some(num(0.125)));
}

#[test]
fn division_by_either_zero_is_an_error() {
    let app_state = ready();
    for zero in [0.0, -0.0] {
        let reciprocal = Expr::List(vec![sym("/"), num(zero)]);
        assert_eq!(eval(&app_state, &reciprocal).err().map(|e| e.kind()), Some(ErrKind::ArithmeticErr));
        let later = Expr::List(vec![sym("/"), num(6.0), num(3.0), num(zero), sym("nope")]);
        assert_eq!(eval(&app_state, &later).err().map(|e| e.kind()), Some(ErrKind::ArithmeticErr));
    }
    let zero_dividend = Expr::List(vec![sym("/"), num(0.0), num(4.0)]);
    assert_eq!(value(&app_state, &zero_dividend), Some(num(0.0)));
}

#[test]
fn negation_flips_the_sign_only() {
    let app_state = ready();
    let negation = Expr::List(vec![sym("-"), num(0.0)]);
    match value(&app_state, &negation) {
        Some(Expr::Number(n)) => assert_eq!(n.to_bits(), (-0.0f64).to_bits()),
        other => panic!("{:?}", other),
    }
    assert_eq!(Number::from_bits(f64::NAN.to_bits()).negate().to_bits(), (-f64::NAN).to_bits());
}

#[test]
fn arity_errors_of_the_commands() {
    let app_state = ready();
    let cases = [
        (Expr::List(vec![sym("-")]), ErrKind::UndefinedSymbol),
        (Expr::List(vec![sym("/")]), ErrKind::OperatorFormatErr),
        (Expr::List(vec![sym("defn")]), ErrKind::OperatorFormatErr),
        (Expr::List(vec![sym("defn"), sym("x")]), ErrKind::OperatorFormatErr),
        (Expr::List(vec![sym("defn"), sym("x"), num(1.0), num(2.0)]), ErrKind::OperatorFormatErr),
        (Expr::List(vec![sym("defn"), num(1.0), num(2.0)]), ErrKind::OperatorFormatErr),
        (Expr::List(vec![sym("if")]), ErrKind::UndefinedSymbol),
        (Expr::List(vec![sym("if"), Expr::Bool(true)]), ErrKind::UndefinedSymbol),
        (Expr::List(vec![sym("if"), num(1.0), num(2.0)]), ErrKind::UndefinedSymbol),
        (
            Expr::List(vec![sym("if"), Expr::Bool(true), num(1.0), num(2.0), num(3.0)]),
            ErrKind::UndefinedSymbol,
        ),
        (
            Expr::List(vec![sym("if"), Expr::Bool(false), num(1.0), num(2.0), num(3.0), num(4.0)]),
            ErrKind::UndefinedSymbol,
        ),
        (
            Expr::List(vec![sym("defn"), sym("x"), Expr::List(vec![num(1.0), num(2.0)])]),
            ErrKind::UndefinedSymbol,
        ),
        (
            Expr::List(vec![sym("defn"), sym("x"), Expr::List(vec![Expr::List(vec![])])]),
            ErrKind::UndefinedSymbol,
        ),
        (Expr::List(vec![sym("+"), Expr::Bool(true), num(2.0)]), ErrKind::UndefinedSymbol),
        (Expr::List(vec![num(1.0), sym("x")]), ErrKind::OperatorFormatErr),
        (Expr::List(vec![sym("nope"), num(1.0)]), ErrKind::UndefinedSymbol),
    ];
    for (expr, kind) in cases {
        assert_eq!(eval(&app_state, &expr).err().map(|e| e.kind()), Some(kind), "{:?}", expr);
    }
}

#[test]
fn error_messages_name_what_is_at_fault() {
    let app_state = ready();
    let bad = Expr::List(vec![sym("+"), num(1.0), Expr::String("\"a\"".into())]);
    assert_eq!(
        eval(&app_state, &bad).err(),
        Some(JreplErr::UndefinedSymbol("Type error: expected Number, got \"a\"".into()))
    );
    assert_eq!(
        eval(&app_state, &sym("ghost")).err(),
        Some(JreplErr::UndefinedSymbol("Undefined symbol: ghost.".into()))
    );
    assert_eq!(
        eval(&app_state, &sym("help")).err(),
        Some(JreplErr::UndefinedSymbol(
            "Expected 'help' to resolve to a terminal, but it resolved to a command.".into()
        ))
    );
    let head = Expr::List(vec![Expr::List(vec![num(1.0), num(2.0)]), sym("x")]);
    let message = eval(&app_state, &head).err().unwrap();
    assert_eq!(message.kind(), ErrKind::OperatorFormatErr);
    assert!(message.message().starts_with("Invalid list: expected a command symbol at position 0, found ( 1 2 )."));
}

#[test]
fn if_takes_one_branch_only() {
    let app_state = ready();
    let failing = Expr::List(vec![sym("nope"), num(1.0)]);
    assert!(eval(&app_state, &failing).is_err());
    let taken = Expr::List(vec![sym("if"), Expr::Bool(true), num(1.0), failing.clone()]);
    assert_eq!(value(&app_state, &taken), Some(num(1.0)));
    let other = Expr::List(vec![sym("if"), Expr::Bool(false), failing.clone(), num(2.0)]);
    assert_eq!(value(&app_state, &other), Some(num(2.0)));
    let plain = Expr::List(vec![sym("if"), Expr::Bool(true), num(1.0), num(2.0)]);
    assert_eq!(value(&app_state, &plain), Some(num(1.0)));
    let plain = Expr::List(vec![sym("if"), Expr::Bool(false), num(1.0), num(2.0)]);
    assert_eq!(value(&app_state, &plain), Some(num(2.0)));
    let missing = Expr::List(vec![sym("if"), Expr::Bool(false), num(1.0)]);
    assert_eq!(value(&app_state, &missing), Some(Expr::Nil));
    let failed = Expr::List(vec![sym("if"), Expr::Bool(false), num(1.0), failing]);
    assert!(eval(&app_state, &failed).is_err());
}

#[test]
fn if_evaluates_its_condition() {
    let app_state = ready();
    let nested = Expr::List(vec![sym("if"), Expr::Bool(false), Expr::Bool(true), Expr::Bool(false)]);
    let outer = Expr::List(vec![sym("if"), nested, num(1.0), num(2.0)]);
    assert_eq!(value(&app_state, &outer), Some(num(2.0)));
}

#[test]
fn defn_binds_and_rebinds() {
    let app_state = ready();
    assert!(eval(&app_state, &sym("x")).is_err());
    let first = Expr::List(vec![sym("defn"), sym("x"), num(5.0)]);
    let effect = eval(&app_state, &first).unwrap();
    assert_eq!(effect.eval_value, Some(num(5.0)));
    assert!(effect.err.is_none());
    assert!(eval(&app_state, &sym("x")).is_err(), "the current state is not changed");
    let bound = after(&app_state, &first);
    assert_eq!(value(&bound, &sym("x")), Some(num(5.0)));
    assert_eq!(bound.get_commands().len(), 8);
    let second = Expr::List(vec![
        sym("defn"),
        sym("x"),
        Expr::List(vec![sym("+"), sym("x"), num(1.0)]),
    ]);
    let rebound = after(&bound, &second);
    assert_eq!(value(&rebound, &sym("x")), Some(num(6.0)));
    assert_eq!(value(&bound, &sym("x")), Some(num(5.0)));
    let text = Expr::List(vec![sym("defn"), sym("x"), Expr::String("\"s\"".into())]);
    assert_eq!(value(&after(&rebound, &text), &sym("x")), Some(Expr::String("\"s\"".into())));
}

#[test]
fn defn_can_shadow_a_command() {
    let app_state = ready();
    let shadow = Expr::List(vec![sym("defn"), sym("help"), num(1.0)]);
    let shadowed = after(&app_state, &shadow);
    assert_eq!(value(&shadowed, &Expr::List(vec![sym("help")])), Some(num(1.0)));
    assert!(shadowed.get_command_from_symbol("help").is_err());
    assert!(shadowed.get_command_from_symbol("exit").is_ok());
}

#[test]
fn undefined_symbols_fail_with_their_own_kind() {
    let empty = AppState::new();
    let full = ready();
    for app_state in [&empty, &full] {
        for name in ["x", "", "nope", "true"] {
            assert_eq!(
                app_state.resolve_symbol_to_terminal(name).err().map(|e| e.kind()),
                Some(ErrKind::UndefinedSymbol)
            );
            assert_eq!(
                eval(app_state, &sym(name)).err().map(|e| e.kind()),
                Some(ErrKind::UndefinedSymbol)
            );
            assert_eq!(
                value_of(app_state, &sym(name)).err().map(|e| e.kind()),
                Some(ErrKind::UndefinedSymbol)
            );
            assert_eq!(
                number_of(app_state, &sym(name)).err().map(|e| e.kind()),
                Some(ErrKind::UndefinedSymbol)
            );
        }
    }
}

fn alias(app_state: &AppState, name: &str, to: Expr) -> AppState {
    let name = name.to_string();
    let state = app_state.apply_action(|b: StateBuilder| {
        let mut b = b;
        b.symbol_table.insert(name, Referent::Expr(to));
        b
    });
    let mut next = AppState::new();
    next.set_next_state(state);
    next
}

#[test]
fn aliases_are_followed_to_a_terminal() {
    let app_state = alias(&ready(), "a", sym("b"));
    let app_state = alias(&app_state, "b", sym("c"));
    assert_eq!(
        app_state.resolve_symbol_to_terminal("a").err().map(|e| e.kind()),
        Some(ErrKind::UndefinedSymbol)
    );
    let app_state = alias(&app_state, "c", Expr::Bool(true));
    assert_eq!(app_state.resolve_symbol_to_terminal("a"), Ok(Expr::Bool(true)));
    assert_eq!(app_state.resolve_symbol_to_terminal("c"), Ok(Expr::Bool(true)));
    let to_command = alias(&app_state, "c", sym("help"));
    assert!(to_command.resolve_symbol_to_terminal("a").is_err());
    let to_list = alias(&app_state, "c", Expr::List(vec![num(1.0), num(2.0)]));
    assert!(to_list.resolve_symbol_to_terminal("a").is_err());
}

#[test]
fn aliases_in_a_circle_end_in_an_error() {
    let app_state = alias(&AppState::new(), "a", sym("b"));
    let app_state = alias(&app_state, "b", sym("a"));
    assert_eq!(
        app_state.resolve_symbol_to_terminal("a").err(),
        Some(JreplErr::UndefinedSymbol("The aliases that lead to 'a' run in a circle.".into()))
    );
    let itself = alias(&AppState::new(), "me", sym("me"));
    assert!(itself.resolve_symbol_to_terminal("me").is_err());
    let mut long = AppState::new();
    for i in 0..20 {
        long = alias(&long, &format!("n{}", i), sym(&format!("n{}", i + 1)));
    }
    long = alias(&long, "n20", num(7.0));
    assert_eq!(long.resolve_symbol_to_terminal("n0"), Ok(num(7.0)));
}

#[test]
fn help_lists_every_command_once_in_order() {
    let effect = interpret(&ready(), "(help)");
    let text = match effect.eval_value {
        Some(Expr::String(s)) => s,
        other => panic!("{:?}", other),
    };
    let expected = "Available commands:\n\n  Command  Description\n  -------  -----------\n  *        Usage: (* Number Number ...)\n  +        Usage: (+ Number Number ...)\n  -        Usage: (- Number Number ...)\n  /        Usage: (/ Number Number ...)\n  defn     Define or redefine a symbol. Usage: (defn <name> <expr>)\n  exit     exit the interpreter. Usage: (exit)\n  help     display avalible options. Usage: (help)\n  if       Usage: (if <bool-expr> <then-expr> [<else-expr>])\n";
    assert_eq!(text, expected);
    let symbols: Vec<&str> = text
        .lines()
        .skip(4)
        .map(|line| line.split_whitespace().next().unwrap())
        .collect();
    let mut sorted = vec!["help", "exit", "+", "-", "*", "/", "defn", "if"];
    sorted.sort();
    assert_eq!(symbols, sorted);
    assert!(effect.next_state.is_none());
}

#[test]
fn unbalanced_input_is_refused_before_evaluation() {
    let app_state = ready();
    for text in ["(help", "help)", "(exit", "exit)", "((help)", "(help))", ")", "("] {
        let effect = interpret(&app_state, text);
        assert_eq!(effect.err.map(|e| e.kind()), Some(ErrKind::UnbalancedDelimiter), "{:?}", text);
        assert!(effect.eval_value.is_none());
        assert!(effect.next_state.is_none());
        assert!(effect.user_feedback.is_none());
    }
}

#[test]
fn literals_evaluate_to_the_same_value_every_time() {
    let app_state = ready();
    let empty = AppState::new();
    let pair = Expr::List(vec![num(1.0), Expr::String("\"a\"".into())]);
    let literals = [
        (num(2.5), num(2.5)),
        (Expr::Bool(false), Expr::Bool(false)),
        (Expr::Nil, Expr::Nil),
        (Expr::String("\"s\"".into()), Expr::String("\"s\"".into())),
        (Expr::List(vec![]), Expr::Nil),
        (Expr::List(vec![num(42.0)]), num(42.0)),
        (pair.clone(), pair.clone()),
        (Expr::List(vec![pair.clone()]), pair.clone()),
        (Expr::List(vec![pair.clone(), Expr::Nil]), Expr::List(vec![pair, Expr::Nil])),
    ];
    for (expr, expected) in literals {
        assert!(expr.is_literal());
        for state in [&app_state, &empty] {
            for _ in 0..2 {
                let effect = eval(state, &expr).unwrap();
                assert_eq!(effect.eval_value, Some(expected.clone()));
                assert!(effect.next_state.is_none());
                assert!(effect.user_feedback.is_none());
                assert!(effect.err.is_none());
            }
            assert_eq!(value_of(state, &expr), Ok(expr.clone()));
        }
    }
}

#[test]
fn exit_asks_for_a_new_state_only() {
    let app_state = ready();
    assert!(!app_state.should_exit());
    let leaving = after(&app_state, &Expr::List(vec![sym("exit")]));
    assert!(leaving.should_exit());
    assert!(!app_state.should_exit());
    assert_eq!(leaving.get_commands().len(), 8);
    assert!(leaving.get_command_from_symbol("help").is_ok());
}

#[test]
fn later_registration_wins() {
    let mut app_state = AppState::new();
    app_state.set_commands(vec![
        Command::new("go", "first", Builtin::Help),
        Command::new("stop", "stop", Builtin::Exit),
        Command::new("go", "second", Builtin::Exit),
    ]);
    assert_eq!(app_state.get_commands().len(), 3);
    let found = app_state.get_command_from_symbol("go").unwrap();
    assert_eq!(found.get_description(), "second");
    assert_eq!(found.builtin, Builtin::Exit);
    app_state.set_commands(vec![Command::new("other", "other", Builtin::Help)]);
    assert_eq!(app_state.get_commands().len(), 1);
    assert!(app_state.get_command_from_symbol("stop").is_ok());
}

#[test]
fn help_pads_to_the_widest_symbol() {
    let mut app_state = AppState::new();
    app_state.set_commands(vec![
        Command::new("zz-longest-name", "zz-longest-name  \t shown", Builtin::Help),
        Command::new("b", "kept as it is", Builtin::Exit),
        Command::new("b", "b", Builtin::Exit),
        Command::new("a", "abc", Builtin::Help),
    ]);
    let text = match value(&app_state, &Expr::List(vec![sym("zz-longest-name")])) {
        Some(Expr::String(s)) => s,
        other => panic!("{:?}", other),
    };
    let expected = "Available commands:\n\n  Command          Description\n  ---------------  -----------\n  a                bc\n  b                kept as it is\n  b                \n  zz-longest-name  shown\n";
    assert_eq!(text, expected);
    let mut none = AppState::new();
    none.set_commands(vec![Command::new("h", "", Builtin::Help)]);
    assert_eq!(
        value(&none, &Expr::List(vec![sym("h")])),
        Some(Expr::String("Available commands:\n\n  Command  Description\n  -------  -----------\n  h        \n".into()))
    );
}

#[test]
fn single_steps_of_arithmetic() {
    let of = |x: f64| Number::from_bits(x.to_bits());
    assert_eq!(arith(Operator::Add, of(1.5), of(2.0)), Ok(of(3.5)));
    assert_eq!(arith(Operator::Subtract, of(1.5), of(2.0)), Ok(of(-0.5)));
    assert_eq!(arith(Operator::Multiply, of(1.5), of(2.0)), Ok(of(3.0)));
    assert_eq!(arith(Operator::Divide, of(1.5), of(2.0)), Ok(of(0.75)));
    assert_eq!(
        arith(Operator::Divide, of(1.5), of(0.0)),
        Err(JreplErr::ArithmeticErr("Division by zero".into()))
    );
    assert_eq!(arith(Operator::Multiply, of(1.5), of(0.0)), Ok(of(0.0)));
}

#[test]
fn commands_take_their_arguments_as_they_stand() {
    let app_state = ready();
    let args = [num(8.0), Expr::List(vec![sym("+"), num(1.0), num(1.0)]), num(2.0)];
    let result = |builtin: Builtin| run_builtin(&app_state, builtin, &args).unwrap().eval_value;
    assert_eq!(result(Builtin::Add), Some(num(12.0)));
    assert_eq!(result(Builtin::Subtract), Some(num(4.0)));
    assert_eq!(result(Builtin::Multiply), Some(num(32.0)));
    assert_eq!(result(Builtin::Divide), Some(num(2.0)));
    assert!(run_builtin(&app_state, Builtin::Define, &args).is_err());
    assert!(run_builtin(&app_state, Builtin::If, &args).is_err());
    assert!(run_builtin(&app_state, Builtin::Exit, &args).unwrap().next_state.unwrap().get_exit());
    assert!(matches!(result(Builtin::Help), Some(Expr::String(_))));
}

#[test]
fn help_is_laid_out_as_formatted_text() {
    let entries = [
        ("zeta", "zeta \t last"),
        ("\u{e9}\u{e9}\u{e9}\u{e9}\u{e9}", "\u{e9}\u{e9}\u{e9}\u{e9}\u{e9} accents"),
        ("a", "a"),
        ("", "  lead"),
        ("mid", "no prefix mid"),
        ("Zed", "Zed\t\t  tabs"),
    ];
    let mut app_state = AppState::new();
    app_state.set_commands(entries.iter().map(|(s, d)| Command::new(s, d, Builtin::Help)).collect());
    let text = match value(&app_state, &Expr::List(vec![sym("a")])) {
        Some(Expr::String(s)) => s,
        other => panic!("{:?}", other),
    };
    let mut sorted = entries.to_vec();
    sorted.sort_by(|a, b| a.0.cmp(b.0));
    let width = sorted.iter().map(|(s, _)| s.len()).max().unwrap().max("Command".len());
    let body = sorted
        .iter()
        .map(|(symbol, description)| {
            let shown = match description.strip_prefix(symbol) {
                Some(rest) => rest.trim_start_matches([' ', '\t']),
                None => description,
            };
            format!("  {:width$}  {}", symbol, shown, width = width)
        })
        .collect::<Vec<_>>()
        .join("\n");
    let expected = format!(
        "Available commands:\n\n  {:width$}  {}\n  {:width$}  {}\n{}\n",
        "Command",
        "Description",
        "-".repeat(width),
        "-----------",
        body,
        width = width
    );
    assert_eq!(text, expected);
}

#[test]
fn if_with_too_many_arguments_evaluates_none_of_them() {
    let app_state = ready();
    let failing = Expr::List(vec![sym("nope"), num(1.0)]);
    let four = Expr::List(vec![sym("if"), failing.clone(), num(1.0), num(2.0), num(3.0)]);
    assert_eq!(
        eval(&app_state, &four).err(),
        Some(JreplErr::UndefinedSymbol(
            "'if' expects 2 or 3 arguments: condition, then-branch and else-branch".into()
        ))
    );
    let one = Expr::List(vec![sym("if"), failing]);
    assert_eq!(eval(&app_state, &one).err().map(|e| e.kind()), Some(ErrKind::UndefinedSymbol));
}

#[test]
fn defn_binds_terminals_only() {
    let app_state = ready();
    let list = Expr::List(vec![sym("defn"), sym("x"), Expr::List(vec![num(1.0), num(2.0)])]);
    assert_eq!(
        eval(&app_state, &list).err(),
        Some(JreplErr::UndefinedSymbol(
            "'defn' value must evaluate to a terminal (String|Number|Bool|None), got ( 1 2 )".into()
        ))
    );
    for terminal in [num(1.0), Expr::Bool(true), Expr::String("\"s\"".into()), Expr::Nil] {
        let bind = Expr::List(vec![sym("defn"), sym("x"), terminal.clone()]);
        let bound = after(&app_state, &bind);
        assert_eq!(value(&bound, &sym("x")), Some(terminal));
    }
    for list in [Expr::List(vec![]), Expr::List(vec![num(3.0)])] {
        let bind = Expr::List(vec![sym("defn"), sym("x"), list]);
        assert_eq!(eval(&app_state, &bind).err().map(|e| e.kind()), Some(ErrKind::UndefinedSymbol));
    }
    let sum = Expr::List(vec![sym("defn"), sym("x"), Expr::List(vec![sym("+"), num(1.0), num(2.0)])]);
    assert_eq!(value(&after(&app_state, &sum), &sym("x")), Some(num(3.0)));
}

fn meaning(tokens: &[Token]) -> Vec<(TokenKind, String)> {
    tokens
        .iter()
        .filter(|t| t.kind() != TokenKind::Comment)
        .map(|t| match t.kind() {
            TokenKind::NumberLiteral => (t.kind(), format!("{:?}", Number::parse(t.text()).map(|n| n.to_bits()))),
            _ => (t.kind(), t.text().clone()),
        })
        .collect()
}

#[test]
fn the_parsed_list_flattens_to_the_tokens_without_comments() {
    for text in [
        "(help)",
        "()",
        "(`c` a `d` (b 1.50 007 `e`) \"s\" (()) true false tru `f`)",
        "(defn x (if true 1.5 \"a b\"))",
        "((((a))))",
    ] {
        let tokens = lexer(text).unwrap();
        let tree = parse(&tokens).unwrap();
        assert_eq!(meaning(&tree.to_tokens()), meaning(&tokens), "{:?}", text);
    }
    let two = lexer("(a `c`) (b)").unwrap();
    assert_eq!(meaning(&parse(&two).unwrap().to_tokens()), meaning(&two[..4]));
}
