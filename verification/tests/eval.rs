use jrepl::appstate::AppState;
use jrepl::commands::get_commands;
use jrepl::eval::eval;
use jrepl::number::Number;
use jrepl::types::Expr;

fn num(x: f64) -> Expr {
    Expr::Number(Number::from_bits(x.to_bits()))
}

fn float(n: Number) -> f64 {
    f64::from_bits(n.to_bits())
}

fn sym(s: &str) -> Expr {
    Expr::Symbol(s.into())
}

#[test]
fn eval_empty_list_returns_none() {
    let app_state = AppState::new();
    let ast = Expr::List(vec![]);
    let result = eval(&app_state, &ast).map(|e| e.eval_value);
    assert_eq!(Ok(Some(Expr::Nil)), result);
}

#[test]
fn eval_grouped_literal_list_ok() {
    let app_state = AppState::new();
    let ast = Expr::List(vec![Expr::Bool(true)]);
    let out = eval(&app_state, &ast).map(|e| e.eval_value).unwrap();
    assert_eq!(out, Some(Expr::Bool(true)));
}

#[test]
fn eval_help_no_args() {
    let mut app_state = AppState::new();
    app_state.set_commands(get_commands());
    let ast = Expr::List(vec![sym("help")]);
    let out = eval(&app_state, &ast).map(|e| e.eval_value).unwrap();
    match out {
        Some(Expr::String(s)) => assert!(s.contains("display avalible options. Usage: (help)")),
        other => panic!("Unexpected eval output: {:?}", other),
    }
}

#[test]
fn eval_unknown_command_returns_err() {
    let mut app_state = AppState::new();
    app_state.set_commands(get_commands());
    let ast = Expr::List(vec![sym("nope")]);
    let out = eval(&app_state, &ast);
    assert!(out.is_err());
}

// ----- (+) -----

#[test]
fn eval_plus_simple() {
    let mut app_state = AppState::new();
    app_state.set_commands(get_commands());
    let ast = Expr::List(vec![sym("+"), num(1.0), num(2.0), num(3.5)]);
    let out = eval(&app_state, &ast).map(|e| e.eval_value).unwrap();
    match out {
        Some(Expr::Number(n)) => assert_eq!(float(n), 6.5),
        other => panic!("{:?}", other),
    }
}

#[test]
fn eval_plus_with_nested_minus() {
    let mut app_state = AppState::new();
    app_state.set_commands(get_commands());
    // (+ 1 (- 5 2)) => 4
    let ast = Expr::List(vec![
        sym("+"),
        num(1.0),
        Expr::List(vec![sym("-"), num(5.0), num(2.0)]),
    ]);
    let out = eval(&app_state, &ast).map(|e| e.eval_value).unwrap();
    match out {
        Some(Expr::Number(n)) => assert_eq!(float(n), 4.0),
        other => panic!("{:?}", other),
    }
}

#[test]
fn eval_plus_type_error_non_number_arg() {
    let mut app_state = AppState::new();
    app_state.set_commands(get_commands());
    let ast = Expr::List(vec![sym("+"), num(1.0), Expr::String("a".into())]);
    let out = eval(&app_state, &ast);
    assert!(out.is_err());
}

// ----- (-) -----

#[test]
fn eval_minus_unary() {
    let mut app_state = AppState::new();
    app_state.set_commands(get_commands());
    let ast = Expr::List(vec![sym("-"), num(5.0)]);
    let out = eval(&app_state, &ast).map(|e| e.eval_value).unwrap();
    match out {
        Some(Expr::Number(n)) => assert_eq!(float(n), -5.0),
        other => panic!("{:?}", other),
    }
}

#[test]
fn eval_minus_multiple() {
    let mut app_state = AppState::new();
    app_state.set_commands(get_commands());
    // (- 10 1 2 3) => 4
    let ast = Expr::List(vec![
        sym("-"),
        num(10.0),
        num(1.0),
        num(2.0),
        num(3.0),
    ]);
    let out = eval(&app_state, &ast).map(|e| e.eval_value).unwrap();
    match out {
        Some(Expr::Number(n)) => assert_eq!(float(n), 4.0),
        other => panic!("{:?}", other),
    }
}

#[test]
fn eval_minus_with_nested_plus() {
    let mut app_state = AppState::new();
    app_state.set_commands(get_commands());
    // (- (+ 10 5) 3) => 12
    let ast = Expr::List(vec![
        sym("-"),
        Expr::List(vec![sym("+"), num(10.0), num(5.0)]),
        num(3.0),
    ]);
    let out = eval(&app_state, &ast).map(|e| e.eval_value).unwrap();
    match out {
        Some(Expr::Number(n)) => assert_eq!(float(n), 12.0),
        other => panic!("{:?}", other),
    }
}

#[test]
fn eval_minus_type_error_non_number_arg() {
    let mut app_state = AppState::new();
    app_state.set_commands(get_commands());
    let ast = Expr::List(vec![sym("-"), num(1.0), Expr::String("x".into())]);
    let out = eval(&app_state, &ast);
    assert!(out.is_err());
}

// ----- (*) -----

#[test]
fn eval_multiply_simple() {
    let mut app_state = AppState::new();
    app_state.set_commands(get_commands());
    // (* 2 3 4) => 24
    let ast = Expr::List(vec![sym("*"), num(2.0), num(3.0), num(4.0)]);
    let out = eval(&app_state, &ast).map(|e| e.eval_value).unwrap();
    match out {
        Some(Expr::Number(n)) => assert_eq!(float(n), 24.0),
        other => panic!("{:?}", other),
    }
}

#[test]
fn eval_multiply_with_nested_plus() {
    let mut app_state = AppState::new();
    app_state.set_commands(get_commands());
    // (* 2 (+ 3 1)) => 2 * 4 = 8
    let ast = Expr::List(vec![
        sym("*"),
        num(2.0),
        Expr::List(vec![sym("+"), num(3.0), num(1.0)]),
    ]);
    let out = eval(&app_state, &ast).map(|e| e.eval_value).unwrap();
    match out {
        Some(Expr::Number(n)) => assert_eq!(float(n), 8.0),
        other => panic!("{:?}", other),
    }
}

#[test]
fn eval_multiply_type_error_non_number_arg() {
    let mut app_state = AppState::new();
    app_state.set_commands(get_commands());
    let ast = Expr::List(vec![sym("*"), num(2.0), Expr::String("x".into())]);
    let out = eval(&app_state, &ast);
    assert!(out.is_err());
}

// Optional: behavior for zero arguments to (*) => identity 1.0
#[test]
fn eval_multiply_zero_args_identity() {
    let mut app_state = AppState::new();
    app_state.set_commands(get_commands());
    let ast = Expr::List(vec![sym("*")]);
    let out = eval(&app_state, &ast).map(|e| e.eval_value).unwrap();
    match out {
        Some(Expr::Number(n)) => assert_eq!(float(n), 1.0),
        other => panic!("{:?}", other),
    }
}

// ----- (/) -----

#[test]
fn eval_divide_unary_reciprocal() {
    let mut app_state = AppState::new();
    app_state.set_commands(get_commands());
    // (/ 2) => 0.5
    let ast = Expr::List(vec![sym("/"), num(2.0)]);
    let out = eval(&app_state, &ast).map(|e| e.eval_value).unwrap();
    match out {
        Some(Expr::Number(n)) => assert_eq!(float(n), 0.5),
        other => panic!("{:?}", other),
    }
}

#[test]
fn eval_divide_multiple() {
    let mut app_state = AppState::new();
    app_state.set_commands(get_commands());
    // (/ 20 2 5) => 20 / 2 / 5 = 2
    let ast = Expr::List(vec![sym("/"), num(20.0), num(2.0), num(5.0)]);
    let out = eval(&app_state, &ast).map(|e| e.eval_value).unwrap();
    match out {
        Some(Expr::Number(n)) => assert_eq!(float(n), 2.0),
        other => panic!("{:?}", other),
    }
}

#[test]
fn eval_divide_with_nested_minus() {
    let mut app_state = AppState::new();
    app_state.set_commands(get_commands());
    // (/ 12 (- 5 2)) => 12 / 3 = 4
    let ast = Expr::List(vec![
        sym("/"),
        num(12.0),
        Expr::List(vec![sym("-"), num(5.0), num(2.0)]),
    ]);
    let out = eval(&app_state, &ast).map(|e| e.eval_value).unwrap();
    match out {
        Some(Expr::Number(n)) => assert_eq!(float(n), 4.0),
        other => panic!("{:?}", other),
    }
}

#[test]
fn eval_divide_by_zero_error() {
    let mut app_state = AppState::new();
    app_state.set_commands(get_commands());
    let ast = Expr::List(vec![sym("/"), num(1.0), num(0.0)]);
    let out = eval(&app_state, &ast);
    assert!(out.is_err());
}

#[test]
fn eval_divide_type_error_non_number_arg() {
    let mut app_state = AppState::new();
    app_state.set_commands(get_commands());
    let ast = Expr::List(vec![sym("/"), num(10.0), Expr::String("a".into())]);
    let out = eval(&app_state, &ast);
    assert!(out.is_err());
}
