use jrepl::errors::{ErrKind, JreplErr};
use jrepl::lexer::{finish, lexer, tokenize, transition, transition_table, Accumulator, Token, TokenKind};
use jrepl::number::Number;
use jrepl::parser::{number_atom, parse};
use jrepl::types::Expr;
use jrepl::validation::Delimiter;

fn kinds(text: &str) -> Vec<TokenKind> {
    lexer(text).unwrap().iter().map(|t| t.kind()).collect()
}

fn kind_of_error(text: &str) -> ErrKind {
    lexer(text).err().expect("an error").kind()
}

#[test]
fn bools_are_told_from_symbols() {
    assert_eq!(
        lexer("(if true false tru falsey t f truer)").unwrap(),
        vec![
            Token::OpenParen("(".into()),
            Token::Symbol("if".into()),
            Token::BoolLiteral("true".into()),
            Token::BoolLiteral("false".into()),
            Token::Symbol("tru".into()),
            Token::Symbol("falsey".into()),
            Token::Symbol("t".into()),
            Token::Symbol("f".into()),
            Token::Symbol("truer".into()),
            Token::CloseParen(")".into()),
        ]
    );
    assert_eq!(lexer("(true)").unwrap()[1], Token::BoolLiteral("true".into()));
    assert_eq!(lexer("(false(true))").unwrap()[1], Token::BoolLiteral("false".into()));
    assert_eq!(lexer("(fals)").unwrap()[1], Token::Symbol("fals".into()));
    assert_eq!(lexer("(tree)").unwrap()[1], Token::Symbol("tree".into()));
}

#[test]
fn a_parenthesis_ends_a_word() {
    assert_eq!(
        kinds("(outer(inner)next)"),
        vec![
            TokenKind::OpenParen,
            TokenKind::Symbol,
            TokenKind::OpenParen,
            TokenKind::Symbol,
            TokenKind::CloseParen,
            TokenKind::Symbol,
            TokenKind::CloseParen,
        ]
    );
}

#[test]
fn atoms_outside_lists_are_tokens() {
    assert_eq!(lexer("help").unwrap(), vec![Token::Symbol("help".into())]);
    assert_eq!(lexer("42").unwrap(), vec![Token::NumberLiteral("42".into())]);
    assert_eq!(lexer("4.25 ").unwrap(), vec![Token::NumberLiteral("4.25".into())]);
    assert_eq!(lexer("true").unwrap(), vec![Token::BoolLiteral("true".into())]);
    assert_eq!(lexer("\"a\" `b`").unwrap().len(), 2);
    assert_eq!(lexer("").unwrap(), vec![]);
    assert_eq!(lexer("   ").unwrap(), vec![]);
}

#[test]
fn numbers_hold_digits_and_one_point() {
    assert_eq!(lexer("(1.50)").unwrap()[1], Token::NumberLiteral("1.50".into()));
    assert_eq!(lexer("(007 )").unwrap()[1], Token::NumberLiteral("007".into()));
    for text in ["(1.)", "(1. )", "1.", "(1.2.3)", "(1..2)", "(12a)", "(1(2))", "(3\"a\")", "(1 .5)"] {
        assert_eq!(kind_of_error(text), ErrKind::InvalidSymbol, "{:?}", text);
    }
}

#[test]
fn each_lexical_error_has_its_kind() {
    assert_eq!(kind_of_error("(a"), ErrKind::UnbalancedDelimiter);
    assert_eq!(kind_of_error("a)"), ErrKind::UnbalancedDelimiter);
    assert_eq!(kind_of_error("(1"), ErrKind::UnbalancedDelimiter);
    assert_eq!(kind_of_error("(a \"open"), ErrKind::LexErr);
    assert_eq!(kind_of_error("\"open"), ErrKind::LexErr);
    assert_eq!(kind_of_error("(a `open"), ErrKind::LexErr);
    assert_eq!(kind_of_error("(a + b)"), ErrKind::InvalidSymbol);
    assert_eq!(kind_of_error("(a\u{b}b)"), ErrKind::InvalidSymbol);
    assert_eq!(kind_of_error("(a\u{a0}b)"), ErrKind::InvalidSymbol);
    assert_eq!(kind_of_error("(a$)"), ErrKind::InvalidSymbol);
    assert_eq!(kind_of_error("(tr-ue)"), ErrKind::InvalidSymbol);
    assert_eq!(kind_of_error("-5"), ErrKind::InvalidSymbol);
}

#[test]
fn lexical_errors_name_the_character_and_the_token() {
    assert_eq!(
        lexer("(foo$)"),
        Err(JreplErr::InvalidSymbol("Invalid character '$' after \"foo\".".into()))
    );
    assert_eq!(lexer("(+)"), Err(JreplErr::InvalidSymbol("Invalid character '+' after \"\".".into())));
    assert_eq!(
        lexer("(12.)"),
        Err(JreplErr::InvalidSymbol("A number must end with a digit: \"12.\".".into()))
    );
    assert_eq!(lexer("(a \"bc"), Err(JreplErr::LexErr("Unterminated string literal: \"bc".into())));
    assert_eq!(lexer("(a `bc"), Err(JreplErr::LexErr("Unterminated comment: `bc".into())));
    assert_eq!(lexer("(a"), Err(JreplErr::UnbalancedDelimiter("Unbalanced parentheses.".into())));
}

#[test]
fn strings_and_comments_keep_every_character() {
    assert_eq!(
        lexer("(\"a (b) `c` \u{e9}\" `\"x\" )(\n`)").unwrap(),
        vec![
            Token::OpenParen("(".into()),
            Token::StringLiteral("\"a (b) `c` \u{e9}\"".into()),
            Token::Comment("`\"x\" )(\n`".into()),
            Token::CloseParen(")".into()),
        ]
    );
}

#[test]
fn symbols_hold_letters_and_digits_of_any_script() {
    assert_eq!(lexer("(\u{e9}t\u{e9}2 \u{3b1}\u{3b2})").unwrap().len(), 4);
    assert_eq!(kind_of_error("(2\u{e9})"), ErrKind::InvalidSymbol);
    assert_eq!(kind_of_error("(\u{663}a)"), ErrKind::InvalidSymbol);
    assert_eq!(lexer("(a\u{663})").unwrap()[1], Token::Symbol("a\u{663}".into()));
}

#[test]
fn tokenize_gives_the_texts() {
    assert_eq!(
        tokenize(" (add 1.5 \"two\" `c` (x true)) ").unwrap(),
        vec!["(", "add", "1.5", "\"two\"", "`c`", "(", "x", "true", ")", ")"]
    );
    assert_eq!(tokenize("(a").err().map(|e| e.kind()), Some(ErrKind::UnbalancedDelimiter));
}

#[test]
fn token_accessors() {
    let token = Token::new(TokenKind::Symbol, "abc".to_string());
    assert_eq!(token, Token::Symbol("abc".into()));
    assert_eq!(token.kind(), TokenKind::Symbol);
    assert_eq!(token.text(), "abc");
    assert_eq!(token.clone(), token);
}

#[test]
fn number_literals_are_converted() {
    let tokens = |text: &str| vec![Token::NumberLiteral(text.to_string())];
    let number = |x: f64| Ok(Expr::Number(Number::from_bits(x.to_bits())));
    assert_eq!(parse(&tokens("3.14")), number(3.14));
    assert_eq!(parse(&tokens("0.1")), number(0.1));
    assert_eq!(parse(&tokens("-12.5")), number(-12.5));
    assert_eq!(parse(&tokens("007")), number(7.0));
    assert_eq!(parse(&tokens("123456789012345678901234567890")), number(123456789012345678901234567890.0));
    assert_eq!(parse(&tokens("0.000000000000000000000000000001")), number(1e-30));
    for text in ["3.1.4", "1e5", "", ".5", "5.", "-", "--1", "+1", "inf", "NaN", "0x10", "1 ", "\u{663}"] {
        assert_eq!(
            parse(&tokens(text)),
            Err(JreplErr::ParserErr(format!("Malformed number literal: {}", text))),
            "{:?}",
            text
        );
    }
    let nested = vec![
        Token::OpenParen("(".into()),
        Token::Symbol("a".into()),
        Token::OpenParen("(".into()),
        Token::NumberLiteral("1.2.3".into()),
    ];
    assert_eq!(parse(&nested).err().map(|e| e.kind()), Some(ErrKind::ParserErr));
}

#[test]
fn number_atom_takes_the_conversion() {
    let text = "9".to_string();
    assert_eq!(number_atom(Some(Number::one()), &text), Ok(Expr::Number(Number::from_bits(1.0f64.to_bits()))));
    assert_eq!(number_atom(None, &text), Err(JreplErr::ParserErr("Malformed number literal: 9".into())));
    assert_eq!(Number::from_conversion(Some(5)).map(|n| n.to_bits()), Some(5));
    assert!(Number::from_conversion(None).is_none());
}

#[test]
fn parsing_is_lenient_about_structure() {
    let open = || Token::OpenParen("(".into());
    let close = || Token::CloseParen(")".into());
    let a = || Token::Symbol("a".into());
    assert_eq!(parse(&[]), Ok(Expr::Nil));
    assert_eq!(parse(&[Token::Comment("`c`".into())]), Ok(Expr::Nil));
    assert_eq!(parse(&[Token::Comment("`c`".into()), a()]), Ok(Expr::Symbol("a".into())));
    assert_eq!(parse(&[a(), a()]), Ok(Expr::Symbol("a".into())));
    assert_eq!(parse(&[open(), a()]), Ok(Expr::List(vec![Expr::Symbol("a".into())])));
    assert_eq!(
        parse(&[open(), open(), close(), a(), close(), a()]),
        Ok(Expr::List(vec![Expr::List(vec![]), Expr::Symbol("a".into())]))
    );
    assert_eq!(parse(&[Token::BoolLiteral("yes".into())]), Ok(Expr::Bool(false)));
}

#[test]
fn delimiters() {
    for text in ["(", ")", "\"", "\\"] {
        assert!(Delimiter::is(text));
    }
    for text in ["", "((", "a", "`", " ", "()"] {
        assert!(!Delimiter::is(text));
    }
}

fn feed(text: &str, letter: bool, word: bool) -> Result<Vec<Token>, JreplErr> {
    let mut acc = Accumulator::new();
    for c in text.chars() {
        acc = transition(acc, c, letter, word)?;
    }
    finish(acc)
}

#[test]
fn transitions_go_by_the_classes_they_are_given() {
    assert_eq!(feed("(+ a)", true, true), Ok(vec![
        Token::OpenParen("(".into()),
        Token::Symbol("+".into()),
        Token::Symbol("a".into()),
        Token::CloseParen(")".into()),
    ]));
    assert_eq!(
        feed("(ab)", true, false),
        Err(JreplErr::InvalidSymbol("Invalid character 'b' after \"a\".".into()))
    );
    assert_eq!(
        feed("(ab)", false, true),
        Err(JreplErr::InvalidSymbol("Invalid character 'a' after \"\".".into()))
    );
    assert_eq!(
        feed("(true tx f)", false, false).err(),
        Some(JreplErr::InvalidSymbol("Invalid character 'x' after \"t\".".into()))
    );
    assert_eq!(feed("(true t f false)", false, false).map(|t| t.len()), Ok(6));
    assert_eq!(feed("1.5 \"s\" `c` ( )", false, false).map(|t| t.len()), Ok(5));
}

#[test]
fn transition_table_classifies_the_character_itself() {
    let step = |text: &str| {
        let mut acc = Accumulator::new();
        for c in text.chars() {
            acc = transition_table(acc, c)?;
        }
        finish(acc)
    };
    assert_eq!(step("(a1 b)"), lexer("(a1 b)"));
    assert_eq!(step("(a+)"), lexer("(a+)"));
    assert_eq!(step("(a"), lexer("(a"));
    assert_eq!(step("\"a"), lexer("\"a"));
    assert_eq!(finish(Accumulator::new()), Ok(vec![]));
}

#[test]
fn blanks_tabs_and_line_ends_separate_tokens() {
    let plain = lexer("(add 1 2.5 true (x) \"s\" `c` y)").unwrap();
    assert_eq!(lexer("(add\t1\n2.5\rtrue\r\n(x)\t\"s\"\n`c`\ty)"), Ok(plain.clone()));
    assert_eq!(lexer("\n\t( add 1\t\t2.5 true\n\n(x\n)\"s\"`c` y\t)\r\n"), Ok(plain));
    assert_eq!(lexer("\t\n\r "), Ok(vec![]));
    assert_eq!(lexer("a\nb").map(|t| t.len()), Ok(2));
    assert_eq!(lexer("1\t2").map(|t| t.len()), Ok(2));
    assert_eq!(lexer("true\nfalse").unwrap()[0], Token::BoolLiteral("true".into()));
    assert_eq!(
        lexer("(1.\n)"),
        Err(JreplErr::InvalidSymbol("A number must end with a digit: \"1.\".".into()))
    );
    assert_eq!(
        lexer("(\"a\tb\n\")").unwrap()[1],
        Token::StringLiteral("\"a\tb\n\"".into())
    );
}

#[test]
fn tokens_of_an_accepted_input_parse() {
    for text in ["(a 1 2.50 007 (b 0.125))", "12345678901234567890.12345678901234567890", "0", "(0.0)"] {
        assert!(parse(&lexer(text).unwrap()).is_ok(), "{:?}", text);
    }
    for text in ["1", "-1", "0.5", "-0.5", "000", "-000.000", "9".repeat(400).as_str()] {
        assert!(Number::parse(text).is_some(), "{:?}", text);
    }
    assert_eq!(Number::parse(&"9".repeat(400)).map(|n| n.to_bits()), Some(f64::INFINITY.to_bits()));
    assert_eq!(Number::parse(&format!("0.{}1", "0".repeat(400))).map(|n| n.to_bits()), Some(0));
}
