//! The parser: recursive descent over the tokens.
use crate::errors::{ErrKind, ErrView, JreplErr};
use crate::lexer::{true_word, Token, TokenKind, TokenView};
use crate::number::{numeral_value, Number};
use crate::text::views;
use crate::types::{expr_views, lemma_list_view, Expr, ExprView};
use vstd::prelude::*;

verus! {

/// The expression that a token other than a parenthesis or a comment stands
/// for, or the text of a number literal that is no numeral.
pub open spec fn atom_of(t: TokenView) -> Result<ExprView, Seq<char>> {
    match t.kind {
        TokenKind::StringLiteral => Ok(ExprView::String(t.text)),
        TokenKind::NumberLiteral => match numeral_value(t.text) {
            Some(bits) => Ok(ExprView::Number(bits)),
            None => Err(t.text),
        },
        TokenKind::BoolLiteral => Ok(ExprView::Bool(t.text == true_word())),
        _ => Ok(ExprView::Symbol(t.text)),
    }
}

/// The expression that starts at token `i`, with the index of the first token
/// after it. Past the last token, and at a closing parenthesis, this is the
/// empty value; comments are skipped.
pub open spec fn parse_at(tokens: Seq<TokenView>, i: nat) -> Result<(ExprView, nat), Seq<char>>
    decreases tokens.len() - i, 0nat,
{
    if i >= tokens.len() {
        Ok((ExprView::Nil, i))
    } else {
        match tokens[i as int].kind {
            TokenKind::OpenParen => match parse_items(tokens, i + 1) {
                Ok((items, next)) => Ok((ExprView::List(items), next)),
                Err(text) => Err(text),
            },
            TokenKind::CloseParen => Ok((ExprView::Nil, i + 1)),
            TokenKind::Comment => parse_at(tokens, i + 1),
            _ => match atom_of(tokens[i as int]) {
                Ok(e) => Ok((e, i + 1)),
                Err(text) => Err(text),
            },
        }
    }
}

/// The items of a list whose opening parenthesis stands before token `i`,
/// with the index of the first token after its closing parenthesis. A list
/// that the tokens end in is closed by their end.
pub open spec fn parse_items(tokens: Seq<TokenView>, i: nat) -> Result<
    (Seq<ExprView>, nat),
    Seq<char>,
>
    decreases tokens.len() - i, 1nat,
{
    if i >= tokens.len() {
        Ok((Seq::empty(), i))
    } else {
        match tokens[i as int].kind {
            TokenKind::CloseParen => Ok((Seq::empty(), i + 1)),
            TokenKind::Comment => parse_items(tokens, i + 1),
            _ => match parse_at(tokens, i) {
                Ok((first, next)) => if i < next <= tokens.len() {
                    match parse_items(tokens, next) {
                        Ok((rest, end)) => Ok((seq![first] + rest, end)),
                        Err(text) => Err(text),
                    }
                } else {
                    Ok((seq![first], next))
                },
                Err(text) => Err(text),
            },
        }
    }
}

/// The first expression of the tokens.
pub open spec fn parse_spec(tokens: Seq<TokenView>) -> Result<ExprView, Seq<char>> {
    match parse_at(tokens, 0) {
        Ok((e, _)) => Ok(e),
        Err(text) => Err(text),
    }
}

/// The error for a number literal whose text is no numeral.
pub open spec fn malformed_number(text: Seq<char>) -> ErrView {
    ErrView { kind: ErrKind::ParserErr, message: "Malformed number literal: "@ + text }
}

/// The items of a list never end before they start, nor after the tokens.
pub proof fn lemma_items_advance(tokens: Seq<TokenView>, i: nat)
    ensures
        parse_items(tokens, i) matches Ok((_, next)) ==> i <= next && (i < tokens.len() ==> i
            < next <= tokens.len()) && (i >= tokens.len() ==> next == i),
    decreases tokens.len() - i, 1nat,
{
    if i < tokens.len() {
        match tokens[i as int].kind {
            TokenKind::CloseParen => {},
            TokenKind::Comment => {
                lemma_items_advance(tokens, i + 1);
            },
            _ => {
                lemma_parse_advances(tokens, i);
                if let Ok((first, next)) = parse_at(tokens, i) {
                    if i < next <= tokens.len() {
                        lemma_items_advance(tokens, next);
                    }
                }
            },
        }
    }
}

/// An expression that starts at a token ends after it, within the tokens.
pub proof fn lemma_parse_advances(tokens: Seq<TokenView>, i: nat)
    ensures
        parse_at(tokens, i) matches Ok((_, next)) ==> i <= next && (i < tokens.len() ==> i
            < next <= tokens.len()) && (i >= tokens.len() ==> next == i),
    decreases tokens.len() - i, 0nat,
{
    if i < tokens.len() {
        match tokens[i as int].kind {
            TokenKind::OpenParen => {
                lemma_items_advance(tokens, i + 1);
            },
            TokenKind::CloseParen => {},
            TokenKind::Comment => {
                lemma_parse_advances(tokens, i + 1);
            },
            _ => {},
        }
    }
}

/// Whether the text is that of a number literal among the tokens which is no
/// numeral.
pub open spec fn refused_number(tokens: Seq<TokenView>, text: Seq<char>) -> bool {
    exists|k: int|
        0 <= k < tokens.len() && (#[trigger] tokens[k]).kind == TokenKind::NumberLiteral
            && tokens[k].text == text && numeral_value(text) is None
}

/// The parser refuses tokens only for a number literal among them.
pub proof fn lemma_parse_refusal(tokens: Seq<TokenView>, i: nat)
    ensures
        parse_at(tokens, i) matches Err(text) ==> refused_number(tokens, text),
        parse_items(tokens, i) matches Err(text) ==> refused_number(tokens, text),
    decreases tokens.len() - i, 2nat,
{
    if i < tokens.len() {
        lemma_items_refusal(tokens, i);
        match tokens[i as int].kind {
            TokenKind::OpenParen => {
                lemma_items_refusal(tokens, i + 1);
            },
            TokenKind::CloseParen => {},
            TokenKind::Comment => {
                lemma_parse_refusal(tokens, i + 1);
            },
            _ => {},
        }
    }
}

proof fn lemma_items_refusal(tokens: Seq<TokenView>, i: nat)
    ensures
        parse_items(tokens, i) matches Err(text) ==> refused_number(tokens, text),
    decreases tokens.len() - i, 1nat,
{
    if i < tokens.len() {
        match tokens[i as int].kind {
            TokenKind::CloseParen => {},
            TokenKind::Comment => {
                lemma_items_refusal(tokens, i + 1);
            },
            _ => {
                lemma_at_refusal(tokens, i);
                if let Ok((first, next)) = parse_at(tokens, i) {
                    if i < next <= tokens.len() {
                        lemma_items_refusal(tokens, next);
                    }
                }
            },
        }
    }
}

proof fn lemma_at_refusal(tokens: Seq<TokenView>, i: nat)
    requires
        i < tokens.len(),
        tokens[i as int].kind != TokenKind::CloseParen,
        tokens[i as int].kind != TokenKind::Comment,
    ensures
        parse_at(tokens, i) matches Err(text) ==> refused_number(tokens, text),
    decreases tokens.len() - i, 0nat,
{
    if tokens[i as int].kind == TokenKind::OpenParen {
        lemma_items_refusal(tokens, i + 1);
    }
}

/// Whether the result is the expression, or the error for the number
/// literal, that the grammar gives.
pub open spec fn parsed(r: Result<Expr, JreplErr>, expected: Result<ExprView, Seq<char>>) -> bool {
    match expected {
        Ok(e) => r matches Ok(x) && x@ == e,
        Err(text) => r matches Err(err) && err@ == malformed_number(text),
    }
}

spec fn parsed_at(
    r: Result<(Expr, usize), JreplErr>,
    expected: Result<(ExprView, nat), Seq<char>>,
) -> bool {
    match expected {
        Ok((e, next)) => r matches Ok((x, k)) && x@ == e && k == next,
        Err(text) => r matches Err(err) && err@ == malformed_number(text),
    }
}

/// The items read so far, followed by those that the rest of the list holds.
spec fn continued(done: Seq<ExprView>, rest: Result<(Seq<ExprView>, nat), Seq<char>>) -> Result<
    (Seq<ExprView>, nat),
    Seq<char>,
> {
    match rest {
        Ok((items, end)) => Ok((done + items, end)),
        Err(text) => Err(text),
    }
}

fn malformed(text: &String) -> (e: JreplErr)
    ensures
        e@ == malformed_number(text@),
{
    let mut m = String::from_str("Malformed number literal: ");
    m.append(text.as_str());
    JreplErr::ParserErr(m)
}

/// The expression that an atom's token stands for.
fn parse_atom(token: &Token) -> (r: Result<Expr, JreplErr>)
    requires
        token@.kind != TokenKind::OpenParen,
        token@.kind != TokenKind::CloseParen,
        token@.kind != TokenKind::Comment,
    ensures
        parsed(r, atom_of(token@)),
{
    match token {
        Token::StringLiteral(s) => Ok(Expr::String(s.clone())),
        Token::NumberLiteral(s) => number_atom(Number::parse(s.as_str()), s),
        Token::BoolLiteral(s) => {
            let word = String::from_str("true");
            proof {
                reveal_strlit("true");
                assert("true"@ =~= true_word());
            }
            Ok(Expr::Bool(*s == word))
        },
        Token::Symbol(s) => Ok(Expr::Symbol(s.clone())),
        _ => Ok(Expr::Nil),
    }
}

/// The expression for a number literal, given what its text converted to.
pub fn number_atom(converted: Option<Number>, text: &String) -> (r: Result<Expr, JreplErr>)
    ensures
        match converted {
            Some(n) => r matches Ok(e) && e@ == ExprView::Number(n@),
            None => r matches Err(err) && err@ == malformed_number(text@),
        },
{
    match converted {
        Some(n) => Ok(Expr::Number(n)),
        None => Err(malformed(text)),
    }
}

/// The expression that starts at token `i`, with the index of the first token
/// after it. At and past the end of the tokens this is the empty value, and
/// the index stays where it is.
fn parse_helper(tokens: &[Token], i: usize) -> (r: Result<(Expr, usize), JreplErr>)
    ensures
        parsed_at(r, parse_at(views(tokens@), i as nat)),
        r matches Ok((_, next)) ==> i <= next && (i <= tokens.len() ==> next <= tokens.len()),
    decreases tokens.len() - i,
{
    let ghost ts = views(tokens@);
    proof {
        lemma_parse_advances(ts, i as nat);
    }
    if i >= tokens.len() {
        return Ok((Expr::Nil, i));
    }
    assert(ts[i as int] == tokens@[i as int]@);
    match &tokens[i] {
        Token::OpenParen(_) => {
            let mut items: Vec<Expr> = Vec::new();
            let mut at: usize = i + 1;
            let mut open = true;
            while open && at < tokens.len()
                invariant
                    i < at <= tokens.len(),
                    ts == views(tokens@),
                    ts[i as int].kind == TokenKind::OpenParen,
                    parse_items(ts, (i + 1) as nat) == continued(
                        expr_views(items@),
                        if open {
                            parse_items(ts, at as nat)
                        } else {
                            Ok((Seq::empty(), at as nat))
                        },
                    ),
                decreases tokens.len() - at,
            {
                assert(ts[at as int] == tokens@[at as int]@);
                match &tokens[at] {
                    Token::CloseParen(_) => {
                        at = at + 1;
                        open = false;
                    },
                    Token::Comment(_) => {
                        at = at + 1;
                    },
                    _ => {
                        proof {
                            lemma_parse_advances(ts, at as nat);
                        }
                        let ghost before = expr_views(items@);
                        match parse_helper(tokens, at) {
                            Ok((item, next)) => {
                                items.push(item);
                                proof {
                                    assert(expr_views(items@) =~= before.push(item@));
                                    match parse_items(ts, next as nat) {
                                        Ok((rest, end)) => {
                                            assert(before.push(item@) + rest =~= before + (seq![
                                                item@,
                                            ] + rest));
                                        },
                                        Err(_) => {},
                                    }
                                }
                                at = next;
                            },
                            Err(e) => {
                                assert(parse_items(ts, at as nat) is Err);
                                assert(parse_at(ts, i as nat) is Err);
                                return Err(e);
                            },
                        }
                    },
                }
            }
            proof {
                lemma_list_view(items);
                assert(expr_views(items@) + Seq::<ExprView>::empty() =~= expr_views(items@));
            }
            Ok((Expr::List(items), at))
        },
        Token::CloseParen(_) => Ok((Expr::Nil, i + 1)),
        Token::Comment(_) => parse_helper(tokens, i + 1),
        token => {
            match parse_atom(token) {
                Ok(e) => Ok((e, i + 1)),
                Err(e) => Err(e),
            }
        },
    }
}

/// Parses the first expression of the tokens: a list from an opening
/// parenthesis to the one that closes it, or a single atom. Comments are
/// skipped. No tokens, and a closing parenthesis at the start, give the empty
/// value. A number literal whose text is no numeral is an error.
pub fn parse(tokens: &[Token]) -> (r: Result<Expr, JreplErr>)
    ensures
        parsed(r, parse_spec(views(tokens@))),
{
    match parse_helper(tokens, 0) {
        Ok((e, _)) => Ok(e),
        Err(e) => Err(e),
    }
}

} // verus!
