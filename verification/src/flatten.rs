//! The expression that the parser gives, read off as a row of tokens again:
//! it is the row that was parsed, without its comments.
use crate::interpreter::lemma_lexed_input_parses;
use crate::lexer::{lex, true_word, TokenKind, TokenView};
use crate::lexer_laws::{balanced, depth, lemma_lexed_tokens};
use crate::number::numeral_value;
use crate::parser::{lemma_items_advance, lemma_parse_advances, parse_at, parse_items, parse_spec};
use crate::types::ExprView;
use vstd::prelude::*;

verus! {

/// What a token means to the parser: its kind, and of an atom what it
/// stands for.
pub enum Lexeme {
    Open,
    Close,
    Text(Seq<char>),
    Number(Option<u64>),
    Truth(bool),
    Name(Seq<char>),
}

/// What a token other than a comment means.
pub open spec fn lexeme_of(t: TokenView) -> Lexeme {
    match t.kind {
        TokenKind::OpenParen => Lexeme::Open,
        TokenKind::CloseParen => Lexeme::Close,
        TokenKind::StringLiteral => Lexeme::Text(t.text),
        TokenKind::NumberLiteral => Lexeme::Number(numeral_value(t.text)),
        TokenKind::BoolLiteral => Lexeme::Truth(t.text == true_word()),
        _ => Lexeme::Name(t.text),
    }
}

/// What the tokens from the `i`-th up to the `j`-th mean, the comments
/// among them left out.
pub open spec fn meaning(tokens: Seq<TokenView>, i: nat, j: nat) -> Seq<Lexeme>
    decreases j - i,
{
    if i >= j || i >= tokens.len() {
        Seq::empty()
    } else if tokens[i as int].kind == TokenKind::Comment {
        meaning(tokens, i + 1, j)
    } else {
        seq![lexeme_of(tokens[i as int])] + meaning(tokens, i + 1, j)
    }
}

/// An expression as a row of what its tokens mean: nothing for the empty
/// value, one entry for each other atom, and for a list its items between
/// parentheses.
pub open spec fn flat(e: ExprView) -> Seq<Lexeme>
    decreases e, 0nat,
{
    match e {
        ExprView::String(s) => seq![Lexeme::Text(s)],
        ExprView::Number(n) => seq![Lexeme::Number(Some(n))],
        ExprView::Bool(b) => seq![Lexeme::Truth(b)],
        ExprView::Nil => Seq::empty(),
        ExprView::Symbol(s) => seq![Lexeme::Name(s)],
        ExprView::List(items) => seq![Lexeme::Open] + flat_all(items) + seq![Lexeme::Close],
    }
}

/// The expressions of a sequence as one row, one after the other.
pub open spec fn flat_all(items: Seq<ExprView>) -> Seq<Lexeme>
    decreases items, 0nat,
{
    if items.len() == 0 {
        Seq::empty()
    } else {
        flat(items[0]) + flat_all(items.drop_first())
    }
}

/// What a stretch of tokens means is what its two parts mean, one after the
/// other.
proof fn lemma_meaning_split(tokens: Seq<TokenView>, i: nat, k: nat, j: nat)
    requires
        i <= k <= j,
    ensures
        meaning(tokens, i, j) == meaning(tokens, i, k) + meaning(tokens, k, j),
    decreases k - i,
{
    if i < k && i < tokens.len() {
        lemma_meaning_split(tokens, i + 1, k, j);
        assert(meaning(tokens, i, j) =~= meaning(tokens, i, k) + meaning(tokens, k, j));
    } else if i < k {
        assert(meaning(tokens, k, j) =~= Seq::<Lexeme>::empty());
        assert(meaning(tokens, i, j) =~= meaning(tokens, i, k) + meaning(tokens, k, j));
    } else {
        assert(meaning(tokens, i, j) =~= meaning(tokens, i, k) + meaning(tokens, k, j));
    }
}

/// What the parser reads at a token that starts an expression is, read off
/// as a row again, what the tokens of that expression mean; and as many lists
/// are open after them as before.
proof fn lemma_flat_at(tokens: Seq<TokenView>, i: nat)
    requires
        balanced(tokens),
        i < tokens.len(),
        tokens[i as int].kind != TokenKind::CloseParen,
        tokens[i as int].kind != TokenKind::Comment,
    ensures
        parse_at(tokens, i) matches Ok((e, next)) ==> i < next <= tokens.len() && depth(
            tokens,
            next,
        ) == depth(tokens, i) && meaning(tokens, i, next) == flat(e),
    decreases tokens.len() - i, 0nat,
{
    lemma_parse_advances(tokens, i);
    if let Ok((e, next)) = parse_at(tokens, i) {
        assert(depth(tokens, i) >= 0);
        if tokens[i as int].kind == TokenKind::OpenParen {
            lemma_flat_items(tokens, i + 1);
            assert(meaning(tokens, i, next) =~= flat(e));
        } else {
            assert(meaning(tokens, i + 1, next) =~= Seq::<Lexeme>::empty());
            assert(meaning(tokens, i, next) =~= flat(e));
        }
    }
}

/// The items that the parser reads inside a list are, read off as a row
/// again, what the tokens up to the closing parenthesis mean; and one list
/// fewer is open after them.
proof fn lemma_flat_items(tokens: Seq<TokenView>, i: nat)
    requires
        balanced(tokens),
        i <= tokens.len(),
        depth(tokens, i) >= 1,
    ensures
        parse_items(tokens, i) matches Ok((items, next)) ==> i < next <= tokens.len() && depth(
            tokens,
            next,
        ) == depth(tokens, i) - 1 && meaning(tokens, i, next) == flat_all(items) + seq![
            Lexeme::Close,
        ],
    decreases tokens.len() - i, 1nat,
{
    lemma_items_advance(tokens, i);
    if let Ok((items, next)) = parse_items(tokens, i) {
        assert(i < tokens.len());
        match tokens[i as int].kind {
            TokenKind::CloseParen => {
                assert(meaning(tokens, i + 1, next) =~= Seq::<Lexeme>::empty());
                assert(meaning(tokens, i, next) =~= flat_all(items) + seq![Lexeme::Close]);
            },
            TokenKind::Comment => {
                lemma_flat_items(tokens, i + 1);
            },
            _ => {
                lemma_flat_at(tokens, i);
                let first = parse_at(tokens, i)->Ok_0.0;
                let mid = parse_at(tokens, i)->Ok_0.1;
                lemma_flat_items(tokens, mid);
                let rest = parse_items(tokens, mid)->Ok_0.0;
                lemma_meaning_split(tokens, i, mid, next);
                assert(items == seq![first] + rest);
                assert(items.drop_first() =~= rest);
                assert(flat_all(items) == flat(first) + flat_all(rest));
                assert(meaning(tokens, i, next) =~= flat_all(items) + seq![Lexeme::Close]);
            },
        }
    }
}

/// What the parser reads outside every list is, read off as a row again,
/// what the tokens that it read mean.
proof fn lemma_flat_outside(tokens: Seq<TokenView>, i: nat)
    requires
        balanced(tokens),
        i <= tokens.len(),
        depth(tokens, i) == 0,
    ensures
        parse_at(tokens, i) matches Ok((e, next)) ==> i <= next <= tokens.len() && meaning(
            tokens,
            i,
            next,
        ) == flat(e),
    decreases tokens.len() - i, 2nat,
{
    lemma_parse_advances(tokens, i);
    if i < tokens.len() {
        match tokens[i as int].kind {
            TokenKind::CloseParen => {
                assert(depth(tokens, i + 1) >= 0);
            },
            TokenKind::Comment => {
                lemma_flat_outside(tokens, i + 1);
            },
            _ => {
                lemma_flat_at(tokens, i);
            },
        }
    }
}

/// The parser keeps what the tokens mean: the expression that it gives for
/// balanced tokens is, read off as a row of tokens again, the tokens that
/// it read without their comments. A number literal counts by the number
/// that it stands for.
pub proof fn lemma_parsed_flattens(tokens: Seq<TokenView>)
    requires
        balanced(tokens),
    ensures
        parse_at(tokens, 0) matches Ok((e, next)) ==> next <= tokens.len() && meaning(
            tokens,
            0,
            next,
        ) == flat(e),
{
    lemma_flat_outside(tokens, 0);
}

/// Tokens that are one balanced list, from its opening parenthesis to the
/// one that closes it, are read to their end, and the list that the parser
/// gives is, read off as a row of tokens again, those tokens without their
/// comments.
pub proof fn lemma_one_list_flattens(tokens: Seq<TokenView>)
    requires
        balanced(tokens),
        tokens.len() > 0,
        tokens[0].kind == TokenKind::OpenParen,
        forall|k: nat| 0 < k < tokens.len() ==> depth(tokens, k) >= 1,
    ensures
        parse_at(tokens, 0) matches Ok((e, next)) ==> next == tokens.len() && e is List && meaning(
            tokens,
            0,
            tokens.len(),
        ) == flat(e),
{
    lemma_flat_at(tokens, 0);
}

/// Tokenizing and parsing keep what the input says: the tokens of an
/// accepted input parse, and the expression is, read off as a row of tokens
/// again, the tokens that the parser read without their comments.
pub proof fn lemma_lexed_input_flattens(input: Seq<char>)
    ensures
        lex(input) matches Ok(tokens) ==> (parse_at(tokens, 0) matches Ok((e, next)) && next
            <= tokens.len() && meaning(tokens, 0, next) == flat(e)),
{
    if let Ok(tokens) = lex(input) {
        lemma_lexed_tokens(input);
        lemma_lexed_input_parses(input);
        lemma_parsed_flattens(tokens);
        assert(parse_spec(tokens) is Ok);
    }
}

} // verus!
