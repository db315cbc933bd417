//! From an expression back to tokens and to text.
use crate::lexer::{false_word, true_word, Token, TokenKind, TokenView};
use crate::number::{double_text, numeral_value};
use crate::parser::{parse_at, parse_items, parse_spec};
use crate::text::views;
use crate::types::{expr_views, lemma_list_view, Expr, ExprView};
use vstd::prelude::*;

verus! {

/// The opening parenthesis.
pub open spec fn open_token() -> TokenView {
    TokenView { kind: TokenKind::OpenParen, text: seq!['('] }
}

/// The closing parenthesis.
pub open spec fn close_token() -> TokenView {
    TokenView { kind: TokenKind::CloseParen, text: seq![')'] }
}

/// The tokens that stand for an expression: none for the empty value, one
/// for each other atom, and for a list its items' tokens between parentheses.
pub open spec fn tokens_of(e: ExprView) -> Seq<TokenView>
    decreases e, 0nat,
{
    match e {
        ExprView::String(s) => seq![TokenView { kind: TokenKind::StringLiteral, text: s }],
        ExprView::Number(n) => seq![
            TokenView { kind: TokenKind::NumberLiteral, text: double_text(n) },
        ],
        ExprView::Bool(b) => seq![
            TokenView {
                kind: TokenKind::BoolLiteral,
                text: if b {
                    true_word()
                } else {
                    false_word()
                },
            },
        ],
        ExprView::Nil => Seq::empty(),
        ExprView::Symbol(s) => seq![TokenView { kind: TokenKind::Symbol, text: s }],
        ExprView::List(items) => seq![open_token()] + items_tokens(items, 0) + seq![
            close_token(),
        ],
    }
}

/// The tokens of the items from the `k`-th on, one item after the other.
pub open spec fn items_tokens(items: Seq<ExprView>, k: nat) -> Seq<TokenView>
    decreases items, items.len() - k,
{
    if k >= items.len() {
        Seq::empty()
    } else {
        tokens_of(items[k as int]) + items_tokens(items, k + 1)
    }
}

/// Whether the parser can give the expression: no empty value stands inside
/// a list.
pub open spec fn parseable(e: ExprView) -> bool
    decreases e,
{
    match e {
        ExprView::List(items) => forall|i: int|
            0 <= i < items.len() ==> !((#[trigger] items[i]) is Nil) && parseable(items[i]),
        _ => true,
    }
}

/// Whether every number in the expression is written as a numeral that
/// converts back to it.
pub open spec fn prints_back(e: ExprView) -> bool
    decreases e,
{
    match e {
        ExprView::Number(n) => numeral_value(double_text(n)) == Some(n),
        ExprView::List(items) => forall|i: int|
            0 <= i < items.len() ==> prints_back(#[trigger] items[i]),
        _ => true,
    }
}

/// An expression other than the empty value has a first token, which is no
/// closing parenthesis and no comment.
proof fn lemma_first_token(e: ExprView)
    requires
        !(e is Nil),
    ensures
        tokens_of(e).len() > 0,
        tokens_of(e)[0].kind != TokenKind::CloseParen,
        tokens_of(e)[0].kind != TokenKind::Comment,
        e is List <==> tokens_of(e)[0].kind == TokenKind::OpenParen,
{
}

/// The `len` tokens from the `i`-th on.
spec fn window(tokens: Seq<TokenView>, i: int, len: int) -> Seq<TokenView> {
    tokens.subrange(i, i + len)
}

/// Where the tokens of an expression stand at `i`, the parser reads the
/// expression there and ends behind them.
proof fn lemma_parse_at_tokens(tokens: Seq<TokenView>, i: int, e: ExprView)
    requires
        !(e is Nil),
        parseable(e),
        prints_back(e),
        0 <= i,
        i + tokens_of(e).len() <= tokens.len(),
        window(tokens, i, tokens_of(e).len() as int) == tokens_of(e),
    ensures
        parse_at(tokens, i as nat) == Ok::<(ExprView, nat), Seq<char>>(
            (e, (i + tokens_of(e).len()) as nat),
        ),
    decreases e, 0nat,
{
    let own = tokens_of(e);
    let n = own.len() as int;
    lemma_first_token(e);
    assert(window(tokens, i, n)[0] == tokens[i]);
    match e {
        ExprView::List(items) => {
            let inner = items_tokens(items, 0);
            let m = inner.len() as int;
            assert(n == m + 2);
            assert(window(tokens, i + 1, m) =~= inner) by {
                assert forall|j: int| 0 <= j < m implies tokens[i + 1 + j] == inner[j] by {
                    assert(own[1 + j] == inner[j]);
                    assert(window(tokens, i, n)[1 + j] == tokens[i + 1 + j]);
                }
            }
            assert(tokens[i + 1 + m] == close_token()) by {
                assert(own[1 + m] == close_token());
                assert(window(tokens, i, n)[1 + m] == tokens[i + 1 + m]);
            }
            lemma_parse_items_tokens(tokens, i + 1, items, 0);
            assert(items.skip(0) =~= items);
        },
        ExprView::Bool(b) => {
            assert(true_word().len() != false_word().len());
        },
        _ => {},
    }
}

/// Where the tokens of the items from the `k`-th on stand at `i`, followed
/// by a closing parenthesis, the parser reads those items there and ends
/// behind the parenthesis.
proof fn lemma_parse_items_tokens(tokens: Seq<TokenView>, i: int, items: Seq<ExprView>, k: nat)
    requires
        k <= items.len(),
        forall|j: int|
            0 <= j < items.len() ==> !((#[trigger] items[j]) is Nil) && parseable(items[j])
                && prints_back(items[j]),
        0 <= i,
        i + items_tokens(items, k).len() < tokens.len(),
        window(tokens, i, items_tokens(items, k).len() as int) == items_tokens(items, k),
        tokens[i + items_tokens(items, k).len()] == close_token(),
    ensures
        parse_items(tokens, i as nat) == Ok::<(Seq<ExprView>, nat), Seq<char>>(
            (items.skip(k as int), (i + items_tokens(items, k).len() + 1) as nat),
        ),
    decreases items, items.len() - k,
{
    let rest = items_tokens(items, k);
    let r = rest.len() as int;
    if k >= items.len() {
        assert(items.skip(k as int) =~= Seq::<ExprView>::empty());
    } else {
        let first = items[k as int];
        let own = tokens_of(first);
        let n = own.len() as int;
        let after = items_tokens(items, k + 1);
        let m = after.len() as int;
        assert(rest == own + after);
        lemma_first_token(first);
        assert(tokens[i] == own[0]) by {
            assert(rest[0] == own[0]);
            assert(window(tokens, i, r)[0] == tokens[i]);
        }
        assert(window(tokens, i, n) =~= own) by {
            assert forall|j: int| 0 <= j < n implies tokens[i + j] == own[j] by {
                assert(rest[j] == own[j]);
                assert(window(tokens, i, r)[j] == tokens[i + j]);
            }
        }
        lemma_parse_at_tokens(tokens, i, first);
        let next = i + n;
        assert(window(tokens, next, m) =~= after) by {
            assert forall|j: int| 0 <= j < m implies tokens[next + j] == after[j] by {
                assert(rest[n + j] == after[j]);
                assert(window(tokens, i, r)[n + j] == tokens[next + j]);
            }
        }
        lemma_parse_items_tokens(tokens, next, items, k + 1);
        assert(seq![first] + items.skip(k as int + 1) =~= items.skip(k as int));
    }
}

/// Parsing undoes rendering: the tokens of an expression that the parser can
/// give, and whose numbers are written as numerals that convert back to
/// them, parse to that expression.
pub proof fn lemma_parse_of_tokens(e: ExprView)
    requires
        parseable(e),
        prints_back(e),
    ensures
        parse_spec(tokens_of(e)) == Ok::<ExprView, Seq<char>>(e),
{
    if !(e is Nil) {
        let tokens = tokens_of(e);
        assert(window(tokens, 0, tokens.len() as int) =~= tokens);
        lemma_parse_at_tokens(tokens, 0, e);
    }
}

/// What the parser reads at `i` can be given by the parser: no empty value
/// stands inside a list.
proof fn lemma_parsed_is_parseable(tokens: Seq<TokenView>, i: nat)
    ensures
        parse_at(tokens, i) matches Ok((e, _)) ==> parseable(e) && (i < tokens.len()
            && tokens[i as int].kind != TokenKind::CloseParen && tokens[i as int].kind
            != TokenKind::Comment ==> !(e is Nil)),
        parse_items(tokens, i) matches Ok((items, _)) ==> forall|j: int|
            0 <= j < items.len() ==> !((#[trigger] items[j]) is Nil) && parseable(items[j]),
    decreases tokens.len() - i, 2nat,
{
    if i < tokens.len() {
        lemma_parsed_items(tokens, i);
        match tokens[i as int].kind {
            TokenKind::OpenParen => {
                lemma_parsed_items(tokens, i + 1);
            },
            TokenKind::CloseParen => {},
            TokenKind::Comment => {
                lemma_parsed_is_parseable(tokens, i + 1);
            },
            _ => {},
        }
    }
}

/// The items that the parser reads from `i` on can be given by the parser,
/// and none of them is the empty value.
proof fn lemma_parsed_items(tokens: Seq<TokenView>, i: nat)
    ensures
        parse_items(tokens, i) matches Ok((items, _)) ==> forall|j: int|
            0 <= j < items.len() ==> !((#[trigger] items[j]) is Nil) && parseable(items[j]),
    decreases tokens.len() - i, 1nat,
{
    if i < tokens.len() {
        match tokens[i as int].kind {
            TokenKind::CloseParen => {},
            TokenKind::Comment => {
                lemma_parsed_items(tokens, i + 1);
            },
            _ => {
                lemma_parsed_at(tokens, i);
                if let Ok((first, next)) = parse_at(tokens, i) {
                    if i < next <= tokens.len() {
                        lemma_parsed_items(tokens, next);
                        if let Ok((rest, end)) = parse_items(tokens, next) {
                            let items = seq![first] + rest;
                            assert forall|j: int| 0 <= j < items.len() implies !((
                            #[trigger] items[j]) is Nil) && parseable(items[j]) by {
                                if j > 0 {
                                    assert(items[j] == rest[j - 1]);
                                }
                            }
                        }
                    }
                }
            },
        }
    }
}

/// What the parser reads at a token that starts an expression can be given
/// by the parser, and is not the empty value.
proof fn lemma_parsed_at(tokens: Seq<TokenView>, i: nat)
    requires
        i < tokens.len(),
        tokens[i as int].kind != TokenKind::CloseParen,
        tokens[i as int].kind != TokenKind::Comment,
    ensures
        parse_at(tokens, i) matches Ok((e, _)) ==> parseable(e) && !(e is Nil),
    decreases tokens.len() - i, 0nat,
{
    if tokens[i as int].kind == TokenKind::OpenParen {
        lemma_parsed_items(tokens, i + 1);
    }
}

/// What the parser gives for any tokens can be given by the parser.
pub proof fn lemma_parse_gives_parseable(tokens: Seq<TokenView>)
    ensures
        parse_spec(tokens) matches Ok(e) ==> parseable(e),
{
    lemma_parsed_is_parseable(tokens, 0);
}

/// Parsing, rendering and parsing again gives what parsing gave: the tokens
/// of a parsed expression, on which comments and surplus tokens have left no
/// trace, parse back to that expression. This holds where every number in
/// the expression is written as a numeral that converts back to it.
pub proof fn lemma_round_trip(tokens: Seq<TokenView>)
    requires
        parse_spec(tokens) matches Ok(e) && prints_back(e),
    ensures
        parse_spec(tokens) matches Ok(e) && parse_spec(tokens_of(e)) == Ok::<
            ExprView,
            Seq<char>,
        >(e),
{
    lemma_parse_gives_parseable(tokens);
    lemma_parse_of_tokens(parse_spec(tokens)->Ok_0);
}

/// The texts of the tokens from the `k`-th on, with one blank between two
/// tokens.
pub open spec fn text_of(tokens: Seq<TokenView>, k: nat) -> Seq<char>
    decreases tokens.len() - k,
{
    if k >= tokens.len() {
        Seq::empty()
    } else if k + 1 == tokens.len() {
        tokens[k as int].text
    } else {
        tokens[k as int].text + seq![' '] + text_of(tokens, k + 1)
    }
}

/// The text of an expression: its tokens with one blank between two of them.
pub open spec fn rendering(e: ExprView) -> Seq<char> {
    text_of(tokens_of(e), 0)
}

fn atom_token(kind: TokenKind, text: &String) -> (t: Token)
    ensures
        t@ == (TokenView { kind, text: text@ }),
{
    Token::new(kind, text.clone())
}

/// Appends the tokens of an expression.
fn push_tokens(e: &Expr, out: &mut Vec<Token>)
    ensures
        views(final(out)@) == views(old(out)@) + tokens_of(e@),
    decreases e,
{
    let ghost before = views(out@);
    match e {
        Expr::String(s) => {
            let t = atom_token(TokenKind::StringLiteral, s);
            out.push(t);
            assert(views(out@) =~= before + tokens_of(e@));
        },
        Expr::Number(n) => {
            let t = Token::new(TokenKind::NumberLiteral, n.to_text());
            out.push(t);
            assert(views(out@) =~= before + tokens_of(e@));
        },
        Expr::Bool(b) => {
            let word = if *b {
                String::from_str("true")
            } else {
                String::from_str("false")
            };
            proof {
                reveal_strlit("true");
                reveal_strlit("false");
                assert("true"@ =~= true_word());
                assert("false"@ =~= false_word());
            }
            let t = Token::new(TokenKind::BoolLiteral, word);
            out.push(t);
            assert(views(out@) =~= before + tokens_of(e@));
        },
        Expr::Nil => {
            assert(views(out@) =~= before + tokens_of(e@));
        },
        Expr::Symbol(s) => {
            let t = atom_token(TokenKind::Symbol, s);
            out.push(t);
            assert(views(out@) =~= before + tokens_of(e@));
        },
        Expr::List(items) => {
            proof {
                lemma_list_view(*items);
            }
            let ghost all = expr_views(items@);
            let mut open = String::new();
            open.push('(');
            assert(open@ =~= seq!['(']);
            out.push(Token::new(TokenKind::OpenParen, open));
            assert(views(out@) =~= before + seq![open_token()]);
            let mut i: usize = 0;
            while i < items.len()
                invariant
                    i <= items.len(),
                    e matches Expr::List(list) && list == *items,
                    all == expr_views(items@),
                    views(out@) + items_tokens(all, i as nat) == before + seq![open_token()]
                        + items_tokens(all, 0),
                decreases items.len() - i,
            {
                let ghost so_far = views(out@);
                assert(all[i as int] == items@[i as int]@);
                push_tokens(&items[i], out);
                assert((so_far + tokens_of(all[i as int])) + items_tokens(all, (i + 1) as nat)
                    =~= so_far + items_tokens(all, i as nat));
                i += 1;
            }
            let ghost inner = views(out@);
            assert(inner =~= inner + items_tokens(all, i as nat));
            assert(inner == before + seq![open_token()] + items_tokens(all, 0));
            let mut close = String::new();
            close.push(')');
            assert(close@ =~= seq![')']);
            out.push(Token::new(TokenKind::CloseParen, close));
            assert(views(out@) =~= inner.push(close_token()));
            assert(tokens_of(e@) == seq![open_token()] + items_tokens(all, 0) + seq![
                close_token(),
            ]);
            assert(inner.push(close_token()) =~= before + (seq![open_token()] + items_tokens(
                all,
                0,
            ) + seq![close_token()]));
        },
    }
}

/// The text of the tokens, with one blank between two of them.
pub fn render_tokens(tokens: &[Token]) -> (r: String)
    ensures
        r@ == text_of(views(tokens@), 0),
{
    let ghost all = views(tokens@);
    let mut r = String::new();
    let mut i: usize = 0;
    while i < tokens.len()
        invariant
            i <= tokens.len(),
            all == views(tokens@),
            r@ + text_of(all, i as nat) == text_of(all, 0),
        decreases tokens.len() - i,
    {
        let ghost so_far = r@;
        assert(all[i as int] == tokens@[i as int]@);
        r.append(tokens[i].text().as_str());
        if i + 1 < tokens.len() {
            r.push(' ');
            assert((so_far + all[i as int].text).push(' ') + text_of(all, (i + 1) as nat) =~= so_far
                + text_of(all, i as nat));
        }
        i += 1;
    }
    assert(r@ + text_of(all, i as nat) =~= r@);
    r
}

impl Expr {
    /// The tokens that stand for the expression.
    pub fn to_tokens(&self) -> (r: Vec<Token>)
        ensures
            views(r@) == tokens_of(self@),
    {
        let mut r: Vec<Token> = Vec::new();
        push_tokens(self, &mut r);
        assert(views(r@) =~= Seq::<TokenView>::empty() + tokens_of(self@));
        r
    }

    /// The text of the expression: its tokens with one blank between two of
    /// them.
    pub fn render(&self) -> (r: String)
        ensures
            r@ == rendering(self@),
    {
        let tokens = self.to_tokens();
        render_tokens(tokens.as_slice())
    }
}

} // verus!
