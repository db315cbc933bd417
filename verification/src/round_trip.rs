//! Rendering and reading back: the text of an expression tokenizes to the
//! expression's tokens.
use crate::lexer::{
    closed_tokens, emit, false_word, initial_state, lex, lex_finish, lex_prefix, lex_step,
    resting_context, tentative_kind, true_word, Context, LexFault, LexState, TokenKind,
    TokenView,
};
use crate::lexer_laws::{
    all_lexable, balanced, continues_word, depth, is_prefix, is_quoted, is_word,
    lemma_lexed_tokens, lemma_prefix_push, lemma_truth_words, lexable, number_memory,
};
use crate::number::{double_text, is_digit, is_digits, is_unsigned_numeral, numeral_value};
use crate::parser::{parse_at, parse_items, parse_spec};
use crate::render::{
    close_token, items_tokens, lemma_parse_gives_parseable, lemma_parse_of_tokens, open_token,
    parseable, prints_back, rendering, text_of, tokens_of,
};
use crate::types::ExprView;
use vstd::prelude::*;

verus! {

/// The state after the characters, read one after the other from the state
/// `s`, or the first fault among them.
pub open spec fn run(s: LexState, chars: Seq<char>) -> Result<LexState, LexFault>
    decreases chars.len(),
{
    if chars.len() == 0 {
        Ok(s)
    } else {
        match lex_step(s, chars[0]) {
            Ok(next) => run(next, chars.drop_first()),
            Err(f) => Err(f),
        }
    }
}

/// What follows a run: the given continuation of its state, or its fault.
pub open spec fn and_then(
    r: Result<LexState, LexFault>,
    next: spec_fn(LexState) -> Result<LexState, LexFault>,
) -> Result<LexState, LexFault> {
    match r {
        Ok(s) => next(s),
        Err(f) => Err(f),
    }
}

/// Reading one more character after a run is a step from where the run ended.
pub proof fn lemma_run_push(s: LexState, chars: Seq<char>, c: char)
    ensures
        run(s, chars.push(c)) == and_then(run(s, chars), |end: LexState| lex_step(end, c)),
    decreases chars.len(),
{
    reveal_with_fuel(run, 2);
    if chars.len() == 0 {
        assert(chars.push(c).drop_first() =~= Seq::<char>::empty());
    } else {
        assert(chars.push(c).drop_first() =~= chars.drop_first().push(c));
        if let Ok(next) = lex_step(s, chars[0]) {
            lemma_run_push(next, chars.drop_first(), c);
        }
    }
}

/// Reading two texts in a row is reading the second from where the first
/// ended.
pub proof fn lemma_run_concat(s: LexState, a: Seq<char>, b: Seq<char>)
    ensures
        run(s, a + b) == and_then(run(s, a), |end: LexState| run(end, b)),
    decreases a.len(),
{
    if a.len() == 0 {
        assert(a + b =~= b);
    } else {
        assert((a + b).drop_first() =~= a.drop_first() + b);
        if let Ok(next) = lex_step(s, a[0]) {
            lemma_run_concat(next, a.drop_first(), b);
        }
    }
}

/// The tokenizer's state after the first `n` characters is where a run from
/// the start over them ends.
pub proof fn lemma_prefix_is_run(input: Seq<char>, n: nat)
    requires
        n <= input.len(),
    ensures
        lex_prefix(input, n) == run(initial_state(), input.take(n as int)),
    decreases n,
{
    if n > 0 {
        lemma_prefix_is_run(input, (n - 1) as nat);
        assert(input.take(n as int) =~= input.take(n - 1).push(input[n - 1]));
        lemma_run_push(initial_state(), input.take(n - 1), input[n - 1]);
    }
}

/// A state between tokens.
pub open spec fn resting(s: LexState) -> bool {
    s.memory.len() == 0 && s.context == resting_context(s.balance)
}

/// The state between tokens after one more token.
pub open spec fn after_token(s: LexState, t: TokenView) -> LexState {
    let balance = match t.kind {
        TokenKind::OpenParen => s.balance + 1,
        TokenKind::CloseParen => (s.balance - 1) as nat,
        _ => s.balance,
    };
    LexState {
        tokens: s.tokens.push(t),
        context: resting_context(balance),
        memory: Seq::empty(),
        balance,
    }
}

/// The context in which the tokenizer is after the characters of a word.
pub open spec fn word_context(m: Seq<char>) -> Context {
    if is_prefix(m, true_word()) {
        Context::SymbolOrTrue
    } else if is_prefix(m, false_word()) {
        Context::SymbolOrFalse
    } else {
        Context::Symbol
    }
}

/// The state inside a token, of which the given characters were read.
pub open spec fn inside(s: LexState, memory: Seq<char>, context: Context) -> LexState {
    LexState { memory, context, ..s }
}

/// The kind of the token that a word becomes.
pub open spec fn word_kind(w: Seq<char>) -> TokenKind {
    if w == true_word() || w == false_word() {
        TokenKind::BoolLiteral
    } else {
        TokenKind::Symbol
    }
}

/// After the first `n` characters of a word, read from a state between
/// tokens, the tokenizer holds them and is inside a word.
proof fn lemma_run_word(s: LexState, w: Seq<char>, n: nat)
    requires
        resting(s),
        is_word(w),
        1 <= n <= w.len(),
    ensures
        run(s, w.take(n as int)) == Ok::<LexState, LexFault>(
            inside(s, w.take(n as int), word_context(w.take(n as int))),
        ),
    decreases n,
{
    reveal_with_fuel(run, 2);
    let t = true_word();
    let f = false_word();
    if n == 1 {
        let c = w[0];
        let m = w.take(1);
        assert(m =~= seq![c]);
        assert(m.drop_first() =~= Seq::<char>::empty());
        assert(s.memory.push(c) =~= m);
        assert(is_prefix(m, t) <==> c == 't') by {
            assert(t.take(1) =~= seq!['t']);
            if c == 't' {
                assert(t.take(1) =~= m);
            } else {
                assert(t.take(1)[0] != m[0]);
            }
        }
        assert(is_prefix(m, f) <==> c == 'f') by {
            assert(f.take(1) =~= seq!['f']);
            if c == 'f' {
                assert(f.take(1) =~= m);
            } else {
                assert(f.take(1)[0] != m[0]);
            }
        }
    } else {
        lemma_run_word(s, w, (n - 1) as nat);
        let m = w.take(n - 1);
        let c = w[n - 1];
        assert(w.take(n as int) =~= m.push(c));
        lemma_run_push(s, m, c);
        let before = inside(s, m, word_context(m));
        assert(continues_word(m, c));
        lemma_prefix_push(m, c, t);
        lemma_prefix_push(m, c, f);
        assert(!(is_prefix(m, t) && is_prefix(m, f))) by {
            if is_prefix(m, t) && is_prefix(m, f) {
                assert(t.take(m.len() as int)[0] == m[0]);
                assert(f.take(m.len() as int)[0] == m[0]);
            }
        }
        assert(lex_step(before, c) == Ok::<LexState, LexFault>(
            inside(s, m.push(c), word_context(m.push(c))),
        ));
    }
}

/// A word followed by a blank, read from a state between tokens, becomes
/// one token, and so does a word at the end of the input.
proof fn lemma_lex_word(s: LexState, w: Seq<char>)
    requires
        resting(s),
        is_word(w),
    ensures
        run(s, w.push(' ')) == Ok::<LexState, LexFault>(
            after_token(s, TokenView { kind: word_kind(w), text: w }),
        ),
        and_finish(run(s, w)) == closed_tokens(
            after_token(s, TokenView { kind: word_kind(w), text: w }),
        ),
{
    let t = true_word();
    let f = false_word();
    lemma_run_word(s, w, w.len());
    assert(w.take(w.len() as int) =~= w);
    lemma_run_push(s, w, ' ');
    let end = inside(s, w, word_context(w));
    assert(is_prefix(w, t) && w.len() == t.len() ==> w == t) by {
        assert(t.take(t.len() as int) =~= t);
    }
    assert(is_prefix(w, f) && w.len() == f.len() ==> w == f) by {
        assert(f.take(f.len() as int) =~= f);
    }
    assert(w == t ==> is_prefix(w, t)) by {
        assert(t.take(t.len() as int) =~= t);
    }
    assert(w == f ==> is_prefix(w, f) && !is_prefix(w, t)) by {
        assert(f.take(f.len() as int) =~= f);
    }
    let kind = match word_context(w) {
        Context::SymbolOrTrue => tentative_kind(w, t),
        Context::SymbolOrFalse => tentative_kind(w, f),
        _ => TokenKind::Symbol,
    };
    assert(kind == word_kind(w));
    assert(emit(end, kind) == after_token(s, TokenView { kind: word_kind(w), text: w }));
}

/// The tokens at the end of a run, or its fault.
pub open spec fn and_finish(r: Result<LexState, LexFault>) -> Result<Seq<TokenView>, LexFault> {
    match r {
        Ok(s) => lex_finish(s),
        Err(f) => Err(f),
    }
}

/// A numeral holds digits and at most one point, starts with a digit and
/// ends with one.
proof fn lemma_numeral_shape(w: Seq<char>)
    requires
        is_unsigned_numeral(w),
    ensures
        number_memory(w),
        is_digit(w.last()),
{
    if is_digits(w) {
    } else {
        let k = choose|k: int|
            0 < k < w.len() - 1 && #[trigger] w[k] == '.' && is_digits(w.take(k)) && is_digits(
                w.skip(k + 1),
            );
        assert forall|i: int| 0 <= i < w.len() implies is_digit(#[trigger] w[i]) || w[i]
            == '.' by {
            if i < k {
                assert(w.take(k)[i] == w[i]);
            } else if i > k {
                assert(w.skip(k + 1)[i - k - 1] == w[i]);
            }
        }
        assert forall|i: int, j: int| 0 <= i < j < w.len() implies !(#[trigger] w[i] == '.'
            && #[trigger] w[j] == '.') by {
            if i < k {
                assert(w.take(k)[i] == w[i]);
            } else if i > k {
                assert(w.skip(k + 1)[i - k - 1] == w[i]);
            }
            if j < k {
                assert(w.take(k)[j] == w[j]);
            } else if j > k {
                assert(w.skip(k + 1)[j - k - 1] == w[j]);
            }
        }
        assert(w.take(k)[0] == w[0]);
        assert(w.skip(k + 1)[w.len() - k - 2] == w.last());
    }
}

/// After the first `n` characters of a numeral, read from a state between
/// tokens, the tokenizer holds them and is inside a number.
proof fn lemma_run_number(s: LexState, w: Seq<char>, n: nat)
    requires
        resting(s),
        number_memory(w),
        1 <= n <= w.len(),
    ensures
        run(s, w.take(n as int)) == Ok::<LexState, LexFault>(
            inside(s, w.take(n as int), Context::Number),
        ),
    decreases n,
{
    reveal_with_fuel(run, 2);
    if n == 1 {
        let c = w[0];
        let m = w.take(1);
        assert(m =~= seq![c]);
        assert(m.drop_first() =~= Seq::<char>::empty());
        assert(s.memory.push(c) =~= m);
    } else {
        lemma_run_number(s, w, (n - 1) as nat);
        let m = w.take(n - 1);
        let c = w[n - 1];
        assert(w.take(n as int) =~= m.push(c));
        lemma_run_push(s, m, c);
        if c == '.' {
            if m.contains('.') {
                let i = choose|i: int| 0 <= i < m.len() && m[i] == '.';
                assert(w[i] == '.' && w[n - 1] == '.');
            }
        }
    }
}

/// A numeral followed by a blank, read from a state between tokens, becomes
/// one number literal, and so does a numeral at the end of the input.
proof fn lemma_lex_number(s: LexState, w: Seq<char>)
    requires
        resting(s),
        is_unsigned_numeral(w),
    ensures
        run(s, w.push(' ')) == Ok::<LexState, LexFault>(
            after_token(s, TokenView { kind: TokenKind::NumberLiteral, text: w }),
        ),
        and_finish(run(s, w)) == closed_tokens(
            after_token(s, TokenView { kind: TokenKind::NumberLiteral, text: w }),
        ),
{
    lemma_numeral_shape(w);
    lemma_run_number(s, w, w.len());
    assert(w.take(w.len() as int) =~= w);
    lemma_run_push(s, w, ' ');
}

/// After the first `n` characters of a quoted text, its closing quote not
/// among them, the tokenizer holds them and is inside the quoted text.
proof fn lemma_run_quoted(
    s: LexState,
    w: Seq<char>,
    quote: char,
    context: Context,
    kind: TokenKind,
    n: nat,
)
    requires
        resting(s),
        is_quoted(w, quote),
        1 <= n < w.len(),
        (quote == '"' && context == Context::String && kind == TokenKind::StringLiteral) || (quote
            == '`' && context == Context::Comment && kind == TokenKind::Comment),
    ensures
        run(s, w.take(n as int)) == Ok::<LexState, LexFault>(inside(s, w.take(n as int), context)),
    decreases n,
{
    reveal_with_fuel(run, 2);
    if n == 1 {
        let c = w[0];
        let m = w.take(1);
        assert(m =~= seq![c]);
        assert(m.drop_first() =~= Seq::<char>::empty());
        assert(s.memory.push(c) =~= m);
    } else {
        lemma_run_quoted(s, w, quote, context, kind, (n - 1) as nat);
        let m = w.take(n - 1);
        let c = w[n - 1];
        assert(w.take(n as int) =~= m.push(c));
        lemma_run_push(s, m, c);
    }
}

/// A quoted text, read from a state between tokens, becomes one token.
proof fn lemma_lex_quoted(s: LexState, w: Seq<char>, quote: char, context: Context, kind: TokenKind)
    requires
        resting(s),
        is_quoted(w, quote),
        (quote == '"' && context == Context::String && kind == TokenKind::StringLiteral) || (quote
            == '`' && context == Context::Comment && kind == TokenKind::Comment),
    ensures
        run(s, w) == Ok::<LexState, LexFault>(after_token(s, TokenView { kind, text: w })),
{
    let n = (w.len() - 1) as nat;
    lemma_run_quoted(s, w, quote, context, kind, n);
    let m = w.take(n as int);
    assert(w =~= m.push(quote));
    lemma_run_push(s, m, quote);
}

/// A token that is lexable, read from a state between tokens in which it can
/// stand, is read as that token: followed by a blank, and at the end of the
/// input.
proof fn lemma_lex_token(s: LexState, t: TokenView)
    requires
        resting(s),
        lexable(t),
        t.kind == TokenKind::CloseParen ==> s.balance > 0,
    ensures
        run(s, t.text.push(' ')) == Ok::<LexState, LexFault>(after_token(s, t)),
        and_finish(run(s, t.text)) == closed_tokens(after_token(s, t)),
        resting(after_token(s, t)),
{
    reveal_with_fuel(run, 3);
    match t.kind {
        TokenKind::OpenParen | TokenKind::CloseParen => {
            assert(t.text.drop_first() =~= Seq::<char>::empty());
            assert(s.memory =~= Seq::<char>::empty());
            assert(run(s, t.text) == Ok::<LexState, LexFault>(after_token(s, t)));
            lemma_run_push(s, t.text, ' ');
        },
        TokenKind::Comment => {
            lemma_lex_quoted(s, t.text, '`', Context::Comment, TokenKind::Comment);
            lemma_run_push(s, t.text, ' ');
        },
        TokenKind::StringLiteral => {
            lemma_lex_quoted(s, t.text, '"', Context::String, TokenKind::StringLiteral);
            lemma_run_push(s, t.text, ' ');
        },
        TokenKind::NumberLiteral => {
            lemma_lex_number(s, t.text);
        },
        TokenKind::BoolLiteral => {
            lemma_truth_words();
            lemma_lex_word(s, t.text);
        },
        TokenKind::Symbol => {
            lemma_lex_word(s, t.text);
        },
    }
}

/// The texts of the tokens from the `k`-th on, read from the state that the
/// tokenizer is in after the tokens before them, give all the tokens.
proof fn lemma_lex_tokens_from(s: LexState, tokens: Seq<TokenView>, k: nat)
    requires
        k <= tokens.len(),
        resting(s),
        s.tokens == tokens.take(k as int),
        s.balance == depth(tokens, k),
        all_lexable(tokens),
        balanced(tokens),
    ensures
        and_finish(run(s, text_of(tokens, k))) == Ok::<Seq<TokenView>, LexFault>(tokens),
    decreases tokens.len() - k,
{
    if k == tokens.len() {
        assert(tokens.take(k as int) =~= tokens);
    } else {
        let t = tokens[k as int];
        let next = after_token(s, t);
        assert(depth(tokens, k) >= 0);
        assert(depth(tokens, k + 1) >= 0);
        lemma_lex_token(s, t);
        assert(next.tokens =~= tokens.take(k as int + 1));
        assert(next.balance == depth(tokens, k + 1));
        if k + 1 == tokens.len() {
            assert(tokens.take(k as int + 1) =~= tokens);
        } else {
            let rest = text_of(tokens, k + 1);
            assert(text_of(tokens, k) =~= t.text.push(' ') + rest);
            lemma_run_concat(s, t.text.push(' '), rest);
            lemma_lex_tokens_from(next, tokens, k + 1);
        }
    }
}

/// The text of tokens that are lexable and balanced, with one blank between
/// two of them, tokenizes to those tokens.
pub proof fn lemma_lex_of_text(tokens: Seq<TokenView>)
    requires
        all_lexable(tokens),
        balanced(tokens),
    ensures
        lex(text_of(tokens, 0)) == Ok::<Seq<TokenView>, LexFault>(tokens),
{
    let input = text_of(tokens, 0);
    let start = initial_state();
    lemma_prefix_is_run(input, input.len());
    assert(input.take(input.len() as int) =~= input);
    assert(start.tokens =~= tokens.take(0));
    lemma_lex_tokens_from(start, tokens, 0);
}

/// Blanks between tokens do not matter: the tokens of an accepted input,
/// written with one blank between two of them, tokenize to the same tokens.
pub proof fn lemma_blanks_normalized(input: Seq<char>)
    ensures
        lex(input) matches Ok(tokens) ==> lex(text_of(tokens, 0)) == Ok::<
            Seq<TokenView>,
            LexFault,
        >(tokens),
{
    if let Ok(tokens) = lex(input) {
        lemma_lexed_tokens(input);
        lemma_lex_of_text(tokens);
    }
}

/// Whether the atoms of an expression can be written down: every string is
/// quoted, every symbol is a word other than `true` and `false`, and every
/// number is written as digits with at most one point.
pub open spec fn writable(e: ExprView) -> bool
    decreases e,
{
    match e {
        ExprView::String(s) => is_quoted(s, '"'),
        ExprView::Number(n) => is_unsigned_numeral(double_text(n)),
        ExprView::Symbol(s) => is_word(s) && s != true_word() && s != false_word(),
        ExprView::List(items) => forall|i: int|
            0 <= i < items.len() ==> writable(#[trigger] items[i]),
        _ => true,
    }
}

/// The depths of two rows of tokens in a row: within the first row those of
/// the first row, and after it its whole depth and those of the second row.
proof fn lemma_depth_concat(a: Seq<TokenView>, b: Seq<TokenView>, n: nat)
    requires
        n <= a.len() + b.len(),
    ensures
        n <= a.len() ==> depth(a + b, n) == depth(a, n),
        n >= a.len() ==> depth(a + b, n) == depth(a, a.len()) + depth(b, (n - a.len()) as nat),
    decreases n,
{
    if n > 0 {
        lemma_depth_concat(a, b, (n - 1) as nat);
        if n <= a.len() {
            assert((a + b)[n - 1] == a[n - 1]);
        } else {
            assert((a + b)[n - 1] == b[n - 1 - a.len()]);
        }
    }
}

/// Two balanced rows of tokens in a row are balanced, and lexable if both
/// are.
proof fn lemma_concat_tokens(a: Seq<TokenView>, b: Seq<TokenView>)
    requires
        balanced(a),
        balanced(b),
    ensures
        balanced(a + b),
        all_lexable(a) && all_lexable(b) ==> all_lexable(a + b),
{
    assert forall|n: nat| n <= (a + b).len() implies depth(a + b, n) >= 0 by {
        lemma_depth_concat(a, b, n);
        if n >= a.len() {
            assert(depth(b, (n - a.len()) as nat) >= 0);
        }
    }
    lemma_depth_concat(a, b, (a + b).len());
    if all_lexable(a) && all_lexable(b) {
        assert forall|i: int| 0 <= i < (a + b).len() implies lexable(#[trigger] (a + b)[i]) by {
            if i < a.len() {
                assert((a + b)[i] == a[i]);
            } else {
                assert((a + b)[i] == b[i - a.len()]);
            }
        }
    }
}

/// The tokens of an expression are balanced, and lexable where the
/// expression is writable.
proof fn lemma_tokens_of(e: ExprView)
    ensures
        balanced(tokens_of(e)),
        writable(e) ==> all_lexable(tokens_of(e)),
    decreases e, 0nat,
{
    reveal_with_fuel(depth, 3);
    match e {
        ExprView::List(items) => {
            let inner = items_tokens(items, 0);
            lemma_items_tokens(items, 0);
            let open = seq![open_token()];
            let close = seq![close_token()];
            let tokens = open + inner + close;
            assert(tokens_of(e) == tokens);
            assert(depth(open, 1) == 1);
            assert(depth(close, 1) == -1);
            assert forall|n: nat| n <= tokens.len() implies depth(tokens, n) >= 0 by {
                lemma_depth_concat(open + inner, close, n);
                if n <= (open + inner).len() {
                    lemma_depth_concat(open, inner, n);
                    if n >= 1 {
                        assert(depth(inner, (n - 1) as nat) >= 0);
                    }
                } else {
                    lemma_depth_concat(open, inner, (open + inner).len());
                }
            }
            lemma_depth_concat(open + inner, close, tokens.len());
            lemma_depth_concat(open, inner, (open + inner).len());
            if writable(e) {
                assert(all_lexable(inner));
                assert forall|i: int| 0 <= i < tokens.len() implies lexable(
                    #[trigger] tokens[i],
                ) by {
                    if 1 <= i <= inner.len() {
                        assert(tokens[i] == inner[i - 1]);
                    }
                }
            }
        },
        ExprView::Bool(b) => {},
        _ => {},
    }
}

/// The tokens of the items from the `k`-th on are balanced, and lexable
/// where the items are writable.
proof fn lemma_items_tokens(items: Seq<ExprView>, k: nat)
    ensures
        balanced(items_tokens(items, k)),
        (forall|i: int| 0 <= i < items.len() ==> writable(#[trigger] items[i])) ==> all_lexable(
            items_tokens(items, k),
        ),
    decreases items, items.len() - k,
{
    if k < items.len() {
        lemma_tokens_of(items[k as int]);
        lemma_items_tokens(items, k + 1);
        lemma_concat_tokens(tokens_of(items[k as int]), items_tokens(items, k + 1));
    }
}

/// The rendering of a writable expression tokenizes to the tokens of the
/// expression.
pub proof fn lemma_lex_of_rendering(e: ExprView)
    requires
        writable(e),
    ensures
        lex(rendering(e)) == Ok::<Seq<TokenView>, LexFault>(tokens_of(e)),
{
    lemma_tokens_of(e);
    lemma_lex_of_text(tokens_of(e));
}

/// Reading undoes writing: where the parser can give an expression, its
/// atoms can be written down and its numbers convert back, the rendering of
/// the expression tokenizes and parses to the expression.
pub proof fn lemma_read_of_rendering(e: ExprView)
    requires
        parseable(e),
        writable(e),
        prints_back(e),
    ensures
        lex(rendering(e)) == Ok::<Seq<TokenView>, LexFault>(tokens_of(e)),
        parse_spec(tokens_of(e)) == Ok::<ExprView, Seq<char>>(e),
{
    lemma_lex_of_rendering(e);
    lemma_parse_of_tokens(e);
}

/// Whether the strings and the symbols of an expression can be written
/// down: every string is quoted, and every symbol is a word other than
/// `true` and `false`.
pub open spec fn words_writable(e: ExprView) -> bool
    decreases e,
{
    match e {
        ExprView::String(s) => is_quoted(s, '"'),
        ExprView::Symbol(s) => is_word(s) && s != true_word() && s != false_word(),
        ExprView::List(items) => forall|i: int|
            0 <= i < items.len() ==> words_writable(#[trigger] items[i]),
        _ => true,
    }
}

/// Whether every number of an expression is written as digits with at most
/// one point, and converts back to itself.
pub open spec fn numbers_read_back(e: ExprView) -> bool
    decreases e,
{
    match e {
        ExprView::Number(n) => is_unsigned_numeral(double_text(n)) && numeral_value(double_text(n))
            == Some(n),
        ExprView::List(items) => forall|i: int|
            0 <= i < items.len() ==> numbers_read_back(#[trigger] items[i]),
        _ => true,
    }
}

/// An expression whose words can be written down and whose numbers read
/// back is writable, and its numbers convert back.
proof fn lemma_writable(e: ExprView)
    requires
        words_writable(e),
        numbers_read_back(e),
    ensures
        writable(e),
        prints_back(e),
    decreases e,
{
    match e {
        ExprView::List(items) => {
            assert forall|i: int| 0 <= i < items.len() implies writable(#[trigger] items[i])
                && prints_back(items[i]) by {
                lemma_writable(items[i]);
            }
        },
        _ => {},
    }
}

/// What the parser reads at `i` from lexable tokens has words that can be
/// written down.
proof fn lemma_parsed_words(tokens: Seq<TokenView>, i: nat)
    requires
        all_lexable(tokens),
    ensures
        parse_at(tokens, i) matches Ok((e, _)) ==> words_writable(e),
    decreases tokens.len() - i, 0nat,
{
    if i < tokens.len() {
        assert(lexable(tokens[i as int]));
        match tokens[i as int].kind {
            TokenKind::OpenParen => {
                lemma_parsed_item_words(tokens, i + 1);
            },
            TokenKind::CloseParen => {},
            TokenKind::Comment => {
                lemma_parsed_words(tokens, i + 1);
            },
            _ => {},
        }
    }
}

/// The items that the parser reads from `i` on from lexable tokens have
/// words that can be written down.
proof fn lemma_parsed_item_words(tokens: Seq<TokenView>, i: nat)
    requires
        all_lexable(tokens),
    ensures
        parse_items(tokens, i) matches Ok((items, _)) ==> forall|j: int|
            0 <= j < items.len() ==> words_writable(#[trigger] items[j]),
    decreases tokens.len() - i, 1nat,
{
    if i < tokens.len() {
        match tokens[i as int].kind {
            TokenKind::CloseParen => {},
            TokenKind::Comment => {
                lemma_parsed_item_words(tokens, i + 1);
            },
            _ => {
                lemma_parsed_words(tokens, i);
                if let Ok((first, next)) = parse_at(tokens, i) {
                    if i < next <= tokens.len() {
                        lemma_parsed_item_words(tokens, next);
                        if let Ok((rest, end)) = parse_items(tokens, next) {
                            let items = seq![first] + rest;
                            assert forall|j: int| 0 <= j < items.len() implies words_writable(
                                #[trigger] items[j],
                            ) by {
                                if j > 0 {
                                    assert(items[j] == rest[j - 1]);
                                }
                            }
                        }
                    }
                }
            },
        }
    }
}

/// Tokenizing, parsing and rendering round-trips: the expression that an
/// input parses to has a rendering that tokenizes to the tokens of the
/// expression and parses to the expression again. Comments and blanks of the
/// input leave no trace. This holds where every number of the expression is
/// written as digits with at most one point that convert back to it.
pub proof fn lemma_round_trip_of_input(input: Seq<char>)
    requires
        lex(input) matches Ok(tokens) && parse_spec(tokens) matches Ok(e) && numbers_read_back(e),
    ensures
        lex(input) matches Ok(tokens) && parse_spec(tokens) matches Ok(e) && lex(rendering(e))
            == Ok::<Seq<TokenView>, LexFault>(tokens_of(e)) && parse_spec(tokens_of(e)) == Ok::<
            ExprView,
            Seq<char>,
        >(e),
{
    let tokens = lex(input)->Ok_0;
    let e = parse_spec(tokens)->Ok_0;
    lemma_lexed_tokens(input);
    lemma_parsed_words(tokens, 0);
    lemma_parse_gives_parseable(tokens);
    lemma_writable(e);
    lemma_read_of_rendering(e);
}

} // verus!
