//! What holds of the tokens that the tokenizer gives: their parentheses
//! match, and each of them has a text that reads as one token of its kind.
use crate::lexer::{
    close_list, emit, ends_in_point, false_word, is_blank, is_word_char, lex, lex_prefix,
    lex_step, open_list, remember, step_tentative, step_word, tentative_kind, true_word,
    Context, LexState, TokenKind, TokenView,
};
use crate::number::{is_digit, is_digits, is_unsigned_numeral};
use crate::text::alphabetic;
use vstd::prelude::*;

verus! {

/// The number of lists that are open after the first `n` tokens: the opening
/// parentheses among them less the closing ones.
pub open spec fn depth(tokens: Seq<TokenView>, n: nat) -> int
    decreases n,
{
    if n == 0 || n > tokens.len() {
        0
    } else {
        depth(tokens, (n - 1) as nat) + match tokens[n - 1].kind {
            TokenKind::OpenParen => 1int,
            TokenKind::CloseParen => -1int,
            _ => 0int,
        }
    }
}

/// Whether the parentheses of the tokens match: none closes a list that is
/// not open, and none is left open.
pub open spec fn balanced(tokens: Seq<TokenView>) -> bool {
    &&& depth(tokens, tokens.len()) == 0
    &&& forall|n: nat| n <= tokens.len() ==> depth(tokens, n) >= 0
}

/// Whether the text starts with the prefix.
pub open spec fn is_prefix(prefix: Seq<char>, text: Seq<char>) -> bool {
    prefix.len() <= text.len() && text.take(prefix.len() as int) == prefix
}

/// Whether `c` is the character of `target` that follows the prefix.
pub open spec fn next_of(prefix: Seq<char>, target: Seq<char>, c: char) -> bool {
    is_prefix(prefix, target) && prefix.len() < target.len() && c == target[prefix.len() as int]
}

/// A character that starts a word: `t`, `f` or an alphabetic character, and
/// none that starts another token.
pub open spec fn starts_word(c: char) -> bool {
    &&& c == 't' || c == 'f' || alphabetic(c)
    &&& c != '(' && c != ')' && c != '"' && c != '`' && !is_blank(c) && !is_digit(c)
}

/// A character that goes on with a word after the prefix: an alphabetic or
/// numeric character, or the next character of `true` or `false`, and none
/// that ends the word.
pub open spec fn continues_word(prefix: Seq<char>, c: char) -> bool {
    &&& !is_blank(c) && c != '(' && c != ')'
    &&& is_word_char(c) || next_of(prefix, true_word(), c) || next_of(prefix, false_word(), c)
}

/// A word: what the tokenizer reads as one symbol or truth value.
pub open spec fn is_word(w: Seq<char>) -> bool {
    &&& w.len() > 0
    &&& starts_word(w[0])
    &&& forall|i: int| 1 <= i < w.len() ==> continues_word(w.take(i), #[trigger] w[i])
}

/// A text between two quoting characters, with none of them inside.
pub open spec fn is_quoted(text: Seq<char>, quote: char) -> bool {
    &&& text.len() >= 2
    &&& text[0] == quote
    &&& text.last() == quote
    &&& forall|i: int| 0 < i < text.len() - 1 ==> #[trigger] text[i] != quote
}

/// A token as the tokenizer gives it: its text is what the tokenizer reads
/// as one token of its kind.
pub open spec fn lexable(t: TokenView) -> bool {
    match t.kind {
        TokenKind::OpenParen => t.text == seq!['('],
        TokenKind::CloseParen => t.text == seq![')'],
        TokenKind::Comment => is_quoted(t.text, '`'),
        TokenKind::StringLiteral => is_quoted(t.text, '"'),
        TokenKind::NumberLiteral => is_unsigned_numeral(t.text),
        TokenKind::BoolLiteral => t.text == true_word() || t.text == false_word(),
        TokenKind::Symbol => is_word(t.text) && t.text != true_word() && t.text != false_word(),
    }
}

/// Whether every token is lexable.
pub open spec fn all_lexable(tokens: Seq<TokenView>) -> bool {
    forall|i: int| 0 <= i < tokens.len() ==> lexable(#[trigger] tokens[i])
}

/// What the characters of a number hold while it is being read: they start
/// with a digit, and hold digits and at most one point.
pub open spec fn number_memory(m: Seq<char>) -> bool {
    &&& m.len() > 0
    &&& is_digit(m[0])
    &&& forall|i: int| 0 <= i < m.len() ==> is_digit(#[trigger] m[i]) || m[i] == '.'
    &&& forall|i: int, j: int|
        0 <= i < j < m.len() ==> !(#[trigger] m[i] == '.' && #[trigger] m[j] == '.')
}

/// What holds of the parentheses in every state that the tokenizer reaches:
/// as many lists are open as the tokens say, and none was closed that was
/// not open.
spec fn nested(s: LexState) -> bool {
    &&& depth(s.tokens, s.tokens.len()) == s.balance
    &&& forall|n: nat| n <= s.tokens.len() ==> depth(s.tokens, n) >= 0
}

proof fn lemma_depth_push(tokens: Seq<TokenView>, t: TokenView, n: nat)
    requires
        n <= tokens.len(),
    ensures
        depth(tokens.push(t), n) == depth(tokens, n),
    decreases n,
{
    if n > 0 {
        lemma_depth_push(tokens, t, (n - 1) as nat);
    }
}

/// What one more token does to the depths.
proof fn lemma_push_token(tokens: Seq<TokenView>, t: TokenView)
    requires
        forall|n: nat| n <= tokens.len() ==> depth(tokens, n) >= 0,
        t.kind == TokenKind::CloseParen ==> depth(tokens, tokens.len()) > 0,
    ensures
        depth(tokens.push(t), tokens.len() + 1) == depth(tokens, tokens.len()) + match t.kind {
            TokenKind::OpenParen => 1int,
            TokenKind::CloseParen => -1int,
            _ => 0int,
        },
        forall|n: nat| n <= tokens.len() + 1 ==> depth(tokens.push(t), n) >= 0,
{
    let after = tokens.push(t);
    lemma_depth_push(tokens, t, tokens.len());
    assert(depth(tokens, tokens.len()) >= 0);
    assert forall|n: nat| n <= tokens.len() + 1 implies depth(after, n) >= 0 by {
        if n <= tokens.len() {
            lemma_depth_push(tokens, t, n);
        }
    }
}

proof fn lemma_emit_nested(s: LexState, kind: TokenKind)
    requires
        nested(s),
        kind != TokenKind::OpenParen,
        kind != TokenKind::CloseParen,
    ensures
        nested(emit(s, kind)),
{
    lemma_push_token(s.tokens, TokenView { kind, text: s.memory });
}

proof fn lemma_open_nested(s: LexState)
    requires
        nested(s),
    ensures
        nested(open_list(s)),
{
    lemma_push_token(s.tokens, TokenView { kind: TokenKind::OpenParen, text: seq!['('] });
}

proof fn lemma_close_nested(s: LexState)
    requires
        nested(s),
    ensures
        close_list(s) matches Ok(next) ==> nested(next),
{
    if s.balance > 0 {
        lemma_push_token(s.tokens, TokenView { kind: TokenKind::CloseParen, text: seq![')'] });
    }
}

proof fn lemma_word_nested(s: LexState, c: char, kind: TokenKind, word: bool)
    requires
        nested(s),
        kind == TokenKind::Symbol || kind == TokenKind::BoolLiteral,
    ensures
        step_word(s, c, kind, word) matches Ok(next) ==> nested(next),
{
    lemma_emit_nested(s, kind);
    lemma_open_nested(emit(s, kind));
    lemma_close_nested(emit(s, kind));
}

/// One step of the tokenizer keeps what holds of the parentheses.
proof fn lemma_step_nested(s: LexState, c: char)
    requires
        nested(s),
    ensures
        lex_step(s, c) matches Ok(next) ==> nested(next),
{
    match s.context {
        Context::Init | Context::List => {
            lemma_open_nested(s);
            lemma_close_nested(s);
        },
        Context::Comment => {
            lemma_emit_nested(remember(s, c, s.context), TokenKind::Comment);
        },
        Context::String => {
            lemma_emit_nested(remember(s, c, s.context), TokenKind::StringLiteral);
        },
        Context::Number => {
            lemma_emit_nested(s, TokenKind::NumberLiteral);
            lemma_close_nested(emit(s, TokenKind::NumberLiteral));
        },
        Context::Symbol => {
            lemma_word_nested(s, c, TokenKind::Symbol, is_word_char(c));
        },
        Context::SymbolOrTrue => {
            lemma_word_nested(s, c, tentative_kind(s.memory, true_word()), is_word_char(c));
        },
        Context::SymbolOrFalse => {
            lemma_word_nested(s, c, tentative_kind(s.memory, false_word()), is_word_char(c));
        },
    }
}

/// What holds of the parentheses holds in every state that the tokenizer
/// reaches.
proof fn lemma_prefix_nested(input: Seq<char>, n: nat)
    ensures
        lex_prefix(input, n) matches Ok(s) ==> nested(s),
    decreases n,
{
    if n > 0 {
        lemma_prefix_nested(input, (n - 1) as nat);
        if let Ok(s) = lex_prefix(input, (n - 1) as nat) {
            lemma_step_nested(s, input[n - 1]);
        }
    }
}

/// A number that does not end in its point is a numeral.
pub proof fn lemma_number_memory(m: Seq<char>)
    requires
        number_memory(m),
        !ends_in_point(m),
    ensures
        is_unsigned_numeral(m),
{
    if m.contains('.') {
        let k = choose|k: int| 0 <= k < m.len() && m[k] == '.';
        assert(0 < k < m.len() - 1);
        assert forall|i: int| 0 <= i < m.take(k).len() implies is_digit(
            #[trigger] m.take(k)[i],
        ) by {
            assert(m.take(k)[i] == m[i]);
            assert(!(m[i] == '.' && m[k] == '.'));
        }
        assert forall|i: int| 0 <= i < m.skip(k + 1).len() implies is_digit(
            #[trigger] m.skip(k + 1)[i],
        ) by {
            assert(m.skip(k + 1)[i] == m[k + 1 + i]);
            assert(!(m[k] == '.' && m[k + 1 + i] == '.'));
        }
        assert(is_digits(m.take(k)));
        assert(is_digits(m.skip(k + 1)));
    } else {
        assert forall|i: int| 0 <= i < m.len() implies is_digit(#[trigger] m[i]) by {
            if m[i] == '.' {
                assert(m.contains('.'));
            }
        }
        assert(is_digits(m));
    }
}

/// The words `true` and `false` are words.
pub proof fn lemma_truth_words()
    ensures
        is_word(true_word()),
        is_word(false_word()),
{
    let t = true_word();
    assert forall|i: int| 1 <= i < t.len() implies continues_word(t.take(i), #[trigger] t[i]) by {
        assert(t.take(t.take(i).len() as int) =~= t.take(i));
        assert(next_of(t.take(i), t, t[i]));
    }
    let f = false_word();
    assert forall|i: int| 1 <= i < f.len() implies continues_word(f.take(i), #[trigger] f[i]) by {
        assert(f.take(f.take(i).len() as int) =~= f.take(i));
        assert(next_of(f.take(i), f, f[i]));
    }
}

/// A prefix of a word that goes on with the next character of the word is
/// again a prefix; one that goes on otherwise is none.
pub proof fn lemma_prefix_push(m: Seq<char>, c: char, target: Seq<char>)
    requires
        m.len() > 0,
    ensures
        is_prefix(m.push(c), target) <==> next_of(m, target, c),
{
    let longer = m.push(c);
    if is_prefix(longer, target) {
        assert(target.take(m.len() as int) =~= m) by {
            assert forall|i: int| 0 <= i < m.len() implies target[i] == m[i] by {
                assert(target.take(longer.len() as int)[i] == longer[i]);
            }
        }
        assert(target.take(longer.len() as int)[m.len() as int] == longer[m.len() as int]);
    }
    if next_of(m, target, c) {
        assert(target.take(longer.len() as int) =~= longer) by {
            assert forall|i: int| 0 <= i < longer.len() implies target[i] == longer[i] by {
                if i < m.len() {
                    assert(target.take(m.len() as int)[i] == m[i]);
                }
            }
        }
    }
}

/// What the characters of a quoted text hold while it is being read: the
/// quoting character, and then none of its kind.
pub open spec fn quoted_so_far(m: Seq<char>, quote: char) -> bool {
    &&& m.len() > 0
    &&& m[0] == quote
    &&& forall|i: int| 0 < i < m.len() ==> #[trigger] m[i] != quote
}

/// What holds of every state that the tokenizer reaches: the tokens read so
/// far are lexable, and the characters of the token that is being read are
/// the beginning of a token of its kind.
spec fn readable(s: LexState) -> bool {
    &&& all_lexable(s.tokens)
    &&& match s.context {
        Context::Init | Context::List => s.memory.len() == 0,
        Context::Comment => quoted_so_far(s.memory, '`'),
        Context::String => quoted_so_far(s.memory, '"'),
        Context::Number => number_memory(s.memory),
        Context::Symbol => is_word(s.memory) && !is_prefix(s.memory, true_word()) && !is_prefix(
            s.memory,
            false_word(),
        ),
        Context::SymbolOrTrue => is_word(s.memory) && is_prefix(s.memory, true_word()),
        Context::SymbolOrFalse => is_word(s.memory) && is_prefix(s.memory, false_word()),
    }
}

proof fn lemma_lexable_push(tokens: Seq<TokenView>, t: TokenView)
    requires
        all_lexable(tokens),
        lexable(t),
    ensures
        all_lexable(tokens.push(t)),
{
    assert forall|i: int| 0 <= i < tokens.push(t).len() implies lexable(
        #[trigger] tokens.push(t)[i],
    ) by {
        if i < tokens.len() {
            assert(tokens.push(t)[i] == tokens[i]);
        }
    }
}

/// A word that goes on with a character that continues it is a word.
proof fn lemma_word_push(m: Seq<char>, c: char)
    requires
        is_word(m),
        continues_word(m, c),
    ensures
        is_word(m.push(c)),
{
    let w = m.push(c);
    assert forall|i: int| 1 <= i < w.len() implies continues_word(w.take(i), #[trigger] w[i]) by {
        if i < m.len() {
            assert(w.take(i) =~= m.take(i));
            assert(w[i] == m[i]);
        } else {
            assert(w.take(i) =~= m);
        }
    }
}

/// A whole word is a prefix of itself, and a prefix of a word of its own
/// length is the word.
proof fn lemma_whole_prefix(m: Seq<char>, target: Seq<char>)
    ensures
        m == target ==> is_prefix(m, target),
        is_prefix(m, target) && m.len() == target.len() ==> m == target,
{
    assert(target.take(target.len() as int) =~= target);
}

/// The state after a word has become a token, an opening parenthesis has
/// been read after it, or a closing one.
proof fn lemma_word_ends(s: LexState, c: char, kind: TokenKind)
    requires
        all_lexable(s.tokens),
        lexable(TokenView { kind, text: s.memory }),
        kind == TokenKind::Symbol || kind == TokenKind::BoolLiteral,
        is_blank(c) || c == '(' || c == ')',
    ensures
        step_word(s, c, kind, is_word_char(c)) matches Ok(next) ==> readable(next),
{
    let t = TokenView { kind, text: s.memory };
    lemma_lexable_push(s.tokens, t);
    let emitted = emit(s, kind);
    lemma_lexable_push(
        emitted.tokens,
        TokenView { kind: TokenKind::OpenParen, text: seq!['('] },
    );
    lemma_lexable_push(
        emitted.tokens,
        TokenView { kind: TokenKind::CloseParen, text: seq![')'] },
    );
}

/// One step of the tokenizer keeps what holds of its states.
proof fn lemma_step_readable(s: LexState, c: char)
    requires
        readable(s),
    ensures
        lex_step(s, c) matches Ok(next) ==> readable(next),
{
    let t = true_word();
    let f = false_word();
    let m = s.memory;
    let word = is_word_char(c);
    match s.context {
        Context::Init | Context::List => {
            lemma_lexable_push(
                s.tokens,
                TokenView { kind: TokenKind::OpenParen, text: seq!['('] },
            );
            lemma_lexable_push(
                s.tokens,
                TokenView { kind: TokenKind::CloseParen, text: seq![')'] },
            );
            let one = m.push(c);
            assert(one =~= seq![c]);
            if c == '(' || c == ')' || is_blank(c) {
            } else if c == '"' || c == '`' {
            } else if is_digit(c) {
            } else {
                assert(t.take(1) =~= seq!['t']);
                assert(f.take(1) =~= seq!['f']);
                assert(is_prefix(one, t) <==> c == 't') by {
                    if c == 't' {
                        assert(t.take(1) =~= one);
                    } else {
                        assert(t.take(1)[0] != one[0]);
                    }
                }
                assert(is_prefix(one, f) <==> c == 'f') by {
                    if c == 'f' {
                        assert(f.take(1) =~= one);
                    } else {
                        assert(f.take(1)[0] != one[0]);
                    }
                }
                if c == 't' || c == 'f' || alphabetic(c) {
                    assert(is_word(one));
                }
            }
        },
        Context::Comment => {
            let more = m.push(c);
            if c == '`' {
                assert(is_quoted(more, '`'));
                lemma_lexable_push(s.tokens, TokenView { kind: TokenKind::Comment, text: more });
            } else {
                assert(quoted_so_far(more, '`'));
            }
        },
        Context::String => {
            let more = m.push(c);
            if c == '"' {
                assert(is_quoted(more, '"'));
                lemma_lexable_push(
                    s.tokens,
                    TokenView { kind: TokenKind::StringLiteral, text: more },
                );
            } else {
                assert(quoted_so_far(more, '"'));
            }
        },
        Context::Number => {
            if c == ')' || is_blank(c) {
                if !ends_in_point(m) {
                    lemma_number_memory(m);
                    let token = TokenView { kind: TokenKind::NumberLiteral, text: m };
                    lemma_lexable_push(s.tokens, token);
                    lemma_lexable_push(
                        s.tokens.push(token),
                        TokenView { kind: TokenKind::CloseParen, text: seq![')'] },
                    );
                }
            } else if is_digit(c) || (c == '.' && !m.contains('.')) {
                let more = m.push(c);
                assert forall|i: int, j: int| 0 <= i < j < more.len() implies !(
                #[trigger] more[i] == '.' && #[trigger] more[j] == '.') by {
                    if j == more.len() - 1 && more[j] == '.' && more[i] == '.' {
                        assert(m[i] == '.');
                        assert(m.contains('.'));
                    }
                }
                assert(number_memory(more));
            }
        },
        Context::Symbol => {
            if is_blank(c) || c == '(' || c == ')' {
                lemma_whole_prefix(m, t);
                lemma_whole_prefix(m, f);
                lemma_word_ends(s, c, TokenKind::Symbol);
            } else if word {
                lemma_word_push(m, c);
                lemma_prefix_push(m, c, t);
                lemma_prefix_push(m, c, f);
            }
        },
        Context::SymbolOrTrue => {
            lemma_tentative_readable(s, c, t, f);
        },
        Context::SymbolOrFalse => {
            lemma_tentative_readable(s, c, f, t);
        },
    }
}

/// One step inside a word that so far spells the beginning of `target`, the
/// one of `true` and `false`, `other` being the other one.
proof fn lemma_tentative_readable(s: LexState, c: char, target: Seq<char>, other: Seq<char>)
    requires
        all_lexable(s.tokens),
        is_word(s.memory),
        is_prefix(s.memory, target),
        (target == true_word() && other == false_word() && s.context == Context::SymbolOrTrue) || (
        target == false_word() && other == true_word() && s.context == Context::SymbolOrFalse),
    ensures
        step_tentative(s, c, target, is_word_char(c)) matches Ok(next) ==> readable(next),
{
    let m = s.memory;
    let word = is_word_char(c);
    assert(!is_prefix(m, other)) by {
        if is_prefix(m, other) {
            assert(target.take(m.len() as int)[0] == m[0]);
            assert(other.take(m.len() as int)[0] == m[0]);
        }
    }
    lemma_prefix_push(m, c, target);
    lemma_prefix_push(m, c, other);
    if m.len() < target.len() && c == target[m.len() as int] {
        assert(next_of(m, target, c));
        lemma_word_push(m, c);
    } else if is_blank(c) || c == '(' || c == ')' {
        lemma_whole_prefix(m, target);
        lemma_whole_prefix(m, other);
        lemma_word_ends(s, c, tentative_kind(m, target));
    } else if word {
        lemma_word_push(m, c);
    }
}

/// Every state that the tokenizer reaches is readable.
proof fn lemma_prefix_readable(input: Seq<char>, n: nat)
    ensures
        lex_prefix(input, n) matches Ok(s) ==> readable(s),
    decreases n,
{
    if n > 0 {
        lemma_prefix_readable(input, (n - 1) as nat);
        if let Ok(s) = lex_prefix(input, (n - 1) as nat) {
            lemma_step_readable(s, input[n - 1]);
        }
    }
}

/// The tokens of an accepted input are balanced: an input that closes a list
/// which is not open, or leaves one open, is refused. And they are lexable:
/// each of them has a text that the tokenizer reads as one token of its
/// kind.
pub proof fn lemma_lexed_tokens(input: Seq<char>)
    ensures
        lex(input) matches Ok(tokens) ==> balanced(tokens) && all_lexable(tokens),
{
    lemma_prefix_readable(input, input.len());
    lemma_prefix_nested(input, input.len());
    if let Ok(s) = lex_prefix(input, input.len()) {
        let m = s.memory;
        match s.context {
            Context::Number => {
                if !ends_in_point(m) {
                    lemma_emit_nested(s, TokenKind::NumberLiteral);
                }
            },
            Context::Symbol => {
                lemma_emit_nested(s, TokenKind::Symbol);
            },
            Context::SymbolOrTrue => {
                lemma_emit_nested(s, tentative_kind(m, true_word()));
            },
            Context::SymbolOrFalse => {
                lemma_emit_nested(s, tentative_kind(m, false_word()));
            },
            _ => {},
        }
        match s.context {
            Context::Number => {
                if !ends_in_point(m) {
                    lemma_number_memory(m);
                    lemma_lexable_push(
                        s.tokens,
                        TokenView { kind: TokenKind::NumberLiteral, text: m },
                    );
                }
            },
            Context::Symbol => {
                lemma_whole_prefix(m, true_word());
                lemma_whole_prefix(m, false_word());
                lemma_lexable_push(s.tokens, TokenView { kind: TokenKind::Symbol, text: m });
            },
            Context::SymbolOrTrue => {
                lemma_whole_prefix(m, true_word());
                lemma_whole_prefix(m, false_word());
                assert(!is_prefix(m, false_word())) by {
                    if is_prefix(m, false_word()) {
                        assert(true_word().take(m.len() as int)[0] == m[0]);
                        assert(false_word().take(m.len() as int)[0] == m[0]);
                    }
                }
                lemma_lexable_push(
                    s.tokens,
                    TokenView { kind: tentative_kind(m, true_word()), text: m },
                );
            },
            Context::SymbolOrFalse => {
                lemma_whole_prefix(m, true_word());
                lemma_whole_prefix(m, false_word());
                assert(!is_prefix(m, true_word())) by {
                    if is_prefix(m, true_word()) {
                        assert(true_word().take(m.len() as int)[0] == m[0]);
                        assert(false_word().take(m.len() as int)[0] == m[0]);
                    }
                }
                lemma_lexable_push(
                    s.tokens,
                    TokenView { kind: tentative_kind(m, false_word()), text: m },
                );
            },
            _ => {},
        }
    }
}

} // verus!
