//! The interpreter's entry point: from a line of input to its effect.
use crate::appstate::{AppState, StateView};
use crate::eval::{eval, eval_spec};
use crate::faults::eval_error;
use crate::lexer::{fault_error, lex, lexer, TokenKind};
use crate::lexer_laws::{lemma_lexed_tokens, lexable};
use crate::number::numeral_value;
use crate::parser::{lemma_parse_refusal, malformed_number, parse, parse_spec};
use crate::types::{error_effect, Effect, EffectView};
use vstd::prelude::*;

verus! {

/// Whether an effect is what a line of input gives in a state: the effect of
/// evaluating the expression that the line parses to, and an effect that is
/// nothing but the error where tokenizing, parsing or evaluation fails.
pub open spec fn interpreted(r: EffectView, state: StateView, input: Seq<char>) -> bool {
    match lex(input) {
        Err(fault) => r == error_effect(fault_error(fault)),
        Ok(tokens) => match parse_spec(tokens) {
            Err(text) => r == error_effect(malformed_number(text)),
            Ok(e) => match eval_spec(state, e) {
                Ok(effect) => r == effect,
                Err(fault) => r == error_effect(eval_error(fault)),
            },
        },
    }
}

/// Tokenizes, parses and evaluates one line of input. An error at any stage
/// comes back as the effect's error: nothing is evaluated after a lexical or
/// syntactic error.
pub fn interpret(app_state: &AppState, user_input: &str) -> (r: Effect)
    ensures
        interpreted(r@, app_state@, user_input@),
{
    let tokens = match lexer(user_input) {
        Ok(tokens) => tokens,
        Err(err) => {
            return Effect::from_err(err);
        },
    };
    let expr = match parse(tokens.as_slice()) {
        Ok(expr) => expr,
        Err(err) => {
            return Effect::from_err(err);
        },
    };
    match eval(app_state, &expr) {
        Ok(effect) => effect,
        Err(err) => Effect::from_err(err),
    }
}

/// The parser and the tokenizer agree: the tokens of an accepted input
/// parse. Every number literal among them is a numeral, and only a number
/// literal that is none is refused by the parser.
pub proof fn lemma_lexed_input_parses(input: Seq<char>)
    ensures
        lex(input) matches Ok(tokens) ==> parse_spec(tokens) is Ok,
{
    if let Ok(tokens) = lex(input) {
        lemma_lexed_tokens(input);
        lemma_parse_refusal(tokens, 0);
        if let Err(text) = parse_spec(tokens) {
            let k = choose|k: int|
                0 <= k < tokens.len() && (#[trigger] tokens[k]).kind == TokenKind::NumberLiteral
                    && tokens[k].text == text && numeral_value(text) is None;
            assert(lexable(tokens[k]));
        }
    }
}

} // verus!
