//! The tokenizer: a state machine that reads the input one character at a
//! time.
use crate::errors::{ErrKind, ErrView, JreplErr};
use crate::number::is_digit;
use crate::text::{alphabetic, numeric, push_all, string_of, views};
use vstd::prelude::*;

verus! {

/// The kinds of token.
#[derive(Clone, Copy, Debug, PartialEq, Eq, Structural)]
pub enum TokenKind {
    OpenParen,
    CloseParen,
    Comment,
    Symbol,
    StringLiteral,
    NumberLiteral,
    BoolLiteral,
}

/// A token, with its text as it stood in the input. The text of a comment
/// holds its backticks and that of a string literal its quotes.
#[derive(Debug, PartialEq)]
pub enum Token {
    OpenParen(String),
    CloseParen(String),
    Comment(String),
    Symbol(String),
    StringLiteral(String),
    NumberLiteral(String),
    BoolLiteral(String),
}

/// A token as a value: its kind and the characters of its text.
pub struct TokenView {
    pub kind: TokenKind,
    pub text: Seq<char>,
}

impl View for Token {
    type V = TokenView;

    open spec fn view(&self) -> TokenView {
        match self {
            Token::OpenParen(s) => TokenView { kind: TokenKind::OpenParen, text: s@ },
            Token::CloseParen(s) => TokenView { kind: TokenKind::CloseParen, text: s@ },
            Token::Comment(s) => TokenView { kind: TokenKind::Comment, text: s@ },
            Token::Symbol(s) => TokenView { kind: TokenKind::Symbol, text: s@ },
            Token::StringLiteral(s) => TokenView { kind: TokenKind::StringLiteral, text: s@ },
            Token::NumberLiteral(s) => TokenView { kind: TokenKind::NumberLiteral, text: s@ },
            Token::BoolLiteral(s) => TokenView { kind: TokenKind::BoolLiteral, text: s@ },
        }
    }
}

impl Clone for Token {
    fn clone(&self) -> (t: Token)
        ensures
            t@ == self@,
    {
        Token::new(self.kind(), self.text().clone())
    }
}

impl Token {
    /// The token of the given kind with the given text.
    pub fn new(kind: TokenKind, text: String) -> (t: Token)
        ensures
            t@ == (TokenView { kind, text: text@ }),
    {
        match kind {
            TokenKind::OpenParen => Token::OpenParen(text),
            TokenKind::CloseParen => Token::CloseParen(text),
            TokenKind::Comment => Token::Comment(text),
            TokenKind::Symbol => Token::Symbol(text),
            TokenKind::StringLiteral => Token::StringLiteral(text),
            TokenKind::NumberLiteral => Token::NumberLiteral(text),
            TokenKind::BoolLiteral => Token::BoolLiteral(text),
        }
    }

    /// The kind of the token.
    pub fn kind(&self) -> (k: TokenKind)
        ensures
            k == self@.kind,
    {
        match self {
            Token::OpenParen(_) => TokenKind::OpenParen,
            Token::CloseParen(_) => TokenKind::CloseParen,
            Token::Comment(_) => TokenKind::Comment,
            Token::Symbol(_) => TokenKind::Symbol,
            Token::StringLiteral(_) => TokenKind::StringLiteral,
            Token::NumberLiteral(_) => TokenKind::NumberLiteral,
            Token::BoolLiteral(_) => TokenKind::BoolLiteral,
        }
    }

    /// The text of the token.
    pub fn text(&self) -> (s: &String)
        ensures
            s@ == self@.text,
    {
        match self {
            Token::OpenParen(s) => s,
            Token::CloseParen(s) => s,
            Token::Comment(s) => s,
            Token::Symbol(s) => s,
            Token::StringLiteral(s) => s,
            Token::NumberLiteral(s) => s,
            Token::BoolLiteral(s) => s,
        }
    }
}

/// What the tokenizer is in the middle of.
#[derive(Clone, Copy, Debug, PartialEq, Eq, Structural)]
pub enum Context {
    /// Between tokens, outside every list.
    Init,
    /// Between tokens, inside a list.
    List,
    /// Inside a comment, after its opening backtick.
    Comment,
    /// Inside a word that so far spells the beginning of `true`.
    SymbolOrTrue,
    /// Inside a word that so far spells the beginning of `false`.
    SymbolOrFalse,
    /// Inside a symbol.
    Symbol,
    /// Inside a string literal, after its opening quote.
    String,
    /// Inside a number.
    Number,
}

/// Why an input is refused.
pub enum LexFault {
    /// A list is closed that was never opened, or the input ends inside a
    /// list.
    Unbalanced,
    /// A character that cannot stand where it was found, with the token read
    /// so far.
    InvalidChar { c: char, partial: Seq<char> },
    /// A number ends in its decimal point.
    TrailingPoint { partial: Seq<char> },
    /// The input ends inside a string literal.
    UnterminatedString { partial: Seq<char> },
    /// The input ends inside a comment.
    UnterminatedComment { partial: Seq<char> },
}

/// The error that reports a fault: its kind, and a message that names the
/// offending character and the token read so far.
pub open spec fn fault_error(f: LexFault) -> ErrView {
    match f {
        LexFault::Unbalanced => ErrView {
            kind: ErrKind::UnbalancedDelimiter,
            message: "Unbalanced parentheses."@,
        },
        LexFault::InvalidChar { c, partial } => ErrView {
            kind: ErrKind::InvalidSymbol,
            message: "Invalid character '"@ + seq![c] + "' after \""@ + partial + "\"."@,
        },
        LexFault::TrailingPoint { partial } => ErrView {
            kind: ErrKind::InvalidSymbol,
            message: "A number must end with a digit: \""@ + partial + "\"."@,
        },
        LexFault::UnterminatedString { partial } => ErrView {
            kind: ErrKind::LexErr,
            message: "Unterminated string literal: "@ + partial,
        },
        LexFault::UnterminatedComment { partial } => ErrView {
            kind: ErrKind::LexErr,
            message: "Unterminated comment: "@ + partial,
        },
    }
}

/// The state of the tokenizer between two characters.
pub struct LexState {
    /// The tokens read so far.
    pub tokens: Seq<TokenView>,
    /// What the tokenizer is in the middle of.
    pub context: Context,
    /// The characters of the token that is being read.
    pub memory: Seq<char>,
    /// The number of lists that are open.
    pub balance: nat,
}

/// The word `true`.
pub open spec fn true_word() -> Seq<char> {
    seq!['t', 'r', 'u', 'e']
}

/// The word `false`.
pub open spec fn false_word() -> Seq<char> {
    seq!['f', 'a', 'l', 's', 'e']
}

/// A character that separates tokens: a blank, a tab, a line feed or a
/// carriage return.
pub open spec fn is_blank(c: char) -> bool {
    c == ' ' || c == '\t' || c == '\n' || c == '\r'
}

/// A character that may continue a symbol.
pub open spec fn is_word_char(c: char) -> bool {
    alphabetic(c) || numeric(c)
}

/// The state before the first character.
pub open spec fn initial_state() -> LexState {
    LexState { tokens: Seq::empty(), context: Context::Init, memory: Seq::empty(), balance: 0 }
}

/// The context between tokens when `balance` lists are open.
pub open spec fn resting_context(balance: nat) -> Context {
    if balance == 0 {
        Context::Init
    } else {
        Context::List
    }
}

/// The state with one more character remembered, in the given context.
pub open spec fn remember(s: LexState, c: char, context: Context) -> LexState {
    LexState { memory: s.memory.push(c), context, ..s }
}

/// The state after the remembered characters have become a token of the given
/// kind.
pub open spec fn emit(s: LexState, kind: TokenKind) -> LexState {
    LexState {
        tokens: s.tokens.push(TokenView { kind, text: s.memory }),
        context: resting_context(s.balance),
        memory: Seq::empty(),
        balance: s.balance,
    }
}

/// The state after an opening parenthesis between tokens.
pub open spec fn open_list(s: LexState) -> LexState {
    LexState {
        tokens: s.tokens.push(TokenView { kind: TokenKind::OpenParen, text: seq!['('] }),
        context: Context::List,
        balance: s.balance + 1,
        ..s
    }
}

/// The state after a closing parenthesis between tokens: a fault where no list
/// is open.
pub open spec fn close_list(s: LexState) -> Result<LexState, LexFault> {
    if s.balance == 0 {
        Err(LexFault::Unbalanced)
    } else {
        Ok(
            LexState {
                tokens: s.tokens.push(TokenView { kind: TokenKind::CloseParen, text: seq![')'] }),
                context: resting_context((s.balance - 1) as nat),
                balance: (s.balance - 1) as nat,
                ..s
            },
        )
    }
}

/// One character between tokens, which is a letter or is not.
pub open spec fn step_between(s: LexState, c: char, letter: bool) -> Result<LexState, LexFault> {
    if c == '(' {
        Ok(open_list(s))
    } else if c == ')' {
        close_list(s)
    } else if c == '"' {
        Ok(remember(s, c, Context::String))
    } else if c == '`' {
        Ok(remember(s, c, Context::Comment))
    } else if is_blank(c) {
        Ok(s)
    } else if is_digit(c) {
        Ok(remember(s, c, Context::Number))
    } else if c == 't' {
        Ok(remember(s, c, Context::SymbolOrTrue))
    } else if c == 'f' {
        Ok(remember(s, c, Context::SymbolOrFalse))
    } else if letter {
        Ok(remember(s, c, Context::Symbol))
    } else {
        Err(LexFault::InvalidChar { c, partial: s.memory })
    }
}

/// One character inside a comment or a string literal, which `close` ends.
pub open spec fn step_quoted(s: LexState, c: char, close: char, kind: TokenKind) -> LexState {
    if c == close {
        emit(remember(s, c, s.context), kind)
    } else {
        remember(s, c, s.context)
    }
}

/// Whether the characters end in a decimal point.
pub open spec fn ends_in_point(memory: Seq<char>) -> bool {
    memory.len() > 0 && memory.last() == '.'
}

/// One character inside a number.
pub open spec fn step_number(s: LexState, c: char) -> Result<LexState, LexFault> {
    if c == ')' || is_blank(c) {
        if ends_in_point(s.memory) {
            Err(LexFault::TrailingPoint { partial: s.memory })
        } else if c == ')' {
            close_list(emit(s, TokenKind::NumberLiteral))
        } else {
            Ok(emit(s, TokenKind::NumberLiteral))
        }
    } else if is_digit(c) {
        Ok(remember(s, c, Context::Number))
    } else if c == '.' && !s.memory.contains('.') {
        Ok(remember(s, c, Context::Number))
    } else {
        Err(LexFault::InvalidChar { c, partial: s.memory })
    }
}

/// One character inside a word that becomes a token of the given kind when
/// it ends here. The character may continue a word or may not.
pub open spec fn step_word(s: LexState, c: char, kind: TokenKind, word: bool) -> Result<
    LexState,
    LexFault,
> {
    if is_blank(c) {
        Ok(emit(s, kind))
    } else if c == '(' {
        Ok(open_list(emit(s, kind)))
    } else if c == ')' {
        close_list(emit(s, kind))
    } else if word {
        Ok(remember(s, c, Context::Symbol))
    } else {
        Err(LexFault::InvalidChar { c, partial: s.memory })
    }
}

/// The kind of token that a word read as a possible `word` becomes: a bool
/// when it spells exactly `word`, else a symbol.
pub open spec fn tentative_kind(memory: Seq<char>, word: Seq<char>) -> TokenKind {
    if memory == word {
        TokenKind::BoolLiteral
    } else {
        TokenKind::Symbol
    }
}

/// One character inside a word that so far spells the beginning of
/// `target`.
pub open spec fn step_tentative(s: LexState, c: char, target: Seq<char>, word: bool) -> Result<
    LexState,
    LexFault,
> {
    if s.memory.len() < target.len() && c == target[s.memory.len() as int] {
        Ok(remember(s, c, s.context))
    } else {
        step_word(s, c, tentative_kind(s.memory, target), word)
    }
}

/// The state after one more character, or the fault that the character is.
/// `letter` says whether the character may start a symbol, `word` whether it
/// may continue one.
pub open spec fn step_with(s: LexState, c: char, letter: bool, word: bool) -> Result<
    LexState,
    LexFault,
> {
    match s.context {
        Context::Init | Context::List => step_between(s, c, letter),
        Context::Comment => Ok(step_quoted(s, c, '`', TokenKind::Comment)),
        Context::String => Ok(step_quoted(s, c, '"', TokenKind::StringLiteral)),
        Context::Number => step_number(s, c),
        Context::Symbol => step_word(s, c, TokenKind::Symbol, word),
        Context::SymbolOrTrue => step_tentative(s, c, true_word(), word),
        Context::SymbolOrFalse => step_tentative(s, c, false_word(), word),
    }
}

/// The state after one more character, or the fault that the character is. A
/// symbol starts with an alphabetic character and goes on with alphabetic
/// and numeric ones.
pub open spec fn lex_step(s: LexState, c: char) -> Result<LexState, LexFault> {
    step_with(s, c, alphabetic(c), is_word_char(c))
}

/// The state after the first `n` characters of the input, or the first fault
/// among them.
pub open spec fn lex_prefix(input: Seq<char>, n: nat) -> Result<LexState, LexFault>
    decreases n,
{
    if n == 0 {
        Ok(initial_state())
    } else {
        match lex_prefix(input, (n - 1) as nat) {
            Ok(s) => lex_step(s, input[n - 1]),
            Err(f) => Err(f),
        }
    }
}

/// The tokens of a state between tokens, where every list is closed.
pub open spec fn closed_tokens(s: LexState) -> Result<Seq<TokenView>, LexFault> {
    if s.balance == 0 {
        Ok(s.tokens)
    } else {
        Err(LexFault::Unbalanced)
    }
}

/// The tokens at the end of the input. A word or a number that the input ends
/// in is a token; a string literal or a comment that it ends in is a fault.
pub open spec fn lex_finish(s: LexState) -> Result<Seq<TokenView>, LexFault> {
    match s.context {
        Context::Init | Context::List => closed_tokens(s),
        Context::Comment => Err(LexFault::UnterminatedComment { partial: s.memory }),
        Context::String => Err(LexFault::UnterminatedString { partial: s.memory }),
        Context::Number => if ends_in_point(s.memory) {
            Err(LexFault::TrailingPoint { partial: s.memory })
        } else {
            closed_tokens(emit(s, TokenKind::NumberLiteral))
        },
        Context::Symbol => closed_tokens(emit(s, TokenKind::Symbol)),
        Context::SymbolOrTrue => closed_tokens(emit(s, tentative_kind(s.memory, true_word()))),
        Context::SymbolOrFalse => closed_tokens(emit(s, tentative_kind(s.memory, false_word()))),
    }
}

/// The tokens of an input, or the first fault in it.
pub open spec fn lex(input: Seq<char>) -> Result<Seq<TokenView>, LexFault> {
    match lex_prefix(input, input.len()) {
        Ok(s) => lex_finish(s),
        Err(f) => Err(f),
    }
}

/// The tokenizer's state.
pub struct Accumulator {
    tokens: Vec<Token>,
    context: Context,
    memory: Vec<char>,
    delimiter_balance: usize,
}

impl View for Accumulator {
    type V = LexState;

    closed spec fn view(&self) -> LexState {
        LexState {
            tokens: views(self.tokens@),
            context: self.context,
            memory: self.memory@,
            balance: self.delimiter_balance as nat,
        }
    }
}

impl Accumulator {
    /// No more lists are open than tokens were read: the count cannot
    /// overflow.
    pub closed spec fn wf(&self) -> bool {
        self.delimiter_balance <= self.tokens@.len()
    }

    /// The state before the first character.
    pub fn new() -> (acc: Accumulator)
        ensures
            acc@ == initial_state(),
            acc.wf(),
    {
        let acc = Accumulator {
            tokens: Vec::new(),
            context: Context::Init,
            memory: Vec::new(),
            delimiter_balance: 0,
        };
        assert(acc@.tokens =~= Seq::empty());
        acc
    }

    fn resting(&self) -> (c: Context)
        ensures
            c == resting_context(self@.balance),
    {
        if self.delimiter_balance == 0 {
            Context::Init
        } else {
            Context::List
        }
    }

    fn push_token(&mut self, kind: TokenKind, text: String)
        ensures
            final(self)@ == (LexState {
                tokens: old(self)@.tokens.push(TokenView { kind, text: text@ }),
                ..old(self)@
            }),
            final(self).tokens@.len() == old(self).tokens@.len() + 1,
            final(self).delimiter_balance == old(self).delimiter_balance,
    {
        let token = Token::new(kind, text);
        self.tokens.push(token);
        assert(views(self.tokens@) =~= views(old(self).tokens@).push(token@));
    }

    fn remember(self, c: char, context: Context) -> (acc: Accumulator)
        requires
            self.wf(),
        ensures
            acc@ == remember(self@, c, context),
            acc.wf(),
    {
        let mut acc = self;
        acc.memory.push(c);
        acc.context = context;
        acc
    }

    fn emit(self, kind: TokenKind) -> (acc: Accumulator)
        requires
            self.wf(),
        ensures
            acc@ == emit(self@, kind),
            acc.wf(),
    {
        let mut acc = self;
        let text = string_of(&acc.memory);
        acc.push_token(kind, text);
        acc.memory = Vec::new();
        acc.context = acc.resting();
        acc
    }

    fn open_list(self) -> (acc: Accumulator)
        requires
            self.wf(),
        ensures
            acc@ == open_list(self@),
            acc.wf(),
    {
        let mut acc = self;
        let mut text = String::new();
        text.push('(');
        assert(text@ =~= seq!['(']);
        acc.push_token(TokenKind::OpenParen, text);
        // More tokens were read than lists are open, so the count fits.
        let read = acc.tokens.len();
        assert(acc.delimiter_balance < read);
        acc.delimiter_balance = acc.delimiter_balance + 1;
        acc.context = Context::List;
        acc
    }

    fn close_list(self) -> (r: Result<Accumulator, JreplErr>)
        requires
            self.wf(),
        ensures
            accepted(r, close_list(self@)),
    {
        let mut acc = self;
        if acc.delimiter_balance == 0 {
            return Err(unbalanced());
        }
        let mut text = String::new();
        text.push(')');
        assert(text@ =~= seq![')']);
        acc.push_token(TokenKind::CloseParen, text);
        acc.delimiter_balance = acc.delimiter_balance - 1;
        acc.context = acc.resting();
        Ok(acc)
    }
}

/// Whether what the tokenizer did is what the state machine does: the same
/// state, or the error that reports the same fault.
pub open spec fn accepted(
    r: Result<Accumulator, JreplErr>,
    expected: Result<LexState, LexFault>,
) -> bool {
    match expected {
        Ok(s) => r matches Ok(acc) && acc@ == s && acc.wf(),
        Err(f) => r matches Err(e) && e@ == fault_error(f),
    }
}

fn unbalanced() -> (e: JreplErr)
    ensures
        e@ == fault_error(LexFault::Unbalanced),
{
    JreplErr::UnbalancedDelimiter(String::from_str("Unbalanced parentheses."))
}

fn invalid_char(c: char, partial: &Vec<char>) -> (e: JreplErr)
    ensures
        e@ == fault_error(LexFault::InvalidChar { c, partial: partial@ }),
{
    let mut m = String::from_str("Invalid character '");
    m.push(c);
    m.append("' after \"");
    push_all(&mut m, partial);
    m.append("\".");
    assert("Invalid character '"@.push(c) =~= "Invalid character '"@ + seq![c]);
    JreplErr::InvalidSymbol(m)
}

fn trailing_point(partial: &Vec<char>) -> (e: JreplErr)
    ensures
        e@ == fault_error(LexFault::TrailingPoint { partial: partial@ }),
{
    let mut m = String::from_str("A number must end with a digit: \"");
    push_all(&mut m, partial);
    m.append("\".");
    JreplErr::InvalidSymbol(m)
}

fn unterminated_string(partial: &Vec<char>) -> (e: JreplErr)
    ensures
        e@ == fault_error(LexFault::UnterminatedString { partial: partial@ }),
{
    let mut m = String::from_str("Unterminated string literal: ");
    push_all(&mut m, partial);
    JreplErr::LexErr(m)
}

fn unterminated_comment(partial: &Vec<char>) -> (e: JreplErr)
    ensures
        e@ == fault_error(LexFault::UnterminatedComment { partial: partial@ }),
{
    let mut m = String::from_str("Unterminated comment: ");
    push_all(&mut m, partial);
    JreplErr::LexErr(m)
}

fn blank(c: char) -> (r: bool)
    ensures
        r == is_blank(c),
{
    c == ' ' || c == '\t' || c == '\n' || c == '\r'
}

fn point_at_end(memory: &Vec<char>) -> (r: bool)
    ensures
        r == ends_in_point(memory@),
{
    memory.len() > 0 && memory[memory.len() - 1] == '.'
}

fn has_point(memory: &Vec<char>) -> (r: bool)
    ensures
        r == memory@.contains('.'),
{
    let mut i: usize = 0;
    while i < memory.len()
        invariant
            i <= memory.len(),
            forall|j: int| 0 <= j < i ==> memory@[j] != '.',
        decreases memory.len() - i,
    {
        if memory[i] == '.' {
            return true;
        }
        i += 1;
    }
    false
}

fn is_true_word(memory: &Vec<char>) -> (r: bool)
    ensures
        r == (memory@ == true_word()),
{
    let r = memory.len() == 4 && memory[0] == 't' && memory[1] == 'r' && memory[2] == 'u'
        && memory[3] == 'e';
    assert(r == (memory@ =~= true_word()));
    r
}

fn is_false_word(memory: &Vec<char>) -> (r: bool)
    ensures
        r == (memory@ == false_word()),
{
    let r = memory.len() == 5 && memory[0] == 'f' && memory[1] == 'a' && memory[2] == 'l'
        && memory[3] == 's' && memory[4] == 'e';
    assert(r == (memory@ =~= false_word()));
    r
}

/// The kind of token that a word becomes which was read as a possible
/// `true`, where `truth` holds, or as a possible `false`.
fn tentative_kind_of(memory: &Vec<char>, truth: bool) -> (k: TokenKind)
    ensures
        k == tentative_kind(
            memory@,
            if truth {
                true_word()
            } else {
                false_word()
            },
        ),
{
    let exact = if truth {
        is_true_word(memory)
    } else {
        is_false_word(memory)
    };
    if exact {
        TokenKind::BoolLiteral
    } else {
        TokenKind::Symbol
    }
}

/// Whether `c` is the next character of the word that the memory begins.
fn spells_next(memory: &Vec<char>, c: char, truth: bool) -> (r: bool)
    ensures
        r == ({
            let word = if truth {
                true_word()
            } else {
                false_word()
            };
            memory@.len() < word.len() && c == word[memory@.len() as int]
        }),
{
    let n = memory.len();
    if truth {
        (n == 0 && c == 't') || (n == 1 && c == 'r') || (n == 2 && c == 'u') || (n == 3 && c == 'e')
    } else {
        (n == 0 && c == 'f') || (n == 1 && c == 'a') || (n == 2 && c == 'l') || (n == 3 && c == 's')
            || (n == 4 && c == 'e')
    }
}

fn word_step(acc: Accumulator, c: char, kind: TokenKind, word: bool) -> (r: Result<
    Accumulator,
    JreplErr,
>)
    requires
        acc.wf(),
    ensures
        accepted(r, step_word(acc@, c, kind, word)),
{
    if blank(c) {
        Ok(acc.emit(kind))
    } else if c == '(' {
        Ok(acc.emit(kind).open_list())
    } else if c == ')' {
        acc.emit(kind).close_list()
    } else if word {
        Ok(acc.remember(c, Context::Symbol))
    } else {
        Err(invalid_char(c, &acc.memory))
    }
}

fn tentative_step(acc: Accumulator, c: char, truth: bool, word: bool) -> (r: Result<
    Accumulator,
    JreplErr,
>)
    requires
        acc.wf(),
    ensures
        accepted(
            r,
            step_tentative(
                acc@,
                c,
                if truth {
                    true_word()
                } else {
                    false_word()
                },
                word,
            ),
        ),
{
    if spells_next(&acc.memory, c, truth) {
        let context = acc.context;
        Ok(acc.remember(c, context))
    } else {
        let kind = tentative_kind_of(&acc.memory, truth);
        word_step(acc, c, kind, word)
    }
}

fn quoted_step(acc: Accumulator, c: char, close: char, kind: TokenKind) -> (r: Accumulator)
    requires
        acc.wf(),
    ensures
        r@ == step_quoted(acc@, c, close, kind),
        r.wf(),
{
    let context = acc.context;
    let acc = acc.remember(c, context);
    if c == close {
        acc.emit(kind)
    } else {
        acc
    }
}

fn number_step(acc: Accumulator, c: char) -> (r: Result<Accumulator, JreplErr>)
    requires
        acc.wf(),
    ensures
        accepted(r, step_number(acc@, c)),
{
    if c == ')' || blank(c) {
        if point_at_end(&acc.memory) {
            Err(trailing_point(&acc.memory))
        } else if c == ')' {
            acc.emit(TokenKind::NumberLiteral).close_list()
        } else {
            Ok(acc.emit(TokenKind::NumberLiteral))
        }
    } else if '0' <= c && c <= '9' {
        Ok(acc.remember(c, Context::Number))
    } else if c == '.' && !has_point(&acc.memory) {
        Ok(acc.remember(c, Context::Number))
    } else {
        Err(invalid_char(c, &acc.memory))
    }
}

fn between_step(acc: Accumulator, c: char, letter: bool) -> (r: Result<Accumulator, JreplErr>)
    requires
        acc.wf(),
    ensures
        accepted(r, step_between(acc@, c, letter)),
{
    if c == '(' {
        Ok(acc.open_list())
    } else if c == ')' {
        acc.close_list()
    } else if c == '"' {
        Ok(acc.remember(c, Context::String))
    } else if c == '`' {
        Ok(acc.remember(c, Context::Comment))
    } else if blank(c) {
        Ok(acc)
    } else if '0' <= c && c <= '9' {
        Ok(acc.remember(c, Context::Number))
    } else if c == 't' {
        Ok(acc.remember(c, Context::SymbolOrTrue))
    } else if c == 'f' {
        Ok(acc.remember(c, Context::SymbolOrFalse))
    } else if letter {
        Ok(acc.remember(c, Context::Symbol))
    } else {
        Err(invalid_char(c, &acc.memory))
    }
}

/// One step of the state machine, for a character of which it is known
/// whether it may start a symbol and whether it may continue one: the state
/// after the character `c`, or the error that `c` is in the state's context.
pub fn transition(acc: Accumulator, c: char, letter: bool, word: bool) -> (r: Result<
    Accumulator,
    JreplErr,
>)
    requires
        acc.wf(),
    ensures
        accepted(r, step_with(acc@, c, letter, word)),
{
    match acc.context {
        Context::Init | Context::List => between_step(acc, c, letter),
        Context::Comment => Ok(quoted_step(acc, c, '`', TokenKind::Comment)),
        Context::String => Ok(quoted_step(acc, c, '"', TokenKind::StringLiteral)),
        Context::Number => number_step(acc, c),
        Context::Symbol => word_step(acc, c, TokenKind::Symbol, word),
        Context::SymbolOrTrue => tentative_step(acc, c, true, word),
        Context::SymbolOrFalse => tentative_step(acc, c, false, word),
    }
}

/// One step of the state machine: the state after the character `c`, or the
/// error that `c` is in the state's context.
pub fn transition_table(acc: Accumulator, c: char) -> (r: Result<Accumulator, JreplErr>)
    requires
        acc.wf(),
    ensures
        accepted(r, lex_step(acc@, c)),
{
    let letter = c.is_alphabetic();
    let word = letter || c.is_numeric();
    transition(acc, c, letter, word)
}

/// Whether the tokens or the error are those that the state machine gives.
pub open spec fn lexed(
    r: Result<Vec<Token>, JreplErr>,
    expected: Result<Seq<TokenView>, LexFault>,
) -> bool {
    match expected {
        Ok(tokens) => r matches Ok(v) && views(v@) == tokens,
        Err(f) => r matches Err(e) && e@ == fault_error(f),
    }
}

fn closed(acc: Accumulator) -> (r: Result<Vec<Token>, JreplErr>)
    ensures
        lexed(r, closed_tokens(acc@)),
{
    if acc.delimiter_balance == 0 {
        Ok(acc.tokens)
    } else {
        Err(unbalanced())
    }
}

/// The tokens at the end of the input, or the error that the input ends
/// where it does.
pub fn finish(acc: Accumulator) -> (r: Result<Vec<Token>, JreplErr>)
    requires
        acc.wf(),
    ensures
        lexed(r, lex_finish(acc@)),
{
    match acc.context {
        Context::Init | Context::List => closed(acc),
        Context::Comment => Err(unterminated_comment(&acc.memory)),
        Context::String => Err(unterminated_string(&acc.memory)),
        Context::Number => {
            if point_at_end(&acc.memory) {
                Err(trailing_point(&acc.memory))
            } else {
                closed(acc.emit(TokenKind::NumberLiteral))
            }
        },
        Context::Symbol => closed(acc.emit(TokenKind::Symbol)),
        Context::SymbolOrTrue => {
            let kind = tentative_kind_of(&acc.memory, true);
            closed(acc.emit(kind))
        },
        Context::SymbolOrFalse => {
            let kind = tentative_kind_of(&acc.memory, false);
            closed(acc.emit(kind))
        },
    }
}

/// Splits the input into tokens, which blanks, tabs and line ends separate.
/// The input is refused at its first invalid character, where it closes a
/// list that is not open, and where it ends inside a list, a string literal
/// or a comment.
pub fn lexer(user_input: &str) -> (r: Result<Vec<Token>, JreplErr>)
    ensures
        lexed(r, lex(user_input@)),
{
    let mut acc = Accumulator::new();
    for c in it: user_input.chars()
        invariant
            it.seq() == user_input@,
            acc.wf(),
            lex_prefix(user_input@, it.index() as nat) == Ok::<LexState, LexFault>(acc@),
    {
        match transition_table(acc, c) {
            Ok(next) => {
                acc = next;
            },
            Err(e) => {
                proof {
                    lemma_fault_stays(user_input@, (it.index() + 1) as nat, user_input@.len());
                }
                return Err(e);
            },
        }
    }
    finish(acc)
}

/// The texts of the tokens.
pub open spec fn texts(tokens: Seq<TokenView>) -> Seq<Seq<char>> {
    tokens.map_values(|t: TokenView| t.text)
}

/// The texts of the tokens of the input, in order.
pub fn tokenize(user_input: &str) -> (r: Result<Vec<String>, JreplErr>)
    ensures
        match lex(user_input@) {
            Ok(tokens) => r matches Ok(v) && views(v@) == texts(tokens),
            Err(f) => r matches Err(e) && e@ == fault_error(f),
        },
{
    let tokens = match lexer(user_input) {
        Ok(tokens) => tokens,
        Err(e) => {
            return Err(e);
        },
    };
    let mut r: Vec<String> = Vec::new();
    let mut i: usize = 0;
    while i < tokens.len()
        invariant
            i <= tokens.len(),
            r@.len() == i,
            forall|j: int| 0 <= j < i ==> r@[j]@ == tokens@[j]@.text,
        decreases tokens.len() - i,
    {
        r.push(tokens[i].text().clone());
        i += 1;
    }
    assert(views(r@) =~= texts(views(tokens@)));
    Ok(r)
}

/// A fault among the first `n` characters is the fault of every longer prefix.
proof fn lemma_fault_stays(input: Seq<char>, n: nat, m: nat)
    requires
        n <= m,
        lex_prefix(input, n) is Err,
    ensures
        lex_prefix(input, m) == lex_prefix(input, n),
    decreases m,
{
    if n < m {
        lemma_fault_stays(input, n, (m - 1) as nat);
    }
}

} // verus!
