//! The errors that the interpreter reports.
use vstd::prelude::*;

verus! {

/// An error of the interpreter: its kind, with a message for the user.
#[derive(Debug, PartialEq)]
pub enum JreplErr {
    UnbalancedDelimiter(String),
    LexificationErr(String),
    LexErr(String),
    VerifySyntaxErr(String),
    InvalidSymbol(String),
    InvalidSyntax(String),
    ParserErr(String),
    EvalErr(String),
    UndefinedSymbol(String),
    ArithmeticErr(String),
    OperatorFormatErr(String),
}

/// The kind of an error, without its message.
#[derive(Clone, Copy, Debug, PartialEq, Eq, Structural)]
pub enum ErrKind {
    UnbalancedDelimiter,
    LexificationErr,
    LexErr,
    VerifySyntaxErr,
    InvalidSymbol,
    InvalidSyntax,
    ParserErr,
    EvalErr,
    UndefinedSymbol,
    ArithmeticErr,
    OperatorFormatErr,
}

/// What an error says: its kind and the characters of its message.
pub struct ErrView {
    pub kind: ErrKind,
    pub message: Seq<char>,
}

impl View for JreplErr {
    type V = ErrView;

    open spec fn view(&self) -> ErrView {
        match self {
            JreplErr::UnbalancedDelimiter(m) => ErrView {
                kind: ErrKind::UnbalancedDelimiter,
                message: m@,
            },
            JreplErr::LexificationErr(m) => ErrView { kind: ErrKind::LexificationErr, message: m@ },
            JreplErr::LexErr(m) => ErrView { kind: ErrKind::LexErr, message: m@ },
            JreplErr::VerifySyntaxErr(m) => ErrView { kind: ErrKind::VerifySyntaxErr, message: m@ },
            JreplErr::InvalidSymbol(m) => ErrView { kind: ErrKind::InvalidSymbol, message: m@ },
            JreplErr::InvalidSyntax(m) => ErrView { kind: ErrKind::InvalidSyntax, message: m@ },
            JreplErr::ParserErr(m) => ErrView { kind: ErrKind::ParserErr, message: m@ },
            JreplErr::EvalErr(m) => ErrView { kind: ErrKind::EvalErr, message: m@ },
            JreplErr::UndefinedSymbol(m) => ErrView { kind: ErrKind::UndefinedSymbol, message: m@ },
            JreplErr::ArithmeticErr(m) => ErrView { kind: ErrKind::ArithmeticErr, message: m@ },
            JreplErr::OperatorFormatErr(m) => ErrView {
                kind: ErrKind::OperatorFormatErr,
                message: m@,
            },
        }
    }
}

impl JreplErr {
    /// An error of the given kind with the given message.
    pub fn new(kind: ErrKind, message: String) -> (e: JreplErr)
        ensures
            e@ == (ErrView { kind, message: message@ }),
    {
        match kind {
            ErrKind::UnbalancedDelimiter => JreplErr::UnbalancedDelimiter(message),
            ErrKind::LexificationErr => JreplErr::LexificationErr(message),
            ErrKind::LexErr => JreplErr::LexErr(message),
            ErrKind::VerifySyntaxErr => JreplErr::VerifySyntaxErr(message),
            ErrKind::InvalidSymbol => JreplErr::InvalidSymbol(message),
            ErrKind::InvalidSyntax => JreplErr::InvalidSyntax(message),
            ErrKind::ParserErr => JreplErr::ParserErr(message),
            ErrKind::EvalErr => JreplErr::EvalErr(message),
            ErrKind::UndefinedSymbol => JreplErr::UndefinedSymbol(message),
            ErrKind::ArithmeticErr => JreplErr::ArithmeticErr(message),
            ErrKind::OperatorFormatErr => JreplErr::OperatorFormatErr(message),
        }
    }

    /// The kind of the error.
    pub fn kind(&self) -> (k: ErrKind)
        ensures
            k == self@.kind,
    {
        match self {
            JreplErr::UnbalancedDelimiter(_) => ErrKind::UnbalancedDelimiter,
            JreplErr::LexificationErr(_) => ErrKind::LexificationErr,
            JreplErr::LexErr(_) => ErrKind::LexErr,
            JreplErr::VerifySyntaxErr(_) => ErrKind::VerifySyntaxErr,
            JreplErr::InvalidSymbol(_) => ErrKind::InvalidSymbol,
            JreplErr::InvalidSyntax(_) => ErrKind::InvalidSyntax,
            JreplErr::ParserErr(_) => ErrKind::ParserErr,
            JreplErr::EvalErr(_) => ErrKind::EvalErr,
            JreplErr::UndefinedSymbol(_) => ErrKind::UndefinedSymbol,
            JreplErr::ArithmeticErr(_) => ErrKind::ArithmeticErr,
            JreplErr::OperatorFormatErr(_) => ErrKind::OperatorFormatErr,
        }
    }

    /// The message of the error.
    pub fn message(&self) -> (m: &String)
        ensures
            m@ == self@.message,
    {
        match self {
            JreplErr::UnbalancedDelimiter(m) => m,
            JreplErr::LexificationErr(m) => m,
            JreplErr::LexErr(m) => m,
            JreplErr::VerifySyntaxErr(m) => m,
            JreplErr::InvalidSymbol(m) => m,
            JreplErr::InvalidSyntax(m) => m,
            JreplErr::ParserErr(m) => m,
            JreplErr::EvalErr(m) => m,
            JreplErr::UndefinedSymbol(m) => m,
            JreplErr::ArithmeticErr(m) => m,
            JreplErr::OperatorFormatErr(m) => m,
        }
    }
}

} // verus!
