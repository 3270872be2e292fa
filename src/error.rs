//! The fatal errors of parsing and evaluation.
use vstd::prelude::*;

verus! {

#[derive(Debug, Clone)]
pub enum LogoError {
    /// A pen primitive followed by more words: line number and command.
    TooManyArguments(usize, String),
    /// A word that no rule accepts: line number and word.
    UnExpectedToken(usize, String),
    /// A name that is not bound (or, as a target, not a variable name).
    UnDefinedVariable(String),
    /// A malformed or unterminated IF/WHILE: line number.
    UnvalidIfOrWhile(usize),
    /// A malformed or unterminated procedure definition: line number.
    FunctionDefineFailed(usize),
    /// A command without its argument: line number and command.
    NoEnoughArguments(usize, String),
    /// A word that cannot stand in an expression: command and word.
    NotAexpression(String, String),
    /// An operator that found fewer than two values.
    NotEnoughOperands,
    /// An expression that left no value.
    NoValue,
    /// A primitive's expression that left more than one value.
    UnusedOperands,
    DivisionByZero,
    /// A result outside the range of `i64`.
    Overflow,
    /// A pen color outside 0 to 15.
    ColorOutOfRange(i64),
    /// A call whose values do not match the procedure's parameters.
    ParameterCountMismatch(String),
    /// A call of a procedure that is not in the table.
    UnknownProcedure(String),
    /// The step budget of the evaluation ran out.
    OutOfFuel,
}

pub enum ErrorV {
    TooManyArguments(nat, Seq<char>),
    UnExpectedToken(nat, Seq<char>),
    UnDefinedVariable(Seq<char>),
    UnvalidIfOrWhile(nat),
    FunctionDefineFailed(nat),
    NoEnoughArguments(nat, Seq<char>),
    NotAexpression(Seq<char>, Seq<char>),
    NotEnoughOperands,
    NoValue,
    UnusedOperands,
    DivisionByZero,
    Overflow,
    ColorOutOfRange(i64),
    ParameterCountMismatch(Seq<char>),
    UnknownProcedure(Seq<char>),
    OutOfFuel,
}

impl View for LogoError {
    type V = ErrorV;

    open spec fn view(&self) -> ErrorV {
        match self {
            LogoError::TooManyArguments(l, c) => ErrorV::TooManyArguments(*l as nat, c@),
            LogoError::UnExpectedToken(l, t) => ErrorV::UnExpectedToken(*l as nat, t@),
            LogoError::UnDefinedVariable(x) => ErrorV::UnDefinedVariable(x@),
            LogoError::UnvalidIfOrWhile(l) => ErrorV::UnvalidIfOrWhile(*l as nat),
            LogoError::FunctionDefineFailed(l) => ErrorV::FunctionDefineFailed(*l as nat),
            LogoError::NoEnoughArguments(l, c) => ErrorV::NoEnoughArguments(*l as nat, c@),
            LogoError::NotAexpression(c, t) => ErrorV::NotAexpression(c@, t@),
            LogoError::NotEnoughOperands => ErrorV::NotEnoughOperands,
            LogoError::NoValue => ErrorV::NoValue,
            LogoError::UnusedOperands => ErrorV::UnusedOperands,
            LogoError::DivisionByZero => ErrorV::DivisionByZero,
            LogoError::Overflow => ErrorV::Overflow,
            LogoError::ColorOutOfRange(v) => ErrorV::ColorOutOfRange(*v),
            LogoError::ParameterCountMismatch(x) => ErrorV::ParameterCountMismatch(x@),
            LogoError::UnknownProcedure(x) => ErrorV::UnknownProcedure(x@),
            LogoError::OutOfFuel => ErrorV::OutOfFuel,
        }
    }
}

/// The diagnostic text of each kind of error.
pub open spec fn message_of(e: ErrorV) -> Seq<char> {
    match e {
        ErrorV::TooManyArguments(_, _) => "too many arguments"@,
        ErrorV::UnExpectedToken(_, _) => "unexpected token"@,
        ErrorV::UnDefinedVariable(_) => "undefined variable"@,
        ErrorV::UnvalidIfOrWhile(_) => "invalid if or while"@,
        ErrorV::FunctionDefineFailed(_) => "function definition failed"@,
        ErrorV::NoEnoughArguments(_, _) => "not enough arguments"@,
        ErrorV::NotAexpression(_, _) => "not an expression"@,
        ErrorV::NotEnoughOperands => "not enough operands"@,
        ErrorV::NoValue => "expression has no value"@,
        ErrorV::UnusedOperands => "expression leaves unused values"@,
        ErrorV::DivisionByZero => "division by zero"@,
        ErrorV::Overflow => "arithmetic overflow"@,
        ErrorV::ColorOutOfRange(_) => "pen color out of range"@,
        ErrorV::ParameterCountMismatch(_) => "no enough parameter value"@,
        ErrorV::UnknownProcedure(_) => "unknown procedure"@,
        ErrorV::OutOfFuel => "step budget exhausted"@,
    }
}

impl LogoError {
    /// The diagnostic text of the error.
    pub fn message(&self) -> (r: String)
        ensures
            r@ == message_of(self@),
    {
        match self {
            LogoError::TooManyArguments(_, _) => String::from_str("too many arguments"),
            LogoError::UnExpectedToken(_, _) => String::from_str("unexpected token"),
            LogoError::UnDefinedVariable(_) => String::from_str("undefined variable"),
            LogoError::UnvalidIfOrWhile(_) => String::from_str("invalid if or while"),
            LogoError::FunctionDefineFailed(_) => String::from_str("function definition failed"),
            LogoError::NoEnoughArguments(_, _) => String::from_str("not enough arguments"),
            LogoError::NotAexpression(_, _) => String::from_str("not an expression"),
            LogoError::NotEnoughOperands => String::from_str("not enough operands"),
            LogoError::NoValue => String::from_str("expression has no value"),
            LogoError::UnusedOperands => String::from_str("expression leaves unused values"),
            LogoError::DivisionByZero => String::from_str("division by zero"),
            LogoError::Overflow => String::from_str("arithmetic overflow"),
            LogoError::ColorOutOfRange(_) => String::from_str("pen color out of range"),
            LogoError::ParameterCountMismatch(_) => String::from_str("no enough parameter value"),
            LogoError::UnknownProcedure(_) => String::from_str("unknown procedure"),
            LogoError::OutOfFuel => String::from_str("step budget exhausted"),
        }
    }
}

} // verus!
