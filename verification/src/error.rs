//! The ways in which a program is rejected before any code is emitted.

use vstd::prelude::*;
use vstd::string::*;

verus! {

/// Why a program was rejected.
#[derive(Debug, PartialEq, Eq)]
pub enum CompileError {
    /// The parse tree has a shape that is no expression, definition or program.
    InvalidShape,
    /// A number literal lies outside the range of numbers.
    NumberOutOfBounds,
    /// A reserved word stands where a name is bound or called.
    ReservedWord,
    /// One `let` binds a name twice.
    DuplicateBinding,
    /// An identifier is used where nothing binds it.
    UnboundIdentifier(String),
    /// A `break` stands outside every `loop`.
    BreakOutsideLoop,
    /// Two definitions have the same name.
    DuplicateFunction(String),
    /// A call names a function that is not declared.
    UndeclaredFunction,
    /// A call supplies another number of arguments than the function declares.
    ArityMismatch,
    /// `input` is read inside a function body.
    InputInFunction,
    /// A definition names one parameter twice.
    DuplicateParameter,
}

/// A rejection as a mathematical value.
pub enum CompileErrorView {
    InvalidShape,
    NumberOutOfBounds,
    ReservedWord,
    DuplicateBinding,
    UnboundIdentifier(Seq<char>),
    BreakOutsideLoop,
    DuplicateFunction(Seq<char>),
    UndeclaredFunction,
    ArityMismatch,
    InputInFunction,
    DuplicateParameter,
}

impl View for CompileError {
    type V = CompileErrorView;

    open spec fn view(&self) -> CompileErrorView {
        match self {
            CompileError::InvalidShape => CompileErrorView::InvalidShape,
            CompileError::NumberOutOfBounds => CompileErrorView::NumberOutOfBounds,
            CompileError::ReservedWord => CompileErrorView::ReservedWord,
            CompileError::DuplicateBinding => CompileErrorView::DuplicateBinding,
            CompileError::UnboundIdentifier(x) => CompileErrorView::UnboundIdentifier(x@),
            CompileError::BreakOutsideLoop => CompileErrorView::BreakOutsideLoop,
            CompileError::DuplicateFunction(f) => CompileErrorView::DuplicateFunction(f@),
            CompileError::UndeclaredFunction => CompileErrorView::UndeclaredFunction,
            CompileError::ArityMismatch => CompileErrorView::ArityMismatch,
            CompileError::InputInFunction => CompileErrorView::InputInFunction,
            CompileError::DuplicateParameter => CompileErrorView::DuplicateParameter,
        }
    }
}

/// The message that reports a rejection.
pub open spec fn message_text(e: CompileErrorView) -> Seq<char> {
    match e {
        CompileErrorView::InvalidShape => "Invalid S-Expression."@,
        CompileErrorView::NumberOutOfBounds => "Invalid - Number too large"@,
        CompileErrorView::ReservedWord => "Invalid - keyword used."@,
        CompileErrorView::DuplicateBinding => "Error - Duplicate binding."@,
        CompileErrorView::UnboundIdentifier(x) => "Error - Unbound variable identifier "@ + x,
        CompileErrorView::BreakOutsideLoop => "Error - break must be within a loop."@,
        CompileErrorView::DuplicateFunction(f) => "Invalid function declaration, function "@ + f
            + " declared multiple times."@,
        CompileErrorView::UndeclaredFunction => "Invalid function call without definition."@,
        CompileErrorView::ArityMismatch =>
            "Invalid, function call must match the number of arguments in declared function."@,
        CompileErrorView::InputInFunction =>
            "Invalid - input keyword cannot be in function definition."@,
        CompileErrorView::DuplicateParameter =>
            "Invalid function declaration; parameter is declared twice"@,
    }
}

impl CompileError {
    /// The message that reports this rejection.
    pub fn message(&self) -> (text: String)
        ensures
            text@ == message_text(self@),
    {
        match self {
            CompileError::InvalidShape => "Invalid S-Expression.".to_owned(),
            CompileError::NumberOutOfBounds => "Invalid - Number too large".to_owned(),
            CompileError::ReservedWord => "Invalid - keyword used.".to_owned(),
            CompileError::DuplicateBinding => "Error - Duplicate binding.".to_owned(),
            CompileError::UnboundIdentifier(x) => {
                let mut text = "Error - Unbound variable identifier ".to_owned();
                text.append(x.as_str());
                text
            },
            CompileError::BreakOutsideLoop => "Error - break must be within a loop.".to_owned(),
            CompileError::DuplicateFunction(f) => {
                let mut text = "Invalid function declaration, function ".to_owned();
                text.append(f.as_str());
                text.append(" declared multiple times.");
                text
            },
            CompileError::UndeclaredFunction =>
                "Invalid function call without definition.".to_owned(),
            CompileError::ArityMismatch =>
                "Invalid, function call must match the number of arguments in declared function.".to_owned(),
            CompileError::InputInFunction =>
                "Invalid - input keyword cannot be in function definition.".to_owned(),
            CompileError::DuplicateParameter =>
                "Invalid function declaration; parameter is declared twice".to_owned(),
        }
    }
}

} // verus!
