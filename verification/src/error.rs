//! The ways in which compiling an expression can fail.

use vstd::prelude::*;
use vstd::string::StringExecFns;

verus! {

/// A failure of the compiler. Each is final: nothing is emitted once one
/// has been found.
#[derive(Debug, PartialEq, Eq)]
pub enum CompileError {
    /// The token tree is no expression: a wrong shape, a reserved word
    /// where a name is expected, or a literal outside the 32-bit range.
    Syntax,
    /// One `let` binds the name twice.
    DuplicateBinding(String),
    /// The name is used where nothing binds it.
    UnboundIdentifier(String),
}

/// The model of a failure: names are character sequences.
pub enum SpecError {
    Syntax,
    DuplicateBinding(Seq<char>),
    UnboundIdentifier(Seq<char>),
}

impl View for CompileError {
    type V = SpecError;

    open spec fn view(&self) -> SpecError {
        match self {
            CompileError::Syntax => SpecError::Syntax,
            CompileError::DuplicateBinding(name) => SpecError::DuplicateBinding(name@),
            CompileError::UnboundIdentifier(name) => SpecError::UnboundIdentifier(name@),
        }
    }
}

/// The text that reports a failure.
pub open spec fn message_text(e: SpecError) -> Seq<char> {
    match e {
        SpecError::Syntax => "Invalid"@,
        SpecError::DuplicateBinding(_) => "Duplicate binding"@,
        SpecError::UnboundIdentifier(name) => "Unbound variable identifier "@ + name,
    }
}

impl CompileError {
    /// The text that reports this failure.
    pub fn message(&self) -> (s: String)
        ensures
            s@ == message_text(self@),
    {
        match self {
            CompileError::Syntax => String::from_str("Invalid"),
            CompileError::DuplicateBinding(_) => String::from_str("Duplicate binding"),
            CompileError::UnboundIdentifier(name) => {
                String::from_str("Unbound variable identifier ").concat(name.as_str())
            },
        }
    }
}

} // verus!
