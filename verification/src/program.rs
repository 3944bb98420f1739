//! From source text to a whole program: reading, parsing, code generation
//! and the frame around the generated code.

use vstd::prelude::*;
use vstd::string::StringExecFns;
use crate::codegen::{
    compile, fits_frame, frame_addressable, stack_need, text_of, FIRST_SLOT,
};
use crate::error::{CompileError, SpecError};
use crate::parse::{ast_of, parse_expr};
use crate::reader::{read_as, read_tokens};

verus! {

/// The program around a listing: the section and the entry label before
/// it, the return after it.
pub open spec fn program_text(body: Seq<char>) -> Seq<char> {
    "section .text\nglobal our_code_starts_here\nour_code_starts_here:\n  "@ + body
        + "\n  ret\n"@
}

/// Puts a listing into the program frame.
pub fn wrap_program(body: &str) -> (s: String)
    ensures
        s@ == program_text(body@),
{
    let mut s = String::from_str(
        "section .text\nglobal our_code_starts_here\nour_code_starts_here:\n  ",
    );
    s.append(body);
    s.append("\n  ret\n");
    s
}

/// The program for a source text.
///
/// A text that does not read as a token tree, or whose tree is no
/// expression, is a syntax error. An expression whose code would write a
/// slot that is not addressable has no program: `None`. Otherwise the
/// program is the frame around the expression's listing, or the failure
/// that compiling it gives.
pub open spec fn program_of(text: Seq<char>) -> Option<Result<Seq<char>, SpecError>> {
    match read_as(text) {
        None => Some(Err(SpecError::Syntax)),
        Some(tree) => match ast_of(tree) {
            None => Some(Err(SpecError::Syntax)),
            Some(e) => if frame_addressable(FIRST_SLOT as int, stack_need(e)) {
                match text_of(e) {
                    Ok(body) => Some(Ok(program_text(body))),
                    Err(err) => Some(Err(err)),
                }
            } else {
                None
            },
        },
    }
}

/// The result of building a program as a model.
pub open spec fn program_outcome(r: Option<Result<String, CompileError>>) -> Option<
    Result<Seq<char>, SpecError>,
> {
    match r {
        Some(Ok(text)) => Some(Ok(text@)),
        Some(Err(err)) => Some(Err(err@)),
        None => None,
    }
}

/// Compiles a source text to a whole program. `None` says that the
/// expression nests deeper than the target can address.
pub fn build_program(text: &str) -> (r: Option<Result<String, CompileError>>)
    ensures
        program_outcome(r) == program_of(text@),
{
    let tree = match read_tokens(text) {
        Ok(tree) => tree,
        Err(err) => {
            return Some(Err(err));
        },
    };
    let e = match parse_expr(&tree) {
        Ok(e) => e,
        Err(err) => {
            return Some(Err(err));
        },
    };
    if !fits_frame(&e, FIRST_SLOT) {
        return None;
    }
    match compile(&e) {
        Ok(body) => Some(Ok(wrap_program(body.as_str()))),
        Err(err) => Some(Err(err)),
    }
}

} // verus!
