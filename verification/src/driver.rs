//! From source text to assembly text: the whole way, for a driver that reads
//! the one from a file and writes the other to a file.

use vstd::prelude::*;
use vstd::string::*;
use crate::error::{CompileError, CompileErrorView};
use crate::layout::{compile_program, program_fits};
use crate::limits::try_compile;
use crate::parser::parse_program;
use crate::printer::{assemble, listing, program_text};
use crate::reader::{parse_source, parsed_tree};
use crate::syntax::parse_program_spec;

verus! {

/// What compiling a source text gives: its assembly text, the reason for
/// rejecting it, or nothing if the program is too large for the compiler.
///
/// The text is put between a pair of parentheses, so that it may hold
/// several top-level forms, and read as one parse tree; a text that is no
/// parse tree is rejected for its shape. The tree is read as a program, the
/// program is compiled, and the text of its definitions and of its main
/// expression is set into the text of the whole program.
pub open spec fn compile_source_spec(text: Seq<char>) -> Option<
    Result<Seq<char>, CompileErrorView>,
> {
    match parsed_tree("("@ + text + ")"@) {
        None => Some(Err(CompileErrorView::InvalidShape)),
        Some(tree) => match parse_program_spec(tree) {
            Err(err) => Some(Err(err)),
            Ok(p) => {
                if !program_fits(p) {
                    None
                } else {
                    match compile_program(p) {
                        Err(err) => Some(Err(err)),
                        Ok((defs_code, main_code)) => Some(
                            Ok(program_text(listing(defs_code), listing(main_code))),
                        ),
                    }
                }
            },
        },
    }
}

/// The assembly text of a source program, or the reason for rejecting it;
/// nothing if the program is too large for the compiler.
pub fn compile_source(text: &str) -> (r: Option<Result<String, CompileError>>)
    ensures
        match compile_source_spec(text@) {
            None => r is None,
            Some(Ok(listing_text)) => r matches Some(Ok(s)) && s@ == listing_text,
            Some(Err(err)) => r matches Some(Err(x)) && x@ == err,
        },
{
    let mut prog = "(".to_owned();
    prog.append(text);
    prog.append(")");
    let tree = match parse_source(prog.as_str()) {
        Some(tree) => tree,
        None => {
            return Some(Err(CompileError::InvalidShape));
        },
    };
    let program = match parse_program(&tree) {
        Ok(program) => program,
        Err(err) => {
            return Some(Err(err));
        },
    };
    assert(program@ == parse_program_spec(tree@)->Ok_0);
    match try_compile(&program) {
        None => None,
        Some(Err(err)) => Some(Err(err)),
        Some(Ok((func_defs, main))) => Some(Ok(assemble(func_defs.as_str(), main.as_str()))),
    }
}

} // verus!
