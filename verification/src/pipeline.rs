//! From a program to its level string, in one step.

use vstd::pervasive::unreached;
use vstd::prelude::*;
use crate::ast::CompoundStatement;
use crate::compiler::{compile, compiled};
use crate::error::CompileError;
use crate::levelstring::{level_text, serialize, MalformedTrigger};
use crate::theorems::lemma_compiled_is_written;

verus! {

/// Compiles a program and writes its triggers out.
///
/// The only failures are those of the compilation: what a program
/// compiles to can always be written out.
pub fn compile_to_level_string(program: &CompoundStatement) -> (r: Result<String, CompileError>)
    ensures
        match r {
            Ok(text) => compiled(program@).result is Ok && level_text(
                compiled(program@).result->Ok_0,
            ) == Ok::<Seq<char>, MalformedTrigger>(text@),
            Err(e) => compiled(program@).result is Err && compiled(program@).result->Err_0 == e@,
        },
{
    let triggers = match compile(program) {
        Err(e) => {
            return Err(e);
        },
        Ok(triggers) => triggers,
    };
    proof {
        lemma_compiled_is_written(program@);
    }
    match serialize(&triggers) {
        Ok(text) => Ok(text),
        Err(_) => unreached(),
    }
}

} // verus!
