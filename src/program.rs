use vstd::prelude::*;
use crate::bytecode::{cells, CompileError};
use crate::compiler::{compile_spec, get_bytecode};
use crate::lexer::{tokenise, tokens_of};
use crate::vm::{initial_state, run, run_spec, vals, MState, Outcome, RuntimeError};

verus! {

/// Why a source text did not run to the end.
#[derive(Clone, Copy, Debug, PartialEq, Eq, Structural)]
pub enum Failure {
    Compile(CompileError),
    Runtime(RuntimeError),
}

/// Source text compiled, then run for at most `max_steps` instructions.
pub open spec fn execute_spec(src: Seq<char>, max_steps: nat) -> Result<MState, Failure> {
    match compile_spec(tokens_of(src)) {
        Err(e) => Err(Failure::Compile(e)),
        Ok(code) => match run_spec(code, initial_state(), max_steps) {
            Ok(m) => Ok(m),
            Err(e) => Err(Failure::Runtime(e)),
        },
    }
}

/// Tokenises, compiles and runs a source text. A compile error stops it
/// before anything runs.
pub fn execute(src: &str, max_steps: usize) -> (r: Result<Outcome, Failure>)
    ensures
        match (r, execute_spec(src@, max_steps as nat)) {
            (Ok(o), Ok(m)) => vals(o.output@) == m.output && vals(o.stack@) == m.values,
            (Err(e), Err(e2)) => e == e2,
            _ => false,
        },
{
    let tokens = tokenise(src);
    let code = match get_bytecode(tokens) {
        Ok(c) => c,
        Err(e) => {
            return Err(Failure::Compile(e));
        },
    };
    assert(compile_spec(tokens_of(src@)) == Ok::<_, CompileError>(cells(code@)));
    match run(&code, max_steps) {
        Ok(o) => Ok(o),
        Err(e) => Err(Failure::Runtime(e)),
    }
}

} // verus!
