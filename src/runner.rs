//! Plain records of a compile-and-run request and of the compiled program's
//! text, which the service hands back beside the trace data.

use vstd::prelude::*;

verus! {

/// A Sierra program, one text line per declaration, statement or function.
#[derive(Clone, Debug)]
pub struct SierraFormattedProgram {
    pub type_declarations: Vec<String>,
    pub libfunc_declarations: Vec<String>,
    pub statements: Vec<String>,
    pub funcs: Vec<String>,
}

/// A request: the program's source text and its arguments, if any.
#[derive(Clone, Debug)]
pub struct RunnerPayload {
    pub cairo_program_code: String,
    pub program_arguments: Option<String>,
}

} // verus!
