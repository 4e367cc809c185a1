//! A lexer and tree-walking evaluator for a minimal imperative
//! "while-language": unsigned-integer variables, `void`/`num` methods with
//! positional parameters, compound `+=`/`-=` updates, `while x != 0:` loops
//! closed by an escape marker line `#`, and `return`.
//!
//! The parser turns an ordered list of source lines into a nested statement
//! tree plus a method table; the runtime executes that tree against a
//! depth-tagged variable environment with shadowing and frame semantics.
//! Every executable function carries a contract relating it to the
//! mathematical semantics in `model` and `semantics`.

#![verifier::loop_isolation(false)]

pub mod status;
pub mod code_line;
pub mod lexis;
pub mod model;
pub mod tokens;
pub mod scopes;
pub mod semantics;
pub mod env;
pub mod runtime;
pub mod laws;

use vstd::prelude::*;

verus! {

} // verus!
