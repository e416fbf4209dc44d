//! Expression-driven pairwise graph generator.
//!
//! Given an arithmetic/boolean expression over two free variables `a` and `b`
//! and a point count `n`, the library decides for every unordered pair of
//! point indices in `[1, n]` whether an edge exists (the expression evaluates
//! to a truthy value in either binding order) and assembles the edges into an
//! ordered sequence of path-drawing commands over point indices.

use vstd::prelude::*;

pub mod expr;
pub mod path;

verus! {

/// The two ways a graph request can fail: the expression text does not parse,
/// or evaluating it on some pair of point indices fails at run time.
#[derive(Debug)]
pub enum GraphError {
    /// The expression text is not a valid expression; carries a description.
    CompileError(String),
    /// Evaluating the compiled expression failed; carries a description.
    EvalError(String),
}

impl GraphError {
    /// The human-readable description carried by either variant.
    pub fn message(&self) -> (r: &String)
        ensures
            r@ == self.message_spec(),
    {
        match self {
            GraphError::CompileError(m) => m,
            GraphError::EvalError(m) => m,
        }
    }

    pub open spec fn message_spec(&self) -> Seq<char> {
        match self {
            GraphError::CompileError(m) => m@,
            GraphError::EvalError(m) => m@,
        }
    }
}

} // verus!
