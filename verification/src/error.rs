//! Errors and diagnostics.
//!
//! Node-local faults are recovered: the engine substitutes a neutral result,
//! records a `Diagnostic`, and goes on collecting further diagnostics.
//! Run-global faults (`ExpandError`) abort the whole run.

use vstd::prelude::*;
use crate::ast::Span;

verus! {

/// A fault that aborts the whole expansion run.
#[derive(Clone, Copy, Debug, PartialEq, Eq, Structural)]
pub enum ExpandError {
    /// a modifier attribute produced other than exactly one result node
    ModifierArityViolation { span: Span, found: usize },
    /// the nesting depth exceeded the configured recursion limit
    RecursionLimitExceeded { span: Span, depth: usize },
    /// a placeholder had no recorded result when substitution reached it
    MissingPlaceholder { id: u64 },
    /// the run used up the whole supply of fresh identities
    IdentityExhausted,
}

/// A recoverable, node-local fault, reported with its originating location.
#[derive(Clone, Copy, Debug, PartialEq, Eq, Structural)]
pub enum DiagKind {
    /// no registered extension matches a function-like invocation
    UnresolvedExtension,
    /// a qualified or otherwise ill-shaped invocation name, or a missing or
    /// superfluous identifier argument
    MalformedInvocation,
    /// an extension produced a shape incompatible with the requested kind
    ResultKindMismatch,
    /// a non-word entry inside a derive list; the entry is skipped
    MalformedDeriveEntry,
    /// a derive attribute with an empty trait list; a warning only
    EmptyDeriveList,
    /// a derive entry names no built-in trait and custom derives are off
    CustomDeriveDisabled,
}

/// One recorded node-local fault.
#[derive(Clone, Copy, Debug, PartialEq, Eq, Structural)]
pub struct Diagnostic {
    pub span: Span,
    pub kind: DiagKind,
}

/// The error a whole engine run reports to its caller.
#[derive(Debug)]
pub enum Error {
    /// the input could not be parsed, or expansion recorded diagnostics
    Parse,
    /// an input/output fault, with its message
    Io(String),
    /// a run-global expansion fault
    Expand(ExpandError),
}

impl Error {
    /// A short account of the error, in place of a formatted message.
    pub fn description(&self) -> (r: &'static str)
        ensures
            self is Parse ==> r@ == "failed to parse input"@,
    {
        match self {
            Error::Parse => "failed to parse input",
            Error::Io(_) => "input/output error",
            Error::Expand(_) => "expansion failed",
        }
    }
}

} // verus!
