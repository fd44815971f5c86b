//! Source spans and the errors of the inference pass.

use vstd::prelude::*;

verus! {

/// A value tagged with the place in the source text it came from.
#[derive(Debug)]
pub struct Span<T> {
    pub contents: T,
    pub pos: usize,
    pub len: usize,
}

impl<T: DeepView> DeepView for Span<T> {
    type V = Span<T::V>;

    open spec fn deep_view(&self) -> Span<T::V> {
        Span { contents: self.contents.deep_view(), pos: self.pos, len: self.len }
    }
}

/// What went wrong during inference.
#[derive(Debug, Clone, Copy, PartialEq, Eq, Structural)]
pub enum ErrorKind {
    /// A variable is read or written that the current scope does not bind.
    UnresolvedSymbol,
    /// A call names a procedure that the program does not declare.
    UnknownProcedure,
    /// The instruction stream breaks the stack discipline: a pop from an
    /// empty stack, or an index into something that is not an array.
    MalformedIR,
}

/// An inference failure, with the span of the instruction that caused it.
#[derive(Debug, Clone, Copy, PartialEq, Eq, Structural)]
pub struct AnalysisError {
    pub kind: ErrorKind,
    pub pos: usize,
    pub len: usize,
}

impl ErrorKind {
    /// The error of this kind raised at the given span.
    pub open spec fn at_spec(self, pos: usize, len: usize) -> AnalysisError {
        AnalysisError { kind: self, pos, len }
    }

    /// Attaches the span of the offending instruction.
    pub fn at(self, pos: usize, len: usize) -> (e: AnalysisError)
        ensures
            e == self.at_spec(pos, len),
    {
        AnalysisError { kind: self, pos, len }
    }
}

} // verus!
