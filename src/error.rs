use vstd::prelude::*;

verus! {

/// Why a pattern could not be compiled.
#[derive(Debug, Clone, Copy, PartialEq, Eq, Structural)]
pub enum RegexError {
    /// The pattern text is malformed; `position` is the index of the offending character.
    SyntaxError { position: usize },
    /// A tree node lacks a child that its kind requires, or a fragment lacks its start or
    /// accepting states.
    InternalInvariantError,
    /// The automaton would need more state ids than a `usize` can count.
    TooManyStates,
}

} // verus!
