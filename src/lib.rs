use vstd::prelude::*;

pub mod automaton;
pub mod compiler;
pub mod error;
pub mod regexp;
pub mod viz;

pub use error::RegexError;
pub use regexp::RegExp;

verus! {

} // verus!
