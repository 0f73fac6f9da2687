use vstd::prelude::*;

pub mod graph_viz;

verus! {

} // verus!
