use vstd::prelude::*;

verus! {

/// The options of the command line: where to read the context from.
pub struct Flags {
    pub context: Option<String>,
}

} // verus!
