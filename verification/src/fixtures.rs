//! The shape of a conformance fixture's metadata: whether a sample
//! document's syntax is good, or bad at a named position. Loading fixtures
//! from disk is a collaborator's job; these are the plain values it hands
//! over.

use vstd::prelude::*;

verus! {

/// The expected syntax outcome recorded for a sample document.
#[derive(Debug, Clone, PartialEq, Eq, Structural)]
pub enum Syntax {
    Good {},
    Bad { character_position: u64, line: u64, column: u64 },
}

impl Default for Syntax {
    /// A sample is assumed well-formed unless marked otherwise.
    fn default() -> (r: Syntax)
        ensures
            r == (Syntax::Good {  }),
    {
        Syntax::Good {  }
    }
}

/// What a fixture's metadata records about its sample document.
#[derive(Debug, Clone)]
pub struct TestMetadata {
    pub description: String,
    pub syntax: Syntax,
}

impl TestMetadata {
    /// Whether the sample is recorded as well-formed.
    pub fn is_good(&self) -> (r: bool)
        ensures
            r == (self.syntax is Good),
    {
        match self.syntax {
            Syntax::Good {  } => true,
            Syntax::Bad { .. } => false,
        }
    }
}

} // verus!
