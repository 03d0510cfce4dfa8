//! The vocabularies by which tokens are counted.
use vstd::prelude::*;

verus! {

/// A vocabulary.
#[derive(Clone, Copy, Debug, Eq, PartialEq, Structural)]
pub enum TokenizerId {
    Cl100kBase,
    O200kBase,
}

} // verus!
