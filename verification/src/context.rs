//! The names a translation unit's diagnostics read: identifiers and tokens.

use vstd::prelude::*;

verus! {

/// The text of each interned identifier, by `StringId`, and the parser's
/// name of each token kind.
pub struct Context {
    pub names: Vec<String>,
    pub token_names: Vec<String>,
}

} // verus!
