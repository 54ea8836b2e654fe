//! The XML sources of one spec family, as the parser takes them.

use vstd::prelude::*;

verus! {

/// XML text for one spec family: the primary document plus any
/// supplementals.  The parser reads all of them in order, treating the
/// supplementals as if merged into the primary.
pub struct SpecSources {
    pub primary: String,
    pub supplementals: Vec<String>,
    /// Registry keys of the files merged for this generation — the primary
    /// spec followed by the supplementals — in order.
    pub source_keys: Vec<String>,
}

impl SpecSources {
    /// The texts to parse: the primary, then each supplemental.
    pub open spec fn texts(&self) -> Seq<Seq<char>> {
        seq![self.primary@] + self.supplementals@.map_values(|s: String| s@)
    }
}

} // verus!
