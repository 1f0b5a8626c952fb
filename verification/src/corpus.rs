//! The word corpus: records as they come out of the corpus file.

use std::collections::HashMap;
use vstd::prelude::*;

verus! {

/// How common a word is. Every word belongs to exactly one tier.
#[derive(Debug, Clone, Copy, PartialEq, Eq, PartialOrd, Ord, Structural)]
pub enum UsageCategory {
    Core,
    Common,
    Uncommon,
    Obscure,
    Sandbox,
}

/// One word of the corpus. Any of the optional fields may be absent.
#[derive(Debug, Clone)]
pub struct WordData {
    pub id: String,
    pub usage_category: UsageCategory,
    pub word: String,
    pub deprecated: bool,
    pub ku_data: Option<HashMap<String, u16>>,
    pub pu_verbatim: Option<HashMap<String, String>>,
    pub commentary: Option<String>,
    pub definitions: Option<String>,
}

/// The records behind a sequence of references.
pub open spec fn records_of(sample: Seq<&WordData>) -> Seq<WordData> {
    Seq::new(sample.len(), |k: int| *sample[k])
}

} // verus!
