//! The rules of the pattern analyzer.

use vstd::prelude::*;

verus! {

/// A rule, as it is written down.
#[derive(Debug)]
pub struct Rule {
    pub id: String,
    pub definition: String,
}

/// The rules that a scanner goes by, in the order in which they were loaded.
#[derive(Debug)]
pub struct RuleEngine {
    pub rules: Vec<Rule>,
}

} // verus!
