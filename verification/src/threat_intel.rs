//! Known indicators of compromise.

use crate::table::Table;
use vstd::prelude::*;

verus! {

/// The campaigns that known indicators belong to.
pub struct IocDatabase {
    /// The names of the campaigns, by their identifiers.
    pub campaigns: Table<String>,
}

/// An indicator found in a text.
#[derive(Debug)]
pub struct IocHit {
    /// The kind of the indicator in words.
    pub kind_label: String,
    /// The identifier of the kind.
    pub kind_name: String,
    /// The indicator itself.
    pub value: String,
    /// The identifier of the campaign that it belongs to.
    pub campaign: Option<String>,
    /// The line on which it was found.
    pub line: usize,
}

impl View for IocDatabase {
    type V = Map<Seq<char>, Seq<char>>;

    open spec fn view(&self) -> Map<Seq<char>, Seq<char>> {
        self.campaigns@.map_values(|name: String| name@)
    }
}

impl IocDatabase {
    /// The name of the campaign with the given identifier.
    pub fn campaign(&self, id: &str) -> (r: Option<&String>)
        ensures
            match r {
                Some(n) => self@.contains_key(id@) && n@ == self@[id@],
                None => !self@.contains_key(id@),
            },
    {
        self.campaigns.get(id)
    }
}

} // verus!
