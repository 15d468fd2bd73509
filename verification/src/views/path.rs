//! Route paths under a common prefix.

use vstd::prelude::*;

verus! {

/// A prefix shared by the routes of one page group.
#[derive(Debug, PartialEq, Eq)]
pub struct Path {
    pub prefix: String,
}

impl Path {
    /// The full path of a route of the group.
    pub fn define(&self, route: String) -> (res: String)
        ensures
            res@ == self.prefix@ + route@,
    {
        let mut path = self.prefix.clone();
        path.append(route.as_str());
        path
    }
}

} // verus!
