use vstd::prelude::*;

verus! {

/// Names the two line stores a suspension travel plot draws.
pub struct SuspensionGraph {
    pub rear_sus_str: String,
    pub front_sus_str: String,
}

impl SuspensionGraph {
    pub fn new(rear_sus_str: String, front_sus_str: String) -> (r: SuspensionGraph)
        ensures
            r.rear_sus_str@ == rear_sus_str@,
            r.front_sus_str@ == front_sus_str@,
    {
        SuspensionGraph { rear_sus_str, front_sus_str }
    }
}

} // verus!
