use vstd::prelude::*;

verus! {

/// Names the two stroke collections a displacement-against-velocity plot
/// draws, and the plot they share.
pub struct DispVelGraph {
    pub plot_id: String,
    pub front: String,
    pub rear: String,
}

impl DispVelGraph {
    pub fn new(plot_id: String, front_field: String, rear_field: String) -> (r: DispVelGraph)
        ensures
            r.plot_id@ == plot_id@,
            r.front@ == front_field@,
            r.rear@ == rear_field@,
    {
        DispVelGraph { plot_id, front: front_field, rear: rear_field }
    }
}

} // verus!
