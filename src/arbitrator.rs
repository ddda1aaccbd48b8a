use vstd::prelude::*;

verus! {

#[derive(Clone, Copy, Debug, PartialEq, Eq, Structural)]
pub struct NewArbitratorEvent {
    pub arbitrator_id: u64,
}

/// An arbitrator, known by the id of their credential.
#[derive(Clone, Copy, Debug, PartialEq, Eq, Structural)]
pub struct Arbitrator {
    pub id: u64,
}

impl Arbitrator {
    pub fn new(id: u64) -> (r: Arbitrator)
        ensures
            r.id == id,
    {
        Arbitrator { id }
    }
}

} // verus!
