use vstd::prelude::*;

verus! {

#[derive(Clone, Copy, Debug, PartialEq, Eq, Structural)]
pub struct NewUserEvent {
    pub user_id: u64,
}

/// A registered user and the items they own, in order of creation.
pub struct User {
    pub id: u64,
    pub owned_items: Vec<u64>,
}

impl User {
    pub fn new(id: u64) -> (r: User)
        ensures
            r.id == id,
            r.owned_items@.len() == 0,
    {
        User { id, owned_items: Vec::new() }
    }
}

} // verus!
