use vstd::prelude::*;

verus! {

/// A replicated world object, known by a one-byte id.
#[derive(Clone, Debug)]
pub struct Entity {
    pub id: u8,
}

impl Entity {
    pub fn new(id: u8) -> (r: Entity)
        ensures
            r.id == id,
    {
        Self { id }
    }
}

} // verus!
