use crate::components::EntityId;
use vstd::prelude::*;

verus! {

/// Where the player's cards are: the deck, the discard pile and the hand.
pub struct CardZones {
    pub deck: Vec<EntityId>,
    pub discard: Vec<EntityId>,
    pub hand: Vec<EntityId>,
}

impl CardZones {
    /// Three empty zones.
    pub fn new() -> (zones: CardZones)
        ensures
            zones.deck@ == Seq::<EntityId>::empty(),
            zones.discard@ == Seq::<EntityId>::empty(),
            zones.hand@ == Seq::<EntityId>::empty(),
    {
        CardZones { deck: Vec::new(), discard: Vec::new(), hand: Vec::new() }
    }
}

} // verus!
