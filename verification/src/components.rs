use crate::battle_grid::TileStatus;
use crate::coordinate::Coordinate;
use crate::direction::Direction;
use vstd::prelude::*;

verus! {

/// Identity of a participant. Two records speak of the same participant
/// exactly when their identities are equal.
#[derive(Clone, Copy, PartialEq, Eq, Structural, Debug, Hash)]
pub struct EntityId(pub u64);

/// Marks a participant that waits for the player's confirmation.
#[derive(Clone, Copy, PartialEq, Eq, Structural, Debug)]
pub struct Player;

/// Marks a participant that decides for itself.
#[derive(Clone, Copy, PartialEq, Eq, Structural, Debug)]
pub struct Enemy;

/// What a participant adds to its initiative roll, and how it fares in a
/// tie.
#[derive(Clone, Copy, PartialEq, Eq, Structural, Debug)]
pub struct Initiative {
    pub init_mod: i32,
    pub priority: i32,
}

#[derive(Clone, Debug)]
pub struct Name {
    pub val: String,
}

#[derive(Clone, Copy, PartialEq, Eq, Structural, Debug)]
pub struct ActionPoints {
    pub current: i32,
    pub max: i32,
}

impl ActionPoints {
    /// A full pool of `max` points.
    pub fn new(max: i32) -> (points: ActionPoints)
        ensures
            points.current == max,
            points.max == max,
    {
        ActionPoints { current: max, max }
    }
}

/// The participant that made a declaration.
#[derive(Clone, Copy, PartialEq, Eq, Structural, Debug)]
pub struct Source {
    pub entity: EntityId,
}

/// A planned walk: unit steps, taken in order.
#[derive(Clone, Debug)]
pub struct Move {
    pub dirs: Vec<Direction>,
}

/// Marks the end of a participant's declarations for the round.
#[derive(Clone, Copy, PartialEq, Eq, Structural, Debug)]
pub struct ActionDeclarationFinished;

/// Marks a record that lives no longer than the round it was made in.
#[derive(Clone, Copy, PartialEq, Eq, Structural, Debug)]
pub struct Round;

/// What a declaration says.
#[derive(Clone, Debug)]
pub enum Declaration {
    /// The source plans to walk.
    Movement(Move),
    /// The source has nothing more to declare.
    Finished(ActionDeclarationFinished),
}

/// A declaration made during the declare phase, kept until it is resolved
/// or the round ends.
#[derive(Clone, Debug)]
pub struct Message {
    pub source: Source,
    pub content: Declaration,
    pub scope: Round,
}

impl Message {
    /// This message closes the declarations of `entity`.
    pub open spec fn finishes(&self, entity: EntityId) -> bool {
        self.source.entity == entity && self.content is Finished
    }
}

/// A participant that stands on the board.
#[derive(Clone, Copy, PartialEq, Eq, Structural, Debug)]
pub struct Piece {
    pub entity: EntityId,
    pub coord: Coordinate,
    pub status: TileStatus,
}

} // verus!
