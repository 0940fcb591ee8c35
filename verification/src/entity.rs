//! The entities of the simulation: what kinds there are and what each carries.

use vstd::prelude::*;

use crate::units::Point;

verus! {

/// Names one entity for as long as it lives. Ids are never reused.
#[derive(Clone, Copy, Debug, PartialEq, Eq, Structural)]
pub struct EntityId(pub u64);

/// The three kinds of entity.
#[derive(Clone, Copy, Debug, PartialEq, Eq, Structural)]
pub enum Kind {
    Player,
    Bug,
    Laser,
}

/// A horizontal direction of travel.
#[derive(Clone, Copy, Debug, PartialEq, Eq, Structural)]
pub enum Direction {
    Left,
    Right,
}

/// What a bug is doing: sweeping sideways, or stepping down between sweeps.
#[derive(Clone, Copy, Debug, PartialEq, Eq, Structural)]
pub enum MovementMode {
    SweepLeft,
    SweepRight,
    /// Moving down. `remaining_steps` counts the frames left before the frame
    /// that switches to sweeping in `next_direction`.
    Descend { remaining_steps: u32, next_direction: Direction },
}

/// The state an entity carries besides its position, tagged by kind.
#[derive(Clone, Copy, Debug, PartialEq, Eq, Structural)]
pub enum Body {
    /// The ship. `velocity_x` is its signed horizontal speed in sub-units per frame.
    Player { velocity_x: i64 },
    Bug { movement_mode: MovementMode },
    Laser,
}

impl Body {
    /// The kind this state belongs to.
    pub open spec fn spec_kind(self) -> Kind {
        match self {
            Body::Player { .. } => Kind::Player,
            Body::Bug { .. } => Kind::Bug,
            Body::Laser => Kind::Laser,
        }
    }

    /// The kind this state belongs to.
    #[verifier::when_used_as_spec(spec_kind)]
    pub fn kind(self) -> (k: Kind)
        ensures
            k == self.kind(),
    {
        match self {
            Body::Player { .. } => Kind::Player,
            Body::Bug { .. } => Kind::Bug,
            Body::Laser => Kind::Laser,
        }
    }
}

/// One live entity: its id, where it is, and its state.
#[derive(Clone, Copy, Debug, PartialEq, Eq, Structural)]
pub struct Entity {
    pub id: EntityId,
    pub position: Point,
    pub body: Body,
}

/// What a renderer gets to see of an entity: its kind and where to draw it.
#[derive(Clone, Copy, Debug, PartialEq, Eq, Structural)]
pub struct Sprite {
    pub kind: Kind,
    pub position: Point,
}

impl Entity {
    /// The sprite that shows this entity.
    pub open spec fn sprite(self) -> Sprite {
        Sprite { kind: self.body.kind(), position: self.position }
    }
}

} // verus!
