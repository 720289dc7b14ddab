//! State data for the game itself: positions, health and planned turns.

use vstd::prelude::*;

verus! {

/// Grid position of an entity in the world.
///
/// Grid position starts at the lower-left of the world and increases moving
/// up and to the right.
#[derive(Debug, Clone, Copy, PartialEq, Eq, Structural)]
pub struct GridPos {
    pub x: usize,
    pub y: usize,
}

/// Health information for an entity that can be damaged and destroyed.
///
/// Any entity in the world that can be damaged tracks that damage using the
/// `Health` component.
#[derive(Debug, Clone, Copy, PartialEq, Eq, Structural)]
pub struct Health {
    pub max: usize,
    pub current: usize,
}

/// A non-move action a player can queue for their turn.
///
/// No action kinds exist yet; turn resolution is an unresolved extension
/// point, so the type only reserves the slot in the data model.
#[derive(Debug, Clone, Copy, PartialEq, Eq, Structural)]
pub struct PlayerAction;

/// The actions a player will take in their next turn.
///
/// A player's turn happens in two parts: first a move action, followed by
/// as many non-move actions as they choose to make.
#[derive(Debug, Clone, PartialEq, Eq)]
pub struct PlayerTurn {
    pub movement: Option<GridPos>,
    pub actions: Vec<PlayerAction>,
}

/// Mathematical value of a [`PlayerTurn`].
pub struct PlayerTurnV {
    pub movement: Option<GridPos>,
    pub actions: Seq<PlayerAction>,
}

impl View for PlayerTurn {
    type V = PlayerTurnV;

    open spec fn view(&self) -> PlayerTurnV {
        PlayerTurnV { movement: self.movement, actions: self.actions@ }
    }
}

/// The turn a freshly created player starts with: no planned movement and no
/// queued actions.
pub open spec fn empty_turn() -> PlayerTurnV {
    PlayerTurnV { movement: None, actions: Seq::empty() }
}

impl PlayerTurnV {
    /// A turn is empty when it plans no movement and queues no actions.
    pub open spec fn is_empty(self) -> bool {
        self.movement is None && self.actions.len() == 0
    }
}

impl PlayerTurn {
    /// Whether the turn plans no movement and queues no actions.
    pub fn is_empty(&self) -> (r: bool)
        ensures
            r == self@.is_empty(),
    {
        self.movement.is_none() && self.actions.len() == 0
    }
}

impl Default for PlayerTurn {
    /// A new turn starts empty.
    fn default() -> (r: Self)
        ensures
            r@ == empty_turn(),
    {
        PlayerTurn { movement: None, actions: Vec::new() }
    }
}

/// Entity representing a player in the game.
#[derive(Debug, Clone, PartialEq, Eq)]
pub struct Player {
    pub pos: GridPos,
    pub health: Health,
    /// The steps that the player has planned out for their next turn.
    pub pending_turn: PlayerTurn,
}

/// Mathematical value of a [`Player`].
pub struct PlayerV {
    pub pos: GridPos,
    pub health: Health,
    pub pending_turn: PlayerTurnV,
}

impl View for Player {
    type V = PlayerV;

    open spec fn view(&self) -> PlayerV {
        PlayerV { pos: self.pos, health: self.health, pending_turn: self.pending_turn@ }
    }
}

} // verus!
