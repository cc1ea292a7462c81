//! The records of the multiplayer protocol that carry no physics values.
//! Durations are whole nanoseconds.

use vstd::prelude::*;

verus! {

/// A player, as the client names itself to the server.
#[derive(Debug, Clone)]
pub struct Player {
    pub uuid: String,
}

/// A request to join a game (a new one when `id` is `None`).
#[derive(Debug, Clone)]
pub struct JoinGame {
    pub id: Option<usize>,
    pub player: Player,
}

/// A request for the current state of game `id`.
#[derive(Debug, Clone, Copy, PartialEq, Eq, Structural)]
pub struct GetUpdate {
    pub id: usize,
}

/// A player, as the server names it to everyone.
#[derive(Debug, Clone, Copy, PartialEq, Eq, Structural, Default)]
pub struct PublicPlayer {
    pub id: usize,
}

/// The game waits for players to join.
#[derive(Debug, Clone, Default)]
pub struct PublicWaitingForPlayers {
    pub players: Vec<PublicPlayer>,
}

/// The game is about to start.
#[derive(Debug, Clone, Default)]
pub struct PublicWarmup {
    pub time: u64,
    pub players: Vec<PublicPlayer>,
}

/// The game is over.
#[derive(Debug, Clone, Default)]
pub struct PublicGameOver {
    pub time: u64,
    pub reserved: Vec<PublicPlayer>,
    pub discard: Vec<PublicPlayer>,
}

} // verus!
