//! The ways in which the rules turn a request down.

use vstd::prelude::*;

verus! {

/// Why an operation of the game was refused.
#[derive(Debug, Clone, Copy, PartialEq, Eq, Structural)]
pub enum GameError {
    /// The game, the round or the player asked for does not exist.
    NotFound,
    /// The operation is not valid in the current phase.
    WrongPhase,
    /// The actor is not the player whose turn it is.
    NotYourTurn,
    /// The cards handed in form no combination.
    IllegalTrick,
    /// The cards form a combination that does not beat the one on top.
    IllegalBeat,
    /// A card handed in is not in the actor's hand.
    NotYourCards,
    /// Joining the team would give it a third member.
    TeamFull,
    /// The exchange is not three distinct owned cards for three other players.
    ExchangeInvalid,
    /// A total would leave the range of the integer that holds it.
    OutOfRange,
}

impl GameError {
    /// The words that tell a player what went wrong.
    pub open spec fn text(self) -> &'static str {
        match self {
            GameError::NotFound => "no such game, round or player",
            GameError::WrongPhase => "not possible in this phase",
            GameError::NotYourTurn => "not your turn",
            GameError::IllegalTrick => "the cards form no trick",
            GameError::IllegalBeat => "the trick does not beat the last trick",
            GameError::NotYourCards => "player does not own all cards",
            GameError::TeamFull => "team is full",
            GameError::ExchangeInvalid => "failed to exchange cards",
            GameError::OutOfRange => "a total is out of range",
        }
    }

    /// The message for this refusal.
    pub fn message(&self) -> (r: String)
        ensures
            r@ == self.text()@,
    {
        match self {
            GameError::NotFound => "no such game, round or player".to_owned(),
            GameError::WrongPhase => "not possible in this phase".to_owned(),
            GameError::NotYourTurn => "not your turn".to_owned(),
            GameError::IllegalTrick => "the cards form no trick".to_owned(),
            GameError::IllegalBeat => "the trick does not beat the last trick".to_owned(),
            GameError::NotYourCards => "player does not own all cards".to_owned(),
            GameError::TeamFull => "team is full".to_owned(),
            GameError::ExchangeInvalid => "failed to exchange cards".to_owned(),
            GameError::OutOfRange => "a total is out of range".to_owned(),
        }
    }
}

} // verus!
