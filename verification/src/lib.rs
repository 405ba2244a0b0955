//! Rules and round engine of a four-player partnership trick-taking card game
//! in the Tichu family: the card model, the classification of combinations,
//! the dominance relation between combinations, the seating cycle, and the
//! bookkeeping of a round up to the scoring roll-up.

pub mod card;
pub mod compare;
pub mod deck;
pub mod error;
pub mod game;
pub mod hand;
pub mod lobby;
pub mod player;
pub mod round;
pub mod scoring;
pub mod sound;
pub mod theorems;
pub mod trick;
