//! A verified poker hand-ranking engine.
//!
//! The library classifies any five-card hand into one of the nine poker
//! categories together with the ranks needed to break ties, totally orders
//! classified hands (with the ace-low "wheel" straight as the weakest
//! straight), and searches for each player's strongest five-card hand in
//! Texas hold'em, Omaha hold'em and five-card draw.

pub mod card;
pub mod combination;
pub mod errors;
pub mod game;
pub mod laws;
