use vstd::prelude::*;

verus! {

/// Errors produced by the textual parsing layer.
///
/// Classification and comparison are total and never fail; parsing a game
/// descriptor can reject a malformed rank or suit code, an unknown game
/// variant tag, or a card group whose size does not fit the game variant.
#[derive(Debug, Clone, Copy, PartialEq, Eq, Structural)]
pub enum Error {
    /// A rank code other than 2-9, T, J, Q, K or A.
    InvalidRank,
    /// A suit code other than c, d, h or s.
    InvalidSuit,
    /// A game tag other than texas-holdem, omaha-holdem or five-card-draw.
    InvalidGameVariant,
    /// A board or hand with the wrong number of cards for its position.
    WrongHandArity,
}

} // verus!
