//! Identifiers of players, human or scripted.

use vstd::prelude::*;

verus! {

/// Identifies one player for as long as the match lasts.
#[derive(Debug, Clone, Copy, PartialEq, Eq, Hash, Structural)]
pub struct PlayerID(pub u64);

/// `rand::random::<u64>`: a number drawn from the thread's random
/// generator. Nothing is assumed of the number drawn.
#[verifier::external_body]
fn random_bits() -> (bits: u64) {
    rand::random()
}

impl PlayerID {
    /// A new identifier, drawn at random.
    pub fn random() -> (id: Self) {
        PlayerID(random_bits())
    }

    /// The identifier that holds `bits`.
    pub fn from_bits(bits: u64) -> (id: Self)
        ensures
            id == PlayerID(bits),
    {
        PlayerID(bits)
    }

    /// Tells whether two identifiers name the same player.
    pub fn same(&self, other: &PlayerID) -> (r: bool)
        ensures
            r == (*self == *other),
    {
        self.0 == other.0
    }
}

} // verus!
