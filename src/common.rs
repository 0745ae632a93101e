use vstd::prelude::*;

verus! {

/// The two logical seats of a heads-up hand.
#[derive(Copy, Clone, Debug, PartialEq, Eq, Structural)]
pub enum Position {
    Button,
    BigBlind,
}

/// The opponent of `player`.
pub open spec fn other(player: Position) -> Position {
    match player {
        Position::Button => Position::BigBlind,
        Position::BigBlind => Position::Button,
    }
}

pub fn other_player(player: Position) -> (r: Position)
    ensures
        r == other(player),
        r != player,
        other(r) == player,
{
    match player {
        Position::Button => Position::BigBlind,
        Position::BigBlind => Position::Button,
    }
}

} // verus!
