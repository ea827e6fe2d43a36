use vstd::prelude::*;

verus! {

/// One of the two players. `Player1` moves first on a fresh board.
#[derive(Clone, Copy, Debug, PartialEq, Eq, Structural)]
pub enum Player {
    Player1,
    Player2,
}

impl Player {
    /// The opponent of this player.
    pub open spec fn other(self) -> Player {
        match self {
            Player::Player1 => Player::Player2,
            Player::Player2 => Player::Player1,
        }
    }

    /// The one-character mark this player leaves on a rendered board.
    pub open spec fn mark_spec(self) -> char {
        match self {
            Player::Player1 => 'X',
            Player::Player2 => 'O',
        }
    }

    /// The player whose turn follows this player's turn.
    pub fn get_next(&self) -> (r: Player)
        ensures
            r == self.other(),
    {
        match self {
            Player::Player1 => Player::Player2,
            Player::Player2 => Player::Player1,
        }
    }

    /// The player whose turn preceded this player's turn. Turns alternate
    /// strictly, so this coincides with `get_next`.
    pub fn get_last(&self) -> (r: Player)
        ensures
            r == self.other(),
    {
        match self {
            Player::Player1 => Player::Player2,
            Player::Player2 => Player::Player1,
        }
    }

    /// The one-character mark used when the board is rendered.
    pub fn mark(&self) -> (c: char)
        ensures
            c == self.mark_spec(),
    {
        match self {
            Player::Player1 => 'X',
            Player::Player2 => 'O',
        }
    }
}

} // verus!
