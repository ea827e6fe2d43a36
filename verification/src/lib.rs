//! An m,n,k board game engine: an `M`-wide by `N`-tall grid on which a player
//! wins by completing `K` same-marked cells in an unbroken horizontal,
//! vertical or diagonal line.
//!
//! The crate owns the board state, move enumeration, win detection and the
//! execute/undo mutation protocol; interactive play and presentation are left
//! to callers.

use vstd::prelude::*;

pub mod board;
pub mod input;
pub mod moves;
pub mod player;
pub mod render;
pub mod win;

pub use board::BoardModel;
pub use board::GameError;
pub use board::GameResult;
pub use board::MNKBoard;
pub use board::lemma_clear_cells;
pub use board::lemma_execute_undo_roundtrip;
pub use board::lemma_place_cells;
pub use input::parse_input;
pub use moves::lemma_moves_plus_occupied;
pub use player::Player;
pub use render::mark_of;
pub use win::is_dir;
pub use win::step_coord;

verus! {

pub fn bar() -> (r: [i32; 3])
    ensures
        r@ == seq![1i32, 2i32, 3i32],
{
    let r = [1, 2, 3];
    proof {
        assert(r@ =~= seq![1i32, 2i32, 3i32]);
    }
    r
}

} // verus!
