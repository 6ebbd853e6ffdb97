//! The text that names the held surface.

use vstd::prelude::*;

use crate::player::Player;

verus! {

/// Keeps the on-screen text that names the held surface.
pub struct CurrentBlockUiSystem;

impl CurrentBlockUiSystem {
    /// The text to show for the player's held surface; without one the text
    /// is left as it is.
    pub fn block_label(&self, player: &Player) -> (r: Option<&'static str>)
        ensures
            match player.current_block {
                Some(s) => r is Some && r.unwrap()@ == s.label(),
                None => r is None,
            },
    {
        match player.current_block {
            Some(s) => Some(s.name()),
            None => None,
        }
    }
}

} // verus!
