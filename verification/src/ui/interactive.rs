//! The prompt manager; the prompts themselves run in the terminal front end.
use vstd::prelude::*;

verus! {

/// Interactive prompt manager.
#[derive(Debug, Clone, Copy)]
pub struct InteractiveManager;

impl InteractiveManager {
    /// A prompt manager.
    pub fn new() -> (m: Self) {
        InteractiveManager
    }
}

} // verus!
