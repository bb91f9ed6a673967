use vstd::prelude::*;

verus! {

/// Whether the game goes on after an update.
#[derive(Clone, Copy, Debug, PartialEq, Eq, Structural)]
pub enum State {
    Running,
    Terminated,
}

} // verus!
