use vstd::prelude::*;

verus! {

/// What a cell of the maze is: a cell the agent may stand on, or a wall.
#[derive(Debug, Copy, Clone, PartialEq, Eq, Structural)]
pub enum GameEasyMazeLiteral {
    MOVABLE,
    BLOCK,
}

} // verus!
