use vstd::prelude::*;

verus! {

/// The four moves an agent can ask for in the maze.
#[derive(Debug, Copy, Clone, Hash, PartialEq, Eq, Structural)]
pub enum GameEazyMazeAction {
    Up,
    Down,
    Left,
    Right,
}

/// The actions in the order in which the maze tries them.
pub open spec fn all_actions() -> Seq<GameEazyMazeAction> {
    seq![
        GameEazyMazeAction::Up,
        GameEazyMazeAction::Down,
        GameEazyMazeAction::Left,
        GameEazyMazeAction::Right,
    ]
}

/// The action that points the other way.
pub open spec fn opposite(a: GameEazyMazeAction) -> GameEazyMazeAction {
    match a {
        GameEazyMazeAction::Up => GameEazyMazeAction::Down,
        GameEazyMazeAction::Down => GameEazyMazeAction::Up,
        GameEazyMazeAction::Left => GameEazyMazeAction::Right,
        GameEazyMazeAction::Right => GameEazyMazeAction::Left,
    }
}

/// Row offset of an action.
pub open spec fn row_delta(a: GameEazyMazeAction) -> int {
    match a {
        GameEazyMazeAction::Up => -1,
        GameEazyMazeAction::Down => 1,
        _ => 0,
    }
}

/// Column offset of an action.
pub open spec fn column_delta(a: GameEazyMazeAction) -> int {
    match a {
        GameEazyMazeAction::Left => -1,
        GameEazyMazeAction::Right => 1,
        _ => 0,
    }
}

impl GameEazyMazeAction {
    /// The action pointing the other way.
    pub fn opposite(&self) -> (r: GameEazyMazeAction)
        ensures
            r == opposite(*self),
    {
        match self {
            GameEazyMazeAction::Up => GameEazyMazeAction::Down,
            GameEazyMazeAction::Down => GameEazyMazeAction::Up,
            GameEazyMazeAction::Left => GameEazyMazeAction::Right,
            GameEazyMazeAction::Right => GameEazyMazeAction::Left,
        }
    }
}

} // verus!
