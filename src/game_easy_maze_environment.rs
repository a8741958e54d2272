use vstd::prelude::*;

use crate::game_easy_maze_action::all_actions;
use crate::game_easy_maze_action::column_delta;
use crate::game_easy_maze_action::opposite;
use crate::game_easy_maze_action::row_delta;
use crate::game_easy_maze_action::GameEazyMazeAction;
use crate::game_easy_maze_literal::GameEasyMazeLiteral;
use crate::game_easy_maze_state::GameEasyMazeState;

verus! {

/// Reward of one step in the maze, in thousandths: a small cost per action.
pub const DEFAULT_REWARD_MILLIS: i64 = -40;

/// The chance that the intended move happens, as `numerator / denominator`.
#[derive(Debug, Copy, Clone, PartialEq, Eq, Structural)]
pub struct MoveProbability {
    pub numerator: u32,
    pub denominator: u32,
}

impl MoveProbability {
    /// A probability in (0, 1].
    pub open spec fn valid(self) -> bool {
        0 < self.numerator <= self.denominator
    }
}

#[derive(Debug, Copy, Clone, PartialEq, Eq, Structural)]
pub enum MazeError {
    /// The grid has no row, or its first row has no cell.
    EmptyGrid,
    /// The rows of the grid differ in length.
    RaggedGrid,
    /// The move probability is not in (0, 1].
    InvalidProbability,
    /// No move is defined from this state: the episode is over.
    IllegalState,
}

/// One entry of a transition distribution: a next state and its weight.
pub type Outcome = (GameEasyMazeState, u64);

/// The grid as rows of cells.
pub open spec fn grid_model(grid: Seq<Vec<GameEasyMazeLiteral>>) -> Seq<Seq<GameEasyMazeLiteral>> {
    grid.map_values(|row: Vec<GameEasyMazeLiteral>| row@)
}

pub open spec fn is_empty_grid(g: Seq<Seq<GameEasyMazeLiteral>>) -> bool {
    g.len() == 0 || g[0].len() == 0
}

pub open spec fn is_rectangular(g: Seq<Seq<GameEasyMazeLiteral>>) -> bool {
    forall|i: int| 0 <= i < g.len() ==> #[trigger] g[i].len() == g[0].len()
}

/// The cell at (row, column) lies in the grid and is movable.
pub open spec fn movable_in(g: Seq<Seq<GameEasyMazeLiteral>>, row: int, column: int) -> bool {
    &&& 0 <= row < g.len()
    &&& 0 <= column < g[row].len()
    &&& g[row][column] == GameEasyMazeLiteral::MOVABLE
}

/// Where action `a` takes the agent from `s`: the neighbouring cell if it is
/// in the grid and movable, else `s` itself.
pub open spec fn attempt_move(
    g: Seq<Seq<GameEasyMazeLiteral>>,
    s: GameEasyMazeState,
    a: GameEazyMazeAction,
) -> GameEasyMazeState {
    let r = s.row + row_delta(a);
    let c = s.column + column_delta(a);
    if movable_in(g, r, c) {
        GameEasyMazeState { row: r as i32, column: c as i32 }
    } else {
        s
    }
}

/// The weight of action `a` when `intended` is asked for, in units of
/// `1 / weight_denominator(p)`: `p` for the intended action, `(1 - p) / 2`
/// for each side action, nothing for the opposite one.
pub open spec fn action_weight(
    p: MoveProbability,
    intended: GameEazyMazeAction,
    a: GameEazyMazeAction,
) -> nat {
    if a == intended {
        (2 * p.numerator) as nat
    } else if a == opposite(intended) {
        0
    } else {
        (p.denominator - p.numerator) as nat
    }
}

/// The weights of a distribution sum to this.
pub open spec fn weight_denominator(p: MoveProbability) -> nat {
    (2 * p.denominator) as nat
}

/// The weight that the first `k` actions carry to `t`.
pub open spec fn weight_upto(
    g: Seq<Seq<GameEasyMazeLiteral>>,
    p: MoveProbability,
    s: GameEasyMazeState,
    intended: GameEazyMazeAction,
    t: GameEasyMazeState,
    k: int,
) -> nat
    decreases k,
{
    if k <= 0 {
        0
    } else {
        weight_upto(g, p, s, intended, t, k - 1) + if attempt_move(g, s, all_actions()[k - 1])
            == t {
            action_weight(p, intended, all_actions()[k - 1])
        } else {
            0
        }
    }
}

/// The weight with which asking for `intended` at `s` ends in `t`.
pub open spec fn outcome_weight(
    g: Seq<Seq<GameEasyMazeLiteral>>,
    p: MoveProbability,
    s: GameEasyMazeState,
    intended: GameEazyMazeAction,
    t: GameEasyMazeState,
) -> nat {
    weight_upto(g, p, s, intended, t, 4)
}

/// The weight of the first `k` actions together.
pub open spec fn action_weight_upto(p: MoveProbability, intended: GameEazyMazeAction, k: int) -> nat
    decreases k,
{
    if k <= 0 {
        0
    } else {
        action_weight_upto(p, intended, k - 1) + action_weight(p, intended, all_actions()[k - 1])
    }
}

/// The sum of the weights of a list of outcomes.
pub open spec fn total_weight(d: Seq<Outcome>) -> nat
    decreases d.len(),
{
    if d.len() == 0 {
        0
    } else {
        (total_weight(d.drop_last()) + d.last().1) as nat
    }
}

pub open spec fn keys_unique(d: Seq<Outcome>) -> bool {
    forall|i: int, j: int| 0 <= i < j < d.len() ==> d[i].0 != d[j].0
}

/// `d` is the distribution of asking for `intended` at `s`: one entry for
/// each state reached with a positive weight, holding that weight.
pub open spec fn is_distribution(
    g: Seq<Seq<GameEasyMazeLiteral>>,
    p: MoveProbability,
    s: GameEasyMazeState,
    intended: GameEazyMazeAction,
    d: Seq<Outcome>,
) -> bool {
    &&& keys_unique(d)
    &&& forall|i: int|
        #![trigger d[i]]
        0 <= i < d.len() ==> d[i].1 > 0 && d[i].1 == outcome_weight(g, p, s, intended, d[i].0)
    &&& forall|t: GameEasyMazeState|
        outcome_weight(g, p, s, intended, t) > 0 ==> exists|i: int| 0 <= i < d.len() && #[trigger] d[i].0 == t
}

/// `v` lists each movable cell of `g` once, and nothing else.
pub open spec fn lists_movable(g: Seq<Seq<GameEasyMazeLiteral>>, v: Seq<GameEasyMazeState>) -> bool {
    &&& v.no_duplicates()
    &&& forall|s: GameEasyMazeState| v.contains(s) <==> movable_in(g, s.row as int, s.column as int)
}

proof fn lemma_total_push(d: Seq<Outcome>, x: Outcome)
    ensures
        total_weight(d.push(x)) == total_weight(d) + x.1,
{
    assert(d.push(x).drop_last() =~= d);
}

proof fn lemma_total_update(d: Seq<Outcome>, i: int, x: Outcome)
    requires
        0 <= i < d.len(),
    ensures
        total_weight(d.update(i, x)) + d[i].1 == total_weight(d) + x.1,
    decreases d.len(),
{
    if i == d.len() - 1 {
        assert(d.update(i, x).drop_last() =~= d.drop_last());
    } else {
        assert(d.update(i, x).drop_last() =~= d.drop_last().update(i, x));
        lemma_total_update(d.drop_last(), i, x);
    }
}

proof fn lemma_entry_within_total(d: Seq<Outcome>, i: int)
    requires
        0 <= i < d.len(),
    ensures
        d[i].1 <= total_weight(d),
    decreases d.len(),
{
    if i < d.len() - 1 {
        lemma_entry_within_total(d.drop_last(), i);
    }
}

proof fn lemma_action_weights_total(p: MoveProbability, intended: GameEazyMazeAction)
    requires
        p.valid(),
    ensures
        action_weight_upto(p, intended, 4) == weight_denominator(p),
{
    reveal_with_fuel(action_weight_upto, 5);
}

proof fn lemma_action_weight_upto_mono(p: MoveProbability, intended: GameEazyMazeAction, j: int, k: int)
    requires
        0 <= j <= k,
    ensures
        action_weight_upto(p, intended, j) <= action_weight_upto(p, intended, k),
    decreases k - j,
{
    if j < k {
        lemma_action_weight_upto_mono(p, intended, j, k - 1);
    }
}

/// The opposite action carries no weight, so a state that only the opposite
/// action reaches has weight zero.
pub proof fn lemma_backwards_unweighted(
    g: Seq<Seq<GameEasyMazeLiteral>>,
    p: MoveProbability,
    s: GameEasyMazeState,
    intended: GameEazyMazeAction,
)
    ensures
        action_weight(p, intended, opposite(intended)) == 0,
        (forall|a: GameEazyMazeAction|
            a != opposite(intended) ==> #[trigger] attempt_move(g, s, a) != attempt_move(
                g,
                s,
                opposite(intended),
            )) ==> outcome_weight(g, p, s, intended, attempt_move(g, s, opposite(intended)))
            == 0,
{
    reveal_with_fuel(weight_upto, 5);
}

/// A move into a wall or off the grid leaves the agent where it is, however
/// often it is tried.
pub proof fn lemma_rejected_move_stays(
    g: Seq<Seq<GameEasyMazeLiteral>>,
    s: GameEasyMazeState,
    a: GameEazyMazeAction,
)
    requires
        !movable_in(g, s.row + row_delta(a), s.column + column_delta(a)),
    ensures
        attempt_move(g, s, a) == s,
        attempt_move(g, attempt_move(g, s, a), a) == s,
{
}

/// A maze with a fixed grid and a fixed chance that a move goes as intended.
#[derive(Debug)]
pub struct GameEazyMazeEnvironment {
    grid: Vec<Vec<GameEasyMazeLiteral>>,
    state: GameEasyMazeState,
    move_prob: MoveProbability,
    row_length: usize,
    column_length: usize,
    actions: [GameEazyMazeAction; 4],
    movable_states: Vec<GameEasyMazeState>,
}

impl GameEazyMazeEnvironment {
    /// The cells of the grid, row by row.
    pub closed spec fn cells(&self) -> Seq<Seq<GameEasyMazeLiteral>> {
        grid_model(self.grid@)
    }

    /// The chance that a move goes as intended.
    pub closed spec fn probability(&self) -> MoveProbability {
        self.move_prob
    }

    /// The states the agent may stand on.
    pub closed spec fn movable(&self) -> Seq<GameEasyMazeState> {
        self.movable_states@
    }

    pub closed spec fn wf(&self) -> bool {
        &&& !is_empty_grid(self.cells())
        &&& is_rectangular(self.cells())
        &&& self.row_length == self.grid@.len()
        &&& self.column_length == self.grid@[0]@.len()
        &&& self.row_length <= i32::MAX
        &&& self.column_length <= i32::MAX
        &&& self.move_prob.valid()
        &&& self.actions@ == all_actions()
        &&& lists_movable(self.cells(), self.movable_states@)
        &&& self.state == (GameEasyMazeState { row: -1i32, column: -1i32 })
    }

    /// A well-formed maze has a non-empty rectangular grid whose sides fit
    /// `i32` coordinates, a probability in (0, 1], and lists its movable states.
    pub proof fn lemma_wf_shape(&self)
        requires
            self.wf(),
        ensures
            !is_empty_grid(self.cells()),
            is_rectangular(self.cells()),
            self.cells().len() <= i32::MAX,
            self.cells()[0].len() <= i32::MAX,
            self.probability().valid(),
            lists_movable(self.cells(), self.movable()),
    {
    }

    /// Builds a maze over `grid`, where a move goes as intended with chance
    /// `move_prob`. The grid must have a cell and rows of equal length.
    pub fn new(grid: Vec<Vec<GameEasyMazeLiteral>>, move_prob: MoveProbability) -> (r: Result<
        GameEazyMazeEnvironment,
        MazeError,
    >)
        requires
            grid@.len() <= i32::MAX,
            forall|i: int| 0 <= i < grid@.len() ==> #[trigger] grid@[i]@.len() <= i32::MAX,
        ensures
            match r {
                Ok(env) => {
                    &&& !is_empty_grid(grid_model(grid@))
                    &&& is_rectangular(grid_model(grid@))
                    &&& move_prob.valid()
                    &&& env.wf()
                    &&& env.cells() == grid_model(grid@)
                    &&& env.probability() == move_prob
                },
                Err(e) => {
                    &&& e == (if is_empty_grid(grid_model(grid@)) {
                        MazeError::EmptyGrid
                    } else if !is_rectangular(grid_model(grid@)) {
                        MazeError::RaggedGrid
                    } else {
                        MazeError::InvalidProbability
                    })
                    &&& (is_empty_grid(grid_model(grid@)) || !is_rectangular(grid_model(grid@))
                        || !move_prob.valid())
                },
            },
    {
        if grid.len() == 0 || grid[0].len() == 0 {
            return Err(MazeError::EmptyGrid);
        }
        let row_length = grid.len();
        let column_length = grid[0].len();
        let mut i: usize = 0;
        while i < row_length
            invariant
                row_length == grid@.len(),
                column_length == grid@[0]@.len(),
                column_length > 0,
                i <= row_length,
                forall|k: int| 0 <= k < i ==> #[trigger] grid@[k]@.len() == column_length,
            decreases row_length - i,
        {
            if grid[i].len() != column_length {
                assert(grid_model(grid@)[i as int].len() != grid_model(grid@)[0].len());
                assert(grid_model(grid@)[0] == grid@[0]@);
                return Err(MazeError::RaggedGrid);
            }
            i = i + 1;
        }
        if !(0 < move_prob.numerator && move_prob.numerator <= move_prob.denominator) {
            return Err(MazeError::InvalidProbability);
        }
        let movable_states = GameEazyMazeEnvironment::get_movable_states(grid.as_slice());
        let env = GameEazyMazeEnvironment {
            grid,
            state: GameEasyMazeState::new(-1, -1),
            move_prob,
            row_length,
            column_length,
            actions: [
                GameEazyMazeAction::Up,
                GameEazyMazeAction::Down,
                GameEazyMazeAction::Left,
                GameEazyMazeAction::Right,
            ],
            movable_states,
        };
        assert(env.actions@ =~= all_actions());
        Ok(env)
    }

    /// Every movable cell of `slice`, each once.
    pub fn get_movable_states(slice: &[Vec<GameEasyMazeLiteral>]) -> (r: Vec<GameEasyMazeState>)
        requires
            slice@.len() <= i32::MAX,
            forall|i: int| 0 <= i < slice@.len() ==> #[trigger] slice@[i]@.len() <= i32::MAX,
        ensures
            lists_movable(grid_model(slice@), r@),
    {
        let ghost g = grid_model(slice@);
        let mut movable_states: Vec<GameEasyMazeState> = Vec::new();
        let row_size = slice.len();
        let mut i: usize = 0;
        while i < row_size
            invariant
                g == grid_model(slice@),
                row_size == slice@.len() <= i32::MAX,
                forall|k: int| 0 <= k < slice@.len() ==> #[trigger] slice@[k]@.len() <= i32::MAX,
                i <= row_size,
                movable_states@.no_duplicates(),
                forall|s: GameEasyMazeState|
                    movable_states@.contains(s) <==> (movable_in(g, s.row as int, s.column as int)
                        && s.row < i),
            decreases row_size - i,
        {
            let column_size = slice[i].len();
            let mut j: usize = 0;
            while j < column_size
                invariant
                    g == grid_model(slice@),
                    row_size == slice@.len() <= i32::MAX,
                    i < row_size,
                    column_size == slice@[i as int]@.len() <= i32::MAX,
                    j <= column_size,
                    movable_states@.no_duplicates(),
                    forall|s: GameEasyMazeState|
                        movable_states@.contains(s) <==> (movable_in(g, s.row as int, s.column as int)
                            && (s.row < i || (s.row == i && s.column < j))),
                decreases column_size - j,
            {
                if slice[i][j] == GameEasyMazeLiteral::MOVABLE {
                    let s = GameEasyMazeState::new(i as i32, j as i32);
                    let ghost old_v = movable_states@;
                    proof {
                        assert(!old_v.contains(s));
                        assert forall|a: int, b: int|
                            0 <= a < b < old_v.len() + 1 implies old_v.push(s)[a] != old_v.push(
                            s,
                        )[b] by {
                            if b == old_v.len() {
                                assert(old_v.contains(old_v[a]));
                            }
                        }
                    }
                    movable_states.push(s);
                    proof {
                        assert(g[i as int][j as int] == slice@[i as int]@[j as int]);
                        assert forall|t: GameEasyMazeState|
                            movable_states@.contains(t) <==> (movable_in(
                                g,
                                t.row as int,
                                t.column as int,
                            ) && (t.row < i || (t.row == i && t.column < j + 1))) by {
                            if t == s {
                                assert(movable_states@[old_v.len() as int] == s);
                            } else {
                                if movable_states@.contains(t) {
                                    let k = choose|k: int|
                                        0 <= k < movable_states@.len() && movable_states@[k] == t;
                                    assert(k < old_v.len());
                                    assert(old_v[k] == t);
                                    assert(old_v.contains(t));
                                }
                                if old_v.contains(t) {
                                    let k = choose|k: int| 0 <= k < old_v.len() && old_v[k] == t;
                                    assert(movable_states@[k] == t);
                                }
                            }
                        }
                    }
                }
                j = j + 1;
            }
            i = i + 1;
        }
        movable_states
    }

    pub fn row_length(&self) -> (r: usize)
        requires
            self.wf(),
        ensures
            r == self.cells().len(),
    {
        self.row_length
    }

    pub fn column_length(&self) -> (r: usize)
        requires
            self.wf(),
        ensures
            r == self.cells()[0].len(),
    {
        self.column_length
    }

    /// The four actions, in the order in which they are tried.
    pub fn actions(&self) -> (r: &[GameEazyMazeAction; 4])
        requires
            self.wf(),
        ensures
            r@ == all_actions(),
    {
        &self.actions
    }

    /// The movable states, each once.
    pub fn movable_states(&self) -> (r: &Vec<GameEasyMazeState>)
        requires
            self.wf(),
        ensures
            lists_movable(self.cells(), r@),
    {
        &self.movable_states
    }

    /// The chance that a move goes as intended.
    pub fn move_prob(&self) -> (r: MoveProbability)
        ensures
            r == self.probability(),
    {
        self.move_prob
    }

    /// The reward of one step, in thousandths.
    pub fn default_reward_millis(&self) -> (r: i64)
        ensures
            r == DEFAULT_REWARD_MILLIS,
    {
        DEFAULT_REWARD_MILLIS
    }

    /// Whether the agent may act at `state`: its cell is in the grid and movable.
    pub fn can_action_at(&self, state: &GameEasyMazeState) -> (r: bool)
        requires
            self.wf(),
        ensures
            r == movable_in(self.cells(), state.row as int, state.column as int),
    {
        self.is_movable_cell(state.row as i64, state.column as i64)
    }

    fn is_movable_cell(&self, row: i64, column: i64) -> (r: bool)
        requires
            self.wf(),
        ensures
            r == movable_in(self.cells(), row as int, column as int),
    {
        if row < 0 || column < 0 || row >= self.row_length as i64 || column >= self.column_length as i64 {
            return false;
        }
        proof {
            assert(self.cells()[row as int].len() == self.cells()[0].len());
        }
        self.grid[row as usize][column as usize] == GameEasyMazeLiteral::MOVABLE
    }

    /// Where `action` takes the agent from `state`: the neighbouring cell if it
    /// is in the grid and movable, else `state` itself.
    pub fn try_to_move(&self, state: &GameEasyMazeState, action: &GameEazyMazeAction) -> (r:
        GameEasyMazeState)
        requires
            self.wf(),
        ensures
            r == attempt_move(self.cells(), *state, *action),
    {
        let (diff_row, diff_column): (i64, i64) = match action {
            GameEazyMazeAction::Up => (-1, 0),
            GameEazyMazeAction::Down => (1, 0),
            GameEazyMazeAction::Left => (0, -1),
            GameEazyMazeAction::Right => (0, 1),
        };
        let row = state.row as i64 + diff_row;
        let column = state.column as i64 + diff_column;
        if self.is_movable_cell(row, column) {
            let mut next_state = *state;
            next_state.step(diff_row as i32, diff_column as i32);
            next_state
        } else {
            *state
        }
    }


    /// The distribution of next states when `action` is asked for at `state`.
    /// Each weight is in units of `1 / weight_denominator(self.probability())`
    /// and the weights sum to one. A state that is not movable has none: the
    /// episode is over there.
    pub fn transit_func(&self, state: &GameEasyMazeState, action: &GameEazyMazeAction) -> (r:
        Result<Vec<Outcome>, MazeError>)
        requires
            self.wf(),
        ensures
            match r {
                Ok(d) => {
                    &&& movable_in(self.cells(), state.row as int, state.column as int)
                    &&& is_distribution(self.cells(), self.probability(), *state, *action, d@)
                    &&& total_weight(d@) == weight_denominator(self.probability())
                },
                Err(e) => {
                    &&& e == MazeError::IllegalState
                    &&& !movable_in(self.cells(), state.row as int, state.column as int)
                },
            },
    {
        if !self.can_action_at(state) {
            return Err(MazeError::IllegalState);
        }
        let ghost g = self.cells();
        let ghost p = self.probability();
        let mut transit_probabilities: Vec<Outcome> = Vec::new();
        let mut k: usize = 0;
        while k < 4
            invariant
                self.wf(),
                g == self.cells(),
                p == self.probability(),
                k <= 4,
                keys_unique(transit_probabilities@),
                forall|i: int|
                    0 <= i < transit_probabilities@.len() ==> transit_probabilities@[i].1 > 0
                        && transit_probabilities@[i].1 == weight_upto(
                        g,
                        p,
                        *state,
                        *action,
                        #[trigger] transit_probabilities@[i].0,
                        k as int,
                    ),
                forall|t: GameEasyMazeState|
                    weight_upto(g, p, *state, *action, t, k as int) > 0 ==> exists|i: int|
                        0 <= i < transit_probabilities@.len() && #[trigger] transit_probabilities@[i].0
                            == t,
                total_weight(transit_probabilities@) == action_weight_upto(p, *action, k as int),
            decreases 4 - k,
        {
            let a = self.actions[k];
            assert(a == all_actions()[k as int]);
            let weight = self.weight_of(action, &a);
            proof {
                lemma_action_weights_total(p, *action);
                lemma_action_weight_upto_mono(p, *action, k as int + 1, 4);
            }
            let ghost old_d = transit_probabilities@;
            proof {
                assert forall|t: GameEasyMazeState|
                    #[trigger] weight_upto(g, p, *state, *action, t, k + 1) == weight_upto(
                        g,
                        p,
                        *state,
                        *action,
                        t,
                        k as int,
                    ) + if attempt_move(g, *state, a) == t {
                        weight as nat
                    } else {
                        0
                    } by {}
            }
            if weight > 0 {
                let next_state = self.try_to_move(state, &a);
                let mut pos: usize = 0;
                while pos < transit_probabilities.len() && transit_probabilities[pos].0 != next_state
                    invariant
                        transit_probabilities@ == old_d,
                        pos <= old_d.len(),
                        forall|i: int| 0 <= i < pos ==> old_d[i].0 != next_state,
                    decreases old_d.len() - pos,
                {
                    pos = pos + 1;
                }
                let found = pos < transit_probabilities.len();
                if found {
                    proof {
                        lemma_entry_within_total(old_d, pos as int);
                    }
                    let entry = (next_state, transit_probabilities[pos].1 + weight);
                    proof {
                        lemma_total_update(old_d, pos as int, entry);
                    }
                    transit_probabilities.set(pos, entry);
                    proof {
                        assert forall|i: int| 0 <= i < transit_probabilities@.len() implies transit_probabilities@[i].1 > 0
                            && transit_probabilities@[i].1 == weight_upto(
                            g,
                            p,
                            *state,
                            *action,
                            #[trigger] transit_probabilities@[i].0,
                            k + 1,
                        ) by {
                            if i != pos {
                                assert(transit_probabilities@[i] == old_d[i]);
                            }
                        }
                        assert forall|t: GameEasyMazeState|
                            #[trigger] weight_upto(g, p, *state, *action, t, k + 1) > 0 implies exists|i: int|
                                0 <= i < transit_probabilities@.len()
                                    && #[trigger] transit_probabilities@[i].0 == t by {
                            if t != next_state {
                                assert(weight_upto(g, p, *state, *action, t, k as int) == weight_upto(
                                    g,
                                    p,
                                    *state,
                                    *action,
                                    t,
                                    k + 1,
                                ));
                                let i = choose|i: int| 0 <= i < old_d.len() && old_d[i].0 == t;
                                assert(transit_probabilities@[i].0 == t);
                            } else {
                                assert(transit_probabilities@[pos as int].0 == t);
                            }
                        }
                    }
                } else {
                    let entry = (next_state, weight);
                    proof {
                        lemma_total_push(old_d, entry);
                    }
                    transit_probabilities.push(entry);
                    proof {
                        assert forall|i: int| 0 <= i < transit_probabilities@.len() implies transit_probabilities@[i].1 > 0
                            && transit_probabilities@[i].1 == weight_upto(
                            g,
                            p,
                            *state,
                            *action,
                            #[trigger] transit_probabilities@[i].0,
                            k + 1,
                        ) by {
                            if i < old_d.len() {
                                assert(transit_probabilities@[i] == old_d[i]);
                            }
                        }
                        assert forall|a1: int, b1: int| 0 <= a1 < b1 < transit_probabilities@.len() implies transit_probabilities@[a1].0 != transit_probabilities@[b1].0 by {
                            if b1 == old_d.len() {
                                assert(old_d[a1] == transit_probabilities@[a1]);
                            }
                        }
                        assert(transit_probabilities@[old_d.len() as int] == entry);
                        assert forall|t: GameEasyMazeState|
                            #[trigger] weight_upto(g, p, *state, *action, t, k + 1) > 0 implies exists|i: int|
                                0 <= i < transit_probabilities@.len()
                                    && #[trigger] transit_probabilities@[i].0 == t by {
                            if t != next_state {
                                assert(weight_upto(g, p, *state, *action, t, k as int) == weight_upto(
                                    g,
                                    p,
                                    *state,
                                    *action,
                                    t,
                                    k + 1,
                                ));
                                let i = choose|i: int| 0 <= i < old_d.len() && old_d[i].0 == t;
                                assert(transit_probabilities@[i].0 == t);
                            } else {
                                assert(transit_probabilities@[old_d.len() as int].0 == t);
                            }
                        }
                    }
                }
            }
            proof {
                if weight == 0 {
                    assert forall|t: GameEasyMazeState|
                        #[trigger] weight_upto(g, p, *state, *action, t, k + 1) > 0 implies exists|i: int|
                            0 <= i < transit_probabilities@.len()
                                && #[trigger] transit_probabilities@[i].0 == t by {
                        assert(weight_upto(g, p, *state, *action, t, k as int) > 0);
                    }
                }
            }
            k = k + 1;
        }
        proof {
            lemma_action_weights_total(p, *action);
            assert forall|t: GameEasyMazeState|
                #[trigger] outcome_weight(g, p, *state, *action, t) > 0 implies exists|i: int|
                    0 <= i < transit_probabilities@.len() && #[trigger] transit_probabilities@[i].0
                        == t by {
                assert(weight_upto(g, p, *state, *action, t, 4) > 0);
            }
            assert forall|i: int|
                #![trigger transit_probabilities@[i]]
                0 <= i < transit_probabilities@.len() implies transit_probabilities@[i].1 > 0
                    && transit_probabilities@[i].1 == outcome_weight(
                    g,
                    p,
                    *state,
                    *action,
                    transit_probabilities@[i].0,
                ) by {
                assert(transit_probabilities@[i].1 == weight_upto(
                    g,
                    p,
                    *state,
                    *action,
                    transit_probabilities@[i].0,
                    4,
                ));
            }
        }
        Ok(transit_probabilities)
    }

    /// The weight of action `a` when `intended` is asked for.
    fn weight_of(&self, intended: &GameEazyMazeAction, a: &GameEazyMazeAction) -> (r: u64)
        requires
            self.wf(),
        ensures
            r == action_weight(self.probability(), *intended, *a),
    {
        if *a == *intended {
            2 * (self.move_prob.numerator as u64)
        } else if *a != intended.opposite() {
            (self.move_prob.denominator - self.move_prob.numerator) as u64
        } else {
            0
        }
    }
}

} // verus!
