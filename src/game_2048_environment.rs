use vstd::prelude::*;

use crate::game_2048_state::in_board;
use crate::game_2048_state::Game2048State;
use crate::game_2048_state::BOARD_SIZE;
use crate::game_2048_state::EMPTY_LITERAL;

verus! {

/// The four directions in which the tiles can be pushed.
#[derive(Debug, Copy, Clone, Hash, PartialEq, Eq, Structural)]
pub enum Game2048Action {
    Up,
    Down,
    Left,
    Right,
}

/// One step of the scan at position `k` of a line whose position 0 is the
/// edge the tiles move to: merge into an equal neighbour, or slide into an
/// empty one.
pub open spec fn push_once(l: Seq<int>, k: int) -> Seq<int> {
    if l[k] == l[k - 1] {
        l.update(k - 1, 2 * l[k]).update(k, 0)
    } else if l[k - 1] == 0 {
        l.update(k - 1, l[k]).update(k, 0)
    } else {
        l
    }
}

/// The scan from position `k` toward the edge; it stops at an empty cell.
pub open spec fn settle(l: Seq<int>, k: int) -> Seq<int>
    decreases k,
{
    if k < 1 || l[k] == 0 {
        l
    } else {
        settle(push_once(l, k), k - 1)
    }
}

/// The line after the scans that start at positions `1 .. i`.
pub open spec fn shift_upto(l: Seq<int>, i: int) -> Seq<int>
    decreases i,
{
    if i <= 1 {
        l
    } else {
        settle(shift_upto(l, i - 1), i - 1)
    }
}

/// A line after one push toward its position 0.
pub open spec fn shift_line(l: Seq<int>) -> Seq<int> {
    shift_upto(l, l.len() as int)
}

pub open spec fn line_sum(l: Seq<int>) -> int {
    l[0] + l[1] + l[2] + l[3]
}

pub open spec fn line_fits(l: Seq<int>) -> bool {
    &&& l.len() == BOARD_SIZE
    &&& forall|t: int| 0 <= t < l.len() ==> l[t] >= 0
    &&& line_sum(l) <= i32::MAX
}

/// The row of the `t`-th cell of line `m` when pushing in direction `d`;
/// `t == 0` is the cell at the edge the tiles move to.
pub open spec fn line_row(d: Game2048Action, m: int, t: int) -> int {
    match d {
        Game2048Action::Up => t,
        Game2048Action::Down => BOARD_SIZE - 1 - t,
        _ => m,
    }
}

/// The column of the `t`-th cell of line `m` when pushing in direction `d`.
pub open spec fn line_column(d: Game2048Action, m: int, t: int) -> int {
    match d {
        Game2048Action::Left => t,
        Game2048Action::Right => BOARD_SIZE - 1 - t,
        _ => m,
    }
}

/// The line through cell `(i, j)` when pushing in direction `d`.
pub open spec fn line_index(d: Game2048Action, i: int, j: int) -> int {
    match d {
        Game2048Action::Up | Game2048Action::Down => j,
        _ => i,
    }
}

/// The position of cell `(i, j)` in its line when pushing in direction `d`.
pub open spec fn line_offset(d: Game2048Action, i: int, j: int) -> int {
    match d {
        Game2048Action::Up => i,
        Game2048Action::Down => BOARD_SIZE - 1 - i,
        Game2048Action::Left => j,
        Game2048Action::Right => BOARD_SIZE - 1 - j,
    }
}

/// Line `m` of board `s` when pushing in direction `d`, starting at the edge.
pub open spec fn line_of(s: Game2048State, d: Game2048Action, m: int) -> Seq<int> {
    Seq::new(BOARD_SIZE as nat, |t: int| s.cell(line_row(d, m, t), line_column(d, m, t)))
}

/// Every line of `s` in direction `d` can be pushed without overflow.
pub open spec fn fits(s: Game2048State, d: Game2048Action) -> bool {
    forall|m: int| 0 <= m < BOARD_SIZE ==> line_fits(#[trigger] line_of(s, d, m))
}

/// `after` is `before` pushed in direction `d`.
pub open spec fn moved(before: Game2048State, after: Game2048State, d: Game2048Action) -> bool {
    forall|m: int| 0 <= m < BOARD_SIZE ==> #[trigger] line_of(after, d, m) == shift_line(line_of(before, d, m))
}

proof fn lemma_push_once_fits(l: Seq<int>, k: int)
    requires
        line_fits(l),
        1 <= k < BOARD_SIZE,
        l[k] != 0,
    ensures
        line_fits(push_once(l, k)),
        line_sum(push_once(l, k)) == line_sum(l),
{
}

proof fn lemma_settle_len(l: Seq<int>, k: int)
    requires
        k < l.len(),
    ensures
        settle(l, k).len() == l.len(),
    decreases k,
{
    if k >= 1 && l[k] != 0 {
        lemma_settle_len(push_once(l, k), k - 1);
    }
}

proof fn lemma_shift_upto_len(l: Seq<int>, i: int)
    requires
        i <= l.len(),
    ensures
        shift_upto(l, i).len() == l.len(),
    decreases i,
{
    if i > 1 {
        lemma_shift_upto_len(l, i - 1);
        lemma_settle_len(shift_upto(l, i - 1), i - 1);
    }
}

proof fn lemma_shift_len(l: Seq<int>)
    ensures
        shift_line(l).len() == l.len(),
{
    lemma_shift_upto_len(l, l.len() as int);
}

pub open spec fn abs(v: int) -> int {
    if v < 0 {
        -v
    } else {
        v
    }
}

/// The sum of the sizes of the values of a line.
pub open spec fn abs_sum(l: Seq<int>) -> int {
    abs(l[0]) + abs(l[1]) + abs(l[2]) + abs(l[3])
}

/// A line of `i32` values: its sizes sum to at most `4 * 2^31`.
pub open spec fn line_in_range(l: Seq<int>) -> bool {
    &&& l.len() == BOARD_SIZE
    &&& abs_sum(l) <= 4 * 0x8000_0000
}

proof fn lemma_push_once_in_range(l: Seq<int>, k: int)
    requires
        line_in_range(l),
        1 <= k < BOARD_SIZE,
    ensures
        line_in_range(push_once(l, k)),
        abs_sum(push_once(l, k)) == abs_sum(l),
{
}

/// The values of a line as integers.
pub open spec fn wide_model(line: [i64; BOARD_SIZE]) -> Seq<int> {
    line@.map_values(|v: i64| v as int)
}

/// Pushes one line toward its position 0, in 64-bit arithmetic so that no
/// merge of `i32` values overflows.
fn shift_line_exec(line: [i64; BOARD_SIZE]) -> (r: [i64; BOARD_SIZE])
    requires
        line_in_range(wide_model(line)),
    ensures
        wide_model(r) == shift_line(wide_model(line)),
        line_in_range(wide_model(r)),
        line_fits(wide_model(line)) ==> line_fits(wide_model(r)),
{
    let ghost orig = wide_model(line);
    let mut line = line;
    let mut i: usize = 1;
    while i < BOARD_SIZE
        invariant
            1 <= i <= BOARD_SIZE,
            wide_model(line) == shift_upto(orig, i as int),
            line_in_range(wide_model(line)),
            line_fits(orig) ==> line_fits(wide_model(line)),
        decreases BOARD_SIZE - i,
    {
        let ghost target = settle(shift_upto(orig, i as int), i as int);
        let mut k: usize = i;
        while k >= 1 && line[k] != 0
            invariant
                1 <= i < BOARD_SIZE,
                k <= i,
                settle(wide_model(line), k as int) == target,
                line_in_range(wide_model(line)),
                line_fits(orig) ==> line_fits(wide_model(line)),
            decreases k,
        {
            let ghost before = wide_model(line);
            proof {
                lemma_push_once_in_range(before, k as int);
                if line_fits(orig) {
                    lemma_push_once_fits(before, k as int);
                }
            }
            if line[k] == line[k - 1] {
                let v = line[k];
                line[k - 1] = 2 * v;
                line[k] = 0;
            } else if line[k - 1] == 0 {
                let v = line[k];
                line[k - 1] = v;
                line[k] = 0;
            }
            assert(wide_model(line) =~= push_once(before, k as int));
            k = k - 1;
        }
        i = i + 1;
    }
    line
}

/// Line `m` of `state` in direction `d`, read into 64-bit values.
fn read_line(state: &Game2048State, d: &Game2048Action, m: usize) -> (r: [i64; BOARD_SIZE])
    requires
        m < BOARD_SIZE,
    ensures
        wide_model(r) == line_of(*state, *d, m as int),
        line_in_range(wide_model(r)),
{
    let mut line: [i64; BOARD_SIZE] = [0; BOARD_SIZE];
    let mut t: usize = 0;
    while t < BOARD_SIZE
        invariant
            m < BOARD_SIZE,
            t <= BOARD_SIZE,
            forall|u: int| 0 <= u < t ==> line@[u] as int == #[trigger] line_of(*state, *d, m as int)[u],
        decreases BOARD_SIZE - t,
    {
        let (i, j) = line_cell(d, m, t);
        line[t] = state.get_element(i, j) as i64;
        t = t + 1;
    }
    assert(wide_model(line) =~= line_of(*state, *d, m as int));
    line
}

/// The value that cell `(i, j)` holds after `s` is pushed in direction `d`.
pub open spec fn pushed_cell(s: Game2048State, d: Game2048Action, i: int, j: int) -> int {
    shift_line(line_of(s, d, line_index(d, i, j)))[line_offset(d, i, j)]
}

/// The board coordinates of the `t`-th cell of line `m` in direction `d`.
fn line_cell(d: &Game2048Action, m: usize, t: usize) -> (r: (usize, usize))
    requires
        m < BOARD_SIZE,
        t < BOARD_SIZE,
    ensures
        r.0 == line_row(*d, m as int, t as int),
        r.1 == line_column(*d, m as int, t as int),
        in_board(r.0 as int, r.1 as int),
        line_index(*d, r.0 as int, r.1 as int) == m,
        line_offset(*d, r.0 as int, r.1 as int) == t,
{
    match d {
        Game2048Action::Up => (t, m),
        Game2048Action::Down => (BOARD_SIZE - 1 - t, m),
        Game2048Action::Left => (m, t),
        Game2048Action::Right => (m, BOARD_SIZE - 1 - t),
    }
}

proof fn lemma_line_cell(d: Game2048Action, i: int, j: int)
    requires
        in_board(i, j),
    ensures
        0 <= line_index(d, i, j) < BOARD_SIZE,
        0 <= line_offset(d, i, j) < BOARD_SIZE,
        line_row(d, line_index(d, i, j), line_offset(d, i, j)) == i,
        line_column(d, line_index(d, i, j), line_offset(d, i, j)) == j,
{
}


/// Chance, out of `TILE_CHANCE_DENOMINATOR`, that a new tile is a 2 and not a 4.
pub const SMALL_TILE_CHANCE: u32 = 9;

pub const TILE_CHANCE_DENOMINATOR: u32 = 10;

/// The value of a common new tile.
pub const SMALL_TILE: i32 = 2;

/// The value of a rare new tile.
pub const LARGE_TILE: i32 = 4;

/// Relies on `rand::Rng::gen_range` over `rand::thread_rng()`: a value in `0 .. n`.
#[verifier::external_body]
fn random_below(n: usize) -> (r: usize)
    requires
        n > 0,
    ensures
        r < n,
{
    rand::Rng::gen_range(&mut rand::thread_rng(), 0..n)
}

/// Relies on `rand::Rng::gen_ratio` over `rand::thread_rng()`: true with chance
/// `numerator / denominator`, never when `numerator` is 0, always when it equals
/// `denominator`.
#[verifier::external_body]
fn random_ratio(numerator: u32, denominator: u32) -> (r: bool)
    requires
        0 < denominator,
        numerator <= denominator,
    ensures
        numerator == 0 ==> !r,
        numerator == denominator ==> r,
{
    rand::Rng::gen_ratio(&mut rand::thread_rng(), numerator, denominator)
}

/// The number of empty cells among the first `f` cells, row by row.
pub open spec fn empties_before(s: Game2048State, f: int) -> nat
    decreases f,
{
    if f <= 0 {
        0
    } else {
        empties_before(s, f - 1) + if s.cell((f - 1) / BOARD_SIZE as int, (f - 1) % BOARD_SIZE as int)
            == EMPTY_LITERAL {
            1nat
        } else {
            0nat
        }
    }
}

/// The number of empty cells of `s`.
pub open spec fn empty_count(s: Game2048State) -> nat {
    empties_before(s, (BOARD_SIZE * BOARD_SIZE) as int)
}

/// `after` is `before` with its empty cell number `n` (row by row, from 0)
/// set to `v`.
pub open spec fn placed_at(before: Game2048State, after: Game2048State, n: int, v: int) -> bool {
    exists|a: int, b: int|
        in_board(a, b) && #[trigger] before.cell(a, b) == EMPTY_LITERAL && empties_before(
            before,
            a * BOARD_SIZE + b,
        ) == n && before.with_cell(&after, a, b, v)
}

/// `after` is `before` with one tile added, a 2 or a 4, on an empty cell; or
/// `before` itself where no cell is empty.
pub open spec fn added_tile(before: Game2048State, after: Game2048State) -> bool {
    if before.has_empty_cell() {
        exists|a: int, b: int, v: int|
            in_board(a, b) && #[trigger] before.cell(a, b) == EMPTY_LITERAL && (v == SMALL_TILE || v
                == LARGE_TILE) && #[trigger] before.with_cell(&after, a, b, v)
    } else {
        after == before
    }
}

/// The board that a game starts from: a 2 in the centre and one more tile, a
/// 2 or a 4, on another cell.
pub open spec fn starts_game(s: Game2048State) -> bool {
    let c = (BOARD_SIZE / 2) as int;
    &&& s.cell(c, c) == SMALL_TILE
    &&& exists|a: int, b: int|
        in_board(a, b) && !(a == c && b == c) && (#[trigger] s.cell(a, b) == SMALL_TILE || s.cell(
            a,
            b,
        ) == LARGE_TILE) && forall|i: int, j: int|
            in_board(i, j) && !(i == c && j == c) && !(i == a && j == b) ==> #[trigger] s.cell(i, j)
                == EMPTY_LITERAL
}

/// No push in any direction changes `s`.
pub open spec fn is_stuck(s: Game2048State) -> bool {
    &&& moved(s, s, Game2048Action::Up)
    &&& moved(s, s, Game2048Action::Down)
    &&& moved(s, s, Game2048Action::Left)
    &&& moved(s, s, Game2048Action::Right)
}

proof fn lemma_flat_index(a: int, b: int)
    requires
        in_board(a, b),
    ensures
        (a * BOARD_SIZE + b) / BOARD_SIZE as int == a,
        (a * BOARD_SIZE + b) % BOARD_SIZE as int == b,
{
    assert((a * 4 + b) / 4 == a && (a * 4 + b) % 4 == b) by (nonlinear_arith)
        requires
            0 <= a < 4,
            0 <= b < 4,
    ;
}

proof fn lemma_empties_mono(s: Game2048State, f: int, g: int)
    requires
        f <= g,
    ensures
        empties_before(s, f) <= empties_before(s, g),
    decreases g - f,
{
    if f < g {
        lemma_empties_mono(s, f, g - 1);
    }
}

proof fn lemma_empty_cell_counted(s: Game2048State, a: int, b: int)
    requires
        in_board(a, b),
        s.cell(a, b) == EMPTY_LITERAL,
    ensures
        empties_before(s, a * BOARD_SIZE + b) < empty_count(s),
{
    lemma_flat_index(a, b);
    lemma_empties_mono(s, a * BOARD_SIZE + b + 1, (BOARD_SIZE * BOARD_SIZE) as int);
}

proof fn lemma_settle_fixed(l: Seq<int>, k: int)
    requires
        l.len() == BOARD_SIZE,
        0 <= k < BOARD_SIZE,
        forall|t: int| 0 <= t < l.len() ==> l[t] != 0,
        forall|t: int| 1 <= t < l.len() ==> #[trigger] l[t] != l[t - 1],
    ensures
        settle(l, k) == l,
    decreases k,
{
    if k >= 1 {
        assert(push_once(l, k) == l);
        lemma_settle_fixed(l, k - 1);
    }
}

proof fn lemma_shift_upto_fixed(l: Seq<int>, i: int)
    requires
        l.len() == BOARD_SIZE,
        i <= BOARD_SIZE,
        forall|t: int| 0 <= t < l.len() ==> l[t] != 0,
        forall|t: int| 1 <= t < l.len() ==> #[trigger] l[t] != l[t - 1],
    ensures
        shift_upto(l, i) == l,
    decreases i,
{
    if i > 1 {
        lemma_shift_upto_fixed(l, i - 1);
        lemma_settle_fixed(l, i - 1);
    }
}

/// A full board on which no two neighbouring cells, across or down, hold the
/// same value cannot be changed by a push in any direction.
pub proof fn lemma_full_board_without_pairs_is_stuck(s: Game2048State)
    requires
        forall|i: int, j: int| in_board(i, j) ==> #[trigger] s.cell(i, j) != EMPTY_LITERAL,
        forall|i: int, j: int|
            in_board(i, j) && in_board(i + 1, j) ==> #[trigger] s.cell(i, j) != s.cell(i + 1, j),
        forall|i: int, j: int|
            in_board(i, j) && in_board(i, j + 1) ==> #[trigger] s.cell(i, j) != s.cell(i, j + 1),
    ensures
        is_stuck(s),
{
    assert forall|d: Game2048Action, m: int| 0 <= m < BOARD_SIZE implies #[trigger] line_of(s, d, m)
        == shift_line(line_of(s, d, m)) by {
        let l = line_of(s, d, m);
        assert forall|t: int| 1 <= t < l.len() implies #[trigger] l[t] != l[t - 1] by {
            match d {
                Game2048Action::Up => {
                    assert(s.cell(t - 1, m) != s.cell(t, m));
                },
                Game2048Action::Down => {
                    assert(s.cell(3 - t, m) != s.cell(3 - t + 1, m));
                },
                Game2048Action::Left => {
                    assert(s.cell(m, t - 1) != s.cell(m, t));
                },
                Game2048Action::Right => {
                    assert(s.cell(m, 3 - t) != s.cell(m, 3 - t + 1));
                },
            }
        }
        assert forall|t: int| 0 <= t < l.len() implies l[t] != 0 by {
            assert(in_board(line_row(d, m, t), line_column(d, m, t)));
        }
        lemma_shift_upto_fixed(l, BOARD_SIZE as int);
    }
}


/// The number of empty cells.
pub fn count_empty(state: &Game2048State) -> (r: usize)
    ensures
        r == empty_count(*state),
{
    let mut count: usize = 0;
    let mut f: usize = 0;
    while f < BOARD_SIZE * BOARD_SIZE
        invariant
            f <= BOARD_SIZE * BOARD_SIZE,
            count == empties_before(*state, f as int),
            count <= f,
        decreases BOARD_SIZE * BOARD_SIZE - f,
    {
        if state.is_empty(f / BOARD_SIZE, f % BOARD_SIZE) {
            count = count + 1;
        }
        f = f + 1;
    }
    count
}

/// Sets empty cell number `n` (row by row, from 0) to `value`.
pub fn place_tile(state: &mut Game2048State, n: usize, value: i32)
    requires
        n < empty_count(*old(state)),
    ensures
        placed_at(*old(state), *final(state), n as int, value as int),
{
    let ghost before = *state;
    let mut count: usize = 0;
    let mut f: usize = 0;
    while f < BOARD_SIZE * BOARD_SIZE
        invariant
            *state == before,
            before == *old(state),
            n < empty_count(before),
            f <= BOARD_SIZE * BOARD_SIZE,
            count == empties_before(before, f as int),
            count <= n,
        decreases BOARD_SIZE * BOARD_SIZE - f,
    {
        let i = f / BOARD_SIZE;
        let j = f % BOARD_SIZE;
        if state.is_empty(i, j) {
            if count == n {
                state.set_element(i, j, value);
                proof {
                    assert(f == i * BOARD_SIZE + j);
                    assert(before.cell(i as int, j as int) == EMPTY_LITERAL);
                    assert(empties_before(before, i * BOARD_SIZE + j) == n);
                    assert(before.with_cell(&*state, i as int, j as int, value as int));
                    assert(placed_at(before, *state, n as int, value as int));
                }
                return;
            }
            count = count + 1;
        }
        f = f + 1;
    }
}


/// `v` is 1, 2, 4, 8, ...
pub open spec fn is_power_of_two(v: int) -> bool
    decreases v,
{
    if v <= 0 {
        false
    } else if v == 1 {
        true
    } else {
        v % 2 == 0 && is_power_of_two(v / 2)
    }
}

/// `v` is an empty cell or a tile: 0 or a power of two.
pub open spec fn is_tile(v: int) -> bool {
    v == EMPTY_LITERAL || is_power_of_two(v)
}

/// Every cell of `s` is empty or a tile.
pub open spec fn board_tiles(s: Game2048State) -> bool {
    forall|i: int, j: int| in_board(i, j) ==> is_tile(#[trigger] s.cell(i, j))
}

pub open spec fn line_tiles(l: Seq<int>) -> bool {
    forall|t: int| 0 <= t < l.len() ==> is_tile(#[trigger] l[t])
}

proof fn lemma_double_power_of_two(v: int)
    requires
        is_power_of_two(v),
    ensures
        is_power_of_two(2 * v),
{
    assert((2 * v) / 2 == v);
}

proof fn lemma_push_once_tiles(l: Seq<int>, k: int)
    requires
        line_tiles(l),
        1 <= k < l.len(),
        l[k] != 0,
    ensures
        line_tiles(push_once(l, k)),
{
    if l[k] == l[k - 1] {
        lemma_double_power_of_two(l[k]);
    }
    let r = push_once(l, k);
    assert forall|t: int| 0 <= t < r.len() implies is_tile(#[trigger] r[t]) by {
        if t != k && t != k - 1 {
            assert(r[t] == l[t]);
        }
    }
}

proof fn lemma_settle_tiles(l: Seq<int>, k: int)
    requires
        line_tiles(l),
        k < l.len(),
    ensures
        line_tiles(settle(l, k)),
    decreases k,
{
    if k >= 1 && l[k] != 0 {
        lemma_push_once_tiles(l, k);
        lemma_settle_tiles(push_once(l, k), k - 1);
    }
}

proof fn lemma_shift_upto_tiles(l: Seq<int>, i: int)
    requires
        line_tiles(l),
        i <= l.len(),
    ensures
        line_tiles(shift_upto(l, i)),
        shift_upto(l, i).len() == l.len(),
    decreases i,
{
    if i > 1 {
        lemma_shift_upto_tiles(l, i - 1);
        lemma_settle_tiles(shift_upto(l, i - 1), i - 1);
        lemma_settle_len(shift_upto(l, i - 1), i - 1);
    }
}

/// A push keeps every cell empty or a tile.
pub proof fn lemma_push_keeps_tiles(before: Game2048State, after: Game2048State, d: Game2048Action)
    requires
        moved(before, after, d),
        board_tiles(before),
    ensures
        board_tiles(after),
{
    assert forall|i: int, j: int| in_board(i, j) implies is_tile(#[trigger] after.cell(i, j)) by {
        lemma_line_cell(d, i, j);
        let m = line_index(d, i, j);
        let t = line_offset(d, i, j);
        let l = line_of(before, d, m);
        assert forall|u: int| 0 <= u < l.len() implies is_tile(#[trigger] l[u]) by {
            assert(in_board(line_row(d, m, u), line_column(d, m, u)));
        }
        lemma_shift_upto_tiles(l, BOARD_SIZE as int);
        assert(line_of(after, d, m)[t] == after.cell(i, j));
    }
}

/// Adding a new tile keeps every cell empty or a tile.
pub proof fn lemma_added_tile_keeps_tiles(before: Game2048State, after: Game2048State)
    requires
        added_tile(before, after),
        board_tiles(before),
    ensures
        board_tiles(after),
{
    if before.has_empty_cell() {
        let (a, b, v) = choose|a: int, b: int, v: int|
            in_board(a, b) && #[trigger] before.cell(a, b) == EMPTY_LITERAL && (v == SMALL_TILE || v
                == LARGE_TILE) && #[trigger] before.with_cell(&after, a, b, v);
        assert(is_power_of_two(1));
        lemma_double_power_of_two(1);
        lemma_double_power_of_two(2);
        assert forall|i: int, j: int| in_board(i, j) implies is_tile(#[trigger] after.cell(i, j)) by {
            if !(i == a && j == b) {
                assert(before.cell(i, j) == after.cell(i, j));
            }
        }
    }
}

/// The sliding-tile game: pushes, random tiles, and the end of a game.
pub struct Game2048Environment {}

impl Game2048Environment {
    /// Pushes every line of `state` in direction `action`.
    pub fn move_state(state: &mut Game2048State, action: &Game2048Action)
        requires
            fits(*old(state), *action),
        ensures
            moved(*old(state), *final(state), *action),
            board_tiles(*old(state)) ==> board_tiles(*final(state)),
    {
        let ghost orig = *state;
        let d = action;
        let mut m: usize = 0;
        while m < BOARD_SIZE
            invariant
                m <= BOARD_SIZE,
                fits(orig, *d),
                forall|a: int, b: int|
                    in_board(a, b) ==> #[trigger] state.cell(a, b) == if line_index(*d, a, b) < m {
                        pushed_cell(orig, *d, a, b)
                    } else {
                        orig.cell(a, b)
                    },
            decreases BOARD_SIZE - m,
        {
            let line = read_line(state, d, m);
            assert(line_of(*state, *d, m as int) =~= line_of(orig, *d, m as int));
            assert(line_fits(line_of(orig, *d, m as int)));
            let shifted = shift_line_exec(line);
            let ghost new_line = shift_line(line_of(orig, *d, m as int));
            assert(forall|u: int| 0 <= u < BOARD_SIZE ==> shifted@[u] as int == #[trigger] new_line[u]) by {
                assert forall|u: int| 0 <= u < BOARD_SIZE implies shifted@[u] as int == #[trigger] new_line[u] by {
                    assert(wide_model(shifted)[u] == shifted@[u] as int);
                }
            }
            let mut t: usize = 0;
            while t < BOARD_SIZE
                invariant
                    m < BOARD_SIZE,
                    t <= BOARD_SIZE,
                    new_line == shift_line(line_of(orig, *d, m as int)),
                    line_fits(wide_model(shifted)),
                    forall|u: int| 0 <= u < BOARD_SIZE ==> shifted@[u] as int == #[trigger] new_line[u],
                    forall|a: int, b: int|
                        in_board(a, b) ==> #[trigger] state.cell(a, b) == if line_index(*d, a, b) < m || (
                        line_index(*d, a, b) == m && line_offset(*d, a, b) < t) {
                            pushed_cell(orig, *d, a, b)
                        } else {
                            orig.cell(a, b)
                        },
                decreases BOARD_SIZE - t,
            {
                let (i, j) = line_cell(d, m, t);
                assert(0 <= wide_model(shifted)[t as int] <= i32::MAX);
                state.set_element(i, j, shifted[t] as i32);
                t = t + 1;
            }
            m = m + 1;
        }
        proof {
            assert forall|k: int| 0 <= k < BOARD_SIZE implies #[trigger] line_of(*state, *d, k) == shift_line(
                line_of(orig, *d, k),
            ) by {
                assert forall|u: int| 0 <= u < BOARD_SIZE implies line_of(*state, *d, k)[u] == shift_line(
                    line_of(orig, *d, k),
                )[u] by {
                    assert(in_board(line_row(*d, k, u), line_column(*d, k, u)));
                }
                lemma_shift_len(line_of(orig, *d, k));
                assert(line_of(*state, *d, k) =~= shift_line(line_of(orig, *d, k)));
            }
            if board_tiles(orig) {
                lemma_push_keeps_tiles(orig, *state, *d);
            }
        }
    }

    /// The value of a new tile for a draw that says whether it is the common
    /// small tile.
    pub fn tile_for_draw(small: bool) -> (r: i32)
        ensures
            r == (if small {
                SMALL_TILE
            } else {
                LARGE_TILE
            }),
    {
        if small {
            SMALL_TILE
        } else {
            LARGE_TILE
        }
    }

    /// A new tile: 2 with chance 9 in 10, else 4.
    pub fn do_sample() -> (r: i32)
        ensures
            r == SMALL_TILE || r == LARGE_TILE,
    {
        Game2048Environment::tile_for_draw(random_ratio(SMALL_TILE_CHANCE, TILE_CHANCE_DENOMINATOR))
    }

    /// Puts a new tile, a 2 or a 4, on an empty cell drawn uniformly; returns
    /// whether there was an empty cell.
    pub fn set_randomly(state: &mut Game2048State) -> (r: bool)
        ensures
            r == old(state).has_empty_cell(),
            added_tile(*old(state), *final(state)),
            board_tiles(*old(state)) ==> board_tiles(*final(state)),
    {
        if !state.has_empty() {
            return false;
        }
        let ghost before = *state;
        let count = count_empty(state);
        proof {
            let (a, b) = choose|a: int, b: int| in_board(a, b) && before.cell(a, b) == EMPTY_LITERAL;
            lemma_empty_cell_counted(before, a, b);
        }
        let n = random_below(count);
        let value = Game2048Environment::do_sample();
        place_tile(state, n, value);
        proof {
            let (a, b) = choose|a: int, b: int|
                in_board(a, b) && #[trigger] before.cell(a, b) == EMPTY_LITERAL && empties_before(
                    before,
                    a * BOARD_SIZE + b,
                ) == n && before.with_cell(&*state, a, b, value as int);
            assert(before.with_cell(&*state, a, b, value as int));
            if board_tiles(before) {
                lemma_added_tile_keeps_tiles(before, *state);
            }
        }
        true
    }

    /// Pushes every column up.
    pub fn move_up_state(state: &mut Game2048State)
        requires
            fits(*old(state), Game2048Action::Up),
        ensures
            moved(*old(state), *final(state), Game2048Action::Up),
    {
        Game2048Environment::move_state(state, &Game2048Action::Up);
    }

    /// Pushes every column down.
    pub fn move_down_state(state: &mut Game2048State)
        requires
            fits(*old(state), Game2048Action::Down),
        ensures
            moved(*old(state), *final(state), Game2048Action::Down),
    {
        Game2048Environment::move_state(state, &Game2048Action::Down);
    }

    /// Pushes every row left.
    pub fn move_left_state(state: &mut Game2048State)
        requires
            fits(*old(state), Game2048Action::Left),
        ensures
            moved(*old(state), *final(state), Game2048Action::Left),
    {
        Game2048Environment::move_state(state, &Game2048Action::Left);
    }

    /// Pushes every row right.
    pub fn move_right_state(state: &mut Game2048State)
        requires
            fits(*old(state), Game2048Action::Right),
        ensures
            moved(*old(state), *final(state), Game2048Action::Right),
    {
        Game2048Environment::move_state(state, &Game2048Action::Right);
    }

    /// Whether every line of `state` in direction `action` can be pushed
    /// without overflow.
    pub fn fits_push(state: &Game2048State, action: &Game2048Action) -> (r: bool)
        ensures
            r == fits(*state, *action),
    {
        let mut m: usize = 0;
        while m < BOARD_SIZE
            invariant
                m <= BOARD_SIZE,
                forall|k: int| 0 <= k < m ==> line_fits(#[trigger] line_of(*state, *action, k)),
            decreases BOARD_SIZE - m,
        {
            let (i0, j0) = line_cell(action, m, 0);
            let (i1, j1) = line_cell(action, m, 1);
            let (i2, j2) = line_cell(action, m, 2);
            let (i3, j3) = line_cell(action, m, 3);
            let v0 = state.get_element(i0, j0) as i64;
            let v1 = state.get_element(i1, j1) as i64;
            let v2 = state.get_element(i2, j2) as i64;
            let v3 = state.get_element(i3, j3) as i64;
            let ghost l = line_of(*state, *action, m as int);
            assert(l[0] == v0 && l[1] == v1 && l[2] == v2 && l[3] == v3);
            if v0 < 0 || v1 < 0 || v2 < 0 || v3 < 0 || v0 + v1 + v2 + v3 > i32::MAX as i64 {
                return false;
            }
            m = m + 1;
        }
        true
    }

    /// Whether a push in direction `action` changes `state`: each line is
    /// pushed in a scratch copy and compared with the board.
    fn changes(state: &Game2048State, action: &Game2048Action) -> (r: bool)
        ensures
            r == !moved(*state, *state, *action),
    {
        let mut m: usize = 0;
        while m < BOARD_SIZE
            invariant
                m <= BOARD_SIZE,
                forall|k: int|
                    0 <= k < m ==> #[trigger] line_of(*state, *action, k) == shift_line(
                        line_of(*state, *action, k),
                    ),
            decreases BOARD_SIZE - m,
        {
            let line = read_line(state, action, m);
            let shifted = shift_line_exec(line);
            let mut t: usize = 0;
            while t < BOARD_SIZE
                invariant
                    m < BOARD_SIZE,
                    t <= BOARD_SIZE,
                    forall|u: int| 0 <= u < t ==> #[trigger] line@[u] == shifted@[u],
                    wide_model(line) == line_of(*state, *action, m as int),
                    wide_model(shifted) == shift_line(wide_model(line)),
                decreases BOARD_SIZE - t,
            {
                if line[t] != shifted[t] {
                    assert(wide_model(line)[t as int] != wide_model(shifted)[t as int]);
                    assert(line_of(*state, *action, m as int) != shift_line(
                        line_of(*state, *action, m as int),
                    ));
                    return true;
                }
                t = t + 1;
            }
            assert(wide_model(line) =~= wide_model(shifted));
            m = m + 1;
        }
        false
    }

    /// Whether a push in some direction changes `state`.
    pub fn check_movable(state: &Game2048State) -> (r: bool)
        ensures
            r == !is_stuck(*state),
    {
        Game2048Environment::changes(state, &Game2048Action::Up) || Game2048Environment::changes(
            state,
            &Game2048Action::Down,
        ) || Game2048Environment::changes(state, &Game2048Action::Left)
            || Game2048Environment::changes(state, &Game2048Action::Right)
    }

    /// Whether the game is over: no push changes `state`.
    pub fn check_game_set(state: &Game2048State) -> (r: bool)
        ensures
            r == is_stuck(*state),
    {
        !Game2048Environment::check_movable(state)
    }

    /// A new game: a 2 in the centre, then one random tile.
    pub fn init() -> (r: Game2048State)
        ensures
            starts_game(r),
            board_tiles(r),
    {
        let mut state = Game2048State::new();
        let size = Game2048State::get_board_size();
        state.set_element(size / 2, size / 2, SMALL_TILE);
        let ghost start = state;
        assert(start.cell(0, 0) == EMPTY_LITERAL);
        Game2048Environment::set_randomly(&mut state);
        proof {
            let (a, b, v) = choose|a: int, b: int, v: int|
                in_board(a, b) && #[trigger] start.cell(a, b) == EMPTY_LITERAL && (v == SMALL_TILE
                    || v == LARGE_TILE) && #[trigger] start.with_cell(&state, a, b, v);
            assert(state.cell(a, b) == v);
            assert(state.cell(2, 2) == SMALL_TILE);
            assert(is_power_of_two(1));
            lemma_double_power_of_two(1);
            assert(board_tiles(start));
        }
        state
    }

    /// One move of the game: push in direction `action`, then add a random
    /// tile.
    pub fn proceed_game(state: &Game2048State, action: &Game2048Action) -> (r: Game2048State)
        requires
            fits(*state, *action),
        ensures
            exists|mid: Game2048State| moved(*state, mid, *action) && added_tile(mid, r),
            board_tiles(*state) ==> board_tiles(r),
    {
        let mut next_state = *state;
        Game2048Environment::move_state(&mut next_state, action);
        let ghost mid = next_state;
        Game2048Environment::set_randomly(&mut next_state);
        next_state
    }
}

} // verus!
