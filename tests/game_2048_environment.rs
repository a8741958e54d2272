use artificial_intelligence_gym::game_2048_environment::count_empty;
use artificial_intelligence_gym::game_2048_environment::place_tile;
use artificial_intelligence_gym::game_2048_environment::Game2048Action;
use artificial_intelligence_gym::game_2048_environment::Game2048Environment;
use artificial_intelligence_gym::game_2048_state::Game2048State;
use artificial_intelligence_gym::game_2048_state::BOARD_SIZE;

fn non_empty_cells(state: &Game2048State) -> Vec<(usize, usize, i32)> {
    let mut cells = Vec::new();
    for i in 0..BOARD_SIZE {
        for j in 0..BOARD_SIZE {
            if !state.is_empty(i, j) {
                cells.push((i, j, state.get_element(i, j)));
            }
        }
    }
    cells
}

fn board_from(rows: [[i32; 4]; 4]) -> Game2048State {
    let mut state = Game2048State::new();
    for i in 0..4 {
        for j in 0..4 {
            state.set_element(i, j, rows[i][j]);
        }
    }
    state
}

#[test]
fn test_move() {
    let mut state = Game2048Environment::init();

    println!("{:?}", &state);

    if Game2048Environment::check_game_set(&state) {
        println!("Game Set!");
        return;
    }

    for i in 1..500 {
        println!("++++++++++++++++++++++++++++++++++++++++++++++++++++++++++++");

        println!("{:?}", &state);

        let action = match (i as u32) % 4 {
            0 => Game2048Action::Up,
            1 => Game2048Action::Down,
            2 => Game2048Action::Right,
            _ => Game2048Action::Left,
        };

        println!("{:?}", &action);

        state = Game2048Environment::proceed_game(&state, &action);

        println!("{:?}", &state);

        if Game2048Environment::check_game_set(&state) {
            println!("Game Set!");
            break;
        }

        println!("++++++++++++++++++++++++++++++++++++++++++++++++++++++++++++");
    }
}

#[test]
fn test_impl() {
    let mut state = Game2048Environment::init();

    println!("{:?}", &state);

    state.set_element(0, 3, 4);
    state.set_element(1, 3, 4);
    state.set_element(2, 3, 16);
    state.set_element(3, 3, 16);

    println!("{:?}", &state);

    Game2048Environment::move_down_state(&mut state);

    println!("{:?}", &state);
}

#[test]
fn init_puts_two_in_centre_and_one_random_tile() {
    for _ in 0..50 {
        let state = Game2048Environment::init();
        assert_eq!(state.get_element(BOARD_SIZE / 2, BOARD_SIZE / 2), 2);
        let cells = non_empty_cells(&state);
        assert_eq!(cells.len(), 2);
        for (_, _, v) in cells {
            assert!(v == 2 || v == 4);
        }
    }
}

#[test]
fn down_push_merges_column_with_stop_at_gap() {
    let mut state = Game2048State::new();
    state.set_element(0, 3, 4);
    state.set_element(1, 3, 4);
    state.set_element(2, 3, 16);
    state.set_element(3, 3, 16);
    Game2048Environment::move_down_state(&mut state);
    assert_eq!(state.get_element(0, 3), 0);
    assert_eq!(state.get_element(1, 3), 0);
    assert_eq!(state.get_element(2, 3), 8);
    assert_eq!(state.get_element(3, 3), 32);
}

#[test]
fn down_push_after_init_keeps_column_result() {
    let mut state = Game2048Environment::init();
    state.set_element(0, 3, 4);
    state.set_element(1, 3, 4);
    state.set_element(2, 3, 16);
    state.set_element(3, 3, 16);
    Game2048Environment::move_down_state(&mut state);
    let column: Vec<i32> = (0..4).map(|i| state.get_element(i, 3)).collect();
    assert_eq!(column, vec![0, 0, 8, 32]);
}

#[test]
fn left_push_slides_and_merges() {
    let mut state = board_from([[0, 2, 2, 4], [2, 0, 0, 2], [4, 4, 4, 4], [0, 0, 0, 8]]);
    Game2048Environment::move_left_state(&mut state);
    assert_eq!(
        *state.get_board_ref(),
        [[8, 0, 0, 0], [4, 0, 0, 0], [16, 0, 0, 0], [8, 0, 0, 0]]
    );
}

#[test]
fn left_push_stops_at_gap() {
    let mut state = board_from([[2, 0, 4, 0], [8, 4, 0, 2], [0, 0, 0, 0], [0, 0, 0, 0]]);
    Game2048Environment::move_left_state(&mut state);
    assert_eq!(state.get_board_ref()[0], [2, 4, 0, 0]);
    assert_eq!(state.get_board_ref()[1], [8, 4, 2, 0]);
}

#[test]
fn right_and_up_pushes() {
    let mut state = board_from([[2, 2, 0, 0], [0, 0, 0, 0], [2, 0, 0, 0], [0, 0, 0, 0]]);
    Game2048Environment::move_right_state(&mut state);
    assert_eq!(state.get_board_ref()[0], [0, 0, 0, 4]);
    assert_eq!(state.get_board_ref()[2], [0, 0, 0, 2]);
    Game2048Environment::move_up_state(&mut state);
    assert_eq!(state.get_board_ref()[0], [0, 0, 0, 4]);
    assert_eq!(state.get_board_ref()[1], [0, 0, 0, 2]);
}

#[test]
fn full_board_without_pairs_is_stuck() {
    let state = board_from([[2, 4, 2, 4], [4, 2, 4, 2], [2, 4, 2, 4], [4, 2, 4, 2]]);
    assert!(Game2048Environment::check_game_set(&state));
    assert!(!Game2048Environment::check_movable(&state));
}

#[test]
fn board_with_a_pair_across_is_not_stuck() {
    let state = board_from([[2, 2, 8, 4], [4, 8, 4, 2], [2, 4, 2, 4], [4, 2, 4, 2]]);
    assert!(Game2048Environment::check_movable(&state));
    assert!(!Game2048Environment::check_game_set(&state));
}

#[test]
fn board_movable_only_sideways_is_not_stuck() {
    let state = board_from([[2, 4, 2, 0], [4, 2, 4, 8], [2, 4, 2, 4], [4, 2, 4, 2]]);
    let mut up = state;
    Game2048Environment::move_up_state(&mut up);
    assert_ne!(up, state);
    assert!(Game2048Environment::check_movable(&state));
}

#[test]
fn set_randomly_on_full_board_does_nothing() {
    let mut state = board_from([[2, 4, 2, 4], [4, 2, 4, 2], [2, 4, 2, 4], [4, 2, 4, 2]]);
    let before = state;
    assert!(!Game2048Environment::set_randomly(&mut state));
    assert_eq!(state, before);
}

#[test]
fn set_randomly_fills_one_empty_cell() {
    let mut state = board_from([[2, 4, 2, 4], [4, 2, 0, 2], [2, 4, 2, 4], [4, 2, 4, 2]]);
    assert!(Game2048Environment::set_randomly(&mut state));
    let v = state.get_element(1, 2);
    assert!(v == 2 || v == 4);
    assert_eq!(non_empty_cells(&state).len(), 16);
}

#[test]
fn do_sample_gives_two_or_four() {
    let mut seen_two = false;
    for _ in 0..200 {
        let v = Game2048Environment::do_sample();
        assert!(v == 2 || v == 4);
        seen_two = seen_two || v == 2;
    }
    assert!(seen_two);
}

#[test]
fn place_tile_counts_empty_cells_row_by_row() {
    let mut state = board_from([[2, 0, 4, 0], [0, 2, 2, 2], [2, 2, 2, 2], [2, 2, 2, 2]]);
    assert_eq!(count_empty(&state), 3);
    place_tile(&mut state, 2, 4);
    assert_eq!(state.get_element(1, 0), 4);
    assert_eq!(count_empty(&state), 2);
    place_tile(&mut state, 0, 2);
    assert_eq!(state.get_element(0, 1), 2);
}

#[test]
fn proceed_game_pushes_then_adds_a_tile() {
    let state = board_from([[2, 2, 0, 0], [0, 0, 0, 0], [0, 0, 0, 0], [0, 0, 0, 0]]);
    let next = Game2048Environment::proceed_game(&state, &Game2048Action::Left);
    assert_eq!(next.get_element(0, 0), 4);
    let cells = non_empty_cells(&next);
    assert_eq!(cells.len(), 2);
}

#[test]
fn fits_push_rejects_overflowing_lines() {
    let big = board_from([[i32::MAX, 1, 0, 0], [0, 0, 0, 0], [0, 0, 0, 0], [0, 0, 0, 0]]);
    assert!(!Game2048Environment::fits_push(&big, &Game2048Action::Left));
    assert!(Game2048Environment::fits_push(&big, &Game2048Action::Up));
    let negative = board_from([[-2, 0, 0, 0], [0, 0, 0, 0], [0, 0, 0, 0], [0, 0, 0, 0]]);
    assert!(!Game2048Environment::fits_push(&negative, &Game2048Action::Down));
}

#[test]
fn tile_for_draw_picks_small_or_large() {
    assert_eq!(Game2048Environment::tile_for_draw(true), 2);
    assert_eq!(Game2048Environment::tile_for_draw(false), 4);
}

#[test]
fn stuck_board_with_huge_tiles_is_reported_terminal() {
    let a = 1 << 30;
    let b = 1 << 29;
    let state = board_from([[a, b, a, b], [b, a, b, a], [a, b, a, b], [b, a, b, a]]);
    assert!(!Game2048Environment::fits_push(&state, &Game2048Action::Left));
    assert!(Game2048Environment::check_game_set(&state));
    assert!(!Game2048Environment::check_movable(&state));
}

#[test]
fn huge_equal_pair_is_movable() {
    let a = 1 << 30;
    let state = board_from([[a, a, 2, 4], [4, 2, 4, 2], [2, 4, 2, 4], [4, 2, 4, 2]]);
    assert!(Game2048Environment::check_movable(&state));
}
