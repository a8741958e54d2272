use artificial_intelligence_gym::game_easy_maze_action::GameEazyMazeAction;
use artificial_intelligence_gym::game_easy_maze_action::GameEazyMazeAction::Down;
use artificial_intelligence_gym::game_easy_maze_action::GameEazyMazeAction::Left;
use artificial_intelligence_gym::game_easy_maze_action::GameEazyMazeAction::Right;
use artificial_intelligence_gym::game_easy_maze_action::GameEazyMazeAction::Up;
use artificial_intelligence_gym::game_easy_maze_environment::GameEazyMazeEnvironment;
use artificial_intelligence_gym::game_easy_maze_environment::MazeError;
use artificial_intelligence_gym::game_easy_maze_environment::MoveProbability;
use artificial_intelligence_gym::game_easy_maze_environment::Outcome;
use artificial_intelligence_gym::game_easy_maze_literal::GameEasyMazeLiteral;
use artificial_intelligence_gym::game_easy_maze_literal::GameEasyMazeLiteral::BLOCK;
use artificial_intelligence_gym::game_easy_maze_literal::GameEasyMazeLiteral::MOVABLE;
use artificial_intelligence_gym::game_easy_maze_state::GameEasyMazeState;

fn prob(numerator: u32, denominator: u32) -> MoveProbability {
    MoveProbability { numerator, denominator }
}

fn sample_grid() -> Vec<Vec<GameEasyMazeLiteral>> {
    vec![
        vec![MOVABLE, MOVABLE, BLOCK],
        vec![MOVABLE, MOVABLE, MOVABLE],
        vec![MOVABLE, MOVABLE, MOVABLE],
    ]
}

fn weight_of(d: &[Outcome], s: GameEasyMazeState) -> Option<u64> {
    d.iter().find(|e| e.0 == s).map(|e| e.1)
}

#[test]
fn test_new() {
    let grid = vec![
        vec![MOVABLE, MOVABLE, MOVABLE],
        vec![MOVABLE, MOVABLE, MOVABLE],
        vec![MOVABLE, MOVABLE, MOVABLE],
    ];

    GameEazyMazeEnvironment::new(grid, prob(8, 10)).unwrap();
}

#[test]
fn test_get_movable_states() {
    let grid = sample_grid();

    let movable_states = GameEazyMazeEnvironment::get_movable_states(&grid);

    assert_eq!(movable_states.len(), 8);
}

#[test]
fn test_transit_func() {
    let grid = sample_grid();

    let move_prob = 0.8;

    let env = GameEazyMazeEnvironment::new(grid, prob(8, 10)).unwrap();

    let cur_state = GameEasyMazeState::new(0, 0);

    let transit_probabilities = env.transit_func(&cur_state, &Down).unwrap();

    assert_eq!(transit_probabilities.len(), 3);

    let denominator = 20.0;
    let prob_00 = weight_of(&transit_probabilities, GameEasyMazeState::new(0, 0)).unwrap() as f64 / denominator;
    let prob_01 = weight_of(&transit_probabilities, GameEasyMazeState::new(0, 1)).unwrap() as f64 / denominator;
    let prob_10 = weight_of(&transit_probabilities, GameEasyMazeState::new(1, 0)).unwrap() as f64 / denominator;

    let side_prob = (1.0 - move_prob) / 2.0;

    let eps = 1e-10;

    assert!((side_prob - prob_00).abs() < eps);
    assert!((side_prob - prob_01).abs() < eps);
    assert!((move_prob - prob_10).abs() < eps);
}

#[test]
fn transit_func_exact_weights() {
    let env = GameEazyMazeEnvironment::new(sample_grid(), prob(8, 10)).unwrap();
    let d = env.transit_func(&GameEasyMazeState::new(0, 0), &Down).unwrap();
    assert_eq!(weight_of(&d, GameEasyMazeState::new(1, 0)), Some(16));
    assert_eq!(weight_of(&d, GameEasyMazeState::new(0, 0)), Some(2));
    assert_eq!(weight_of(&d, GameEasyMazeState::new(0, 1)), Some(2));
}

#[test]
fn weights_sum_to_one_everywhere() {
    let env = GameEazyMazeEnvironment::new(sample_grid(), prob(7, 9)).unwrap();
    for s in env.movable_states().clone() {
        for a in [Up, Down, Left, Right] {
            let d = env.transit_func(&s, &a).unwrap();
            let total: u64 = d.iter().map(|e| e.1).sum();
            assert_eq!(total, 18);
            assert!(d.iter().all(|e| e.1 > 0));
        }
    }
}

#[test]
fn opposite_move_gets_no_weight() {
    let grid = vec![vec![MOVABLE; 3]; 3];
    let env = GameEazyMazeEnvironment::new(grid, prob(8, 10)).unwrap();
    let centre = GameEasyMazeState::new(1, 1);
    let d = env.transit_func(&centre, &Down).unwrap();
    assert_eq!(d.len(), 3);
    assert_eq!(weight_of(&d, GameEasyMazeState::new(0, 1)), None);
    assert_eq!(weight_of(&d, GameEasyMazeState::new(2, 1)), Some(16));
    assert_eq!(weight_of(&d, GameEasyMazeState::new(1, 0)), Some(2));
    assert_eq!(weight_of(&d, GameEasyMazeState::new(1, 2)), Some(2));
}

#[test]
fn certain_move_has_one_outcome() {
    let env = GameEazyMazeEnvironment::new(sample_grid(), prob(5, 5)).unwrap();
    let d = env.transit_func(&GameEasyMazeState::new(1, 1), &Right).unwrap();
    assert_eq!(d, vec![(GameEasyMazeState::new(1, 2), 10)]);
}

#[test]
fn blocked_or_outside_move_stays_put() {
    let env = GameEazyMazeEnvironment::new(sample_grid(), prob(8, 10)).unwrap();
    let s = GameEasyMazeState::new(0, 1);
    let once = env.try_to_move(&s, &Right);
    assert_eq!(once, s);
    assert_eq!(env.try_to_move(&once, &Right), s);
    let corner = GameEasyMazeState::new(0, 0);
    assert_eq!(env.try_to_move(&corner, &Up), corner);
    assert_eq!(env.try_to_move(&corner, &Left), corner);
    assert_eq!(env.try_to_move(&corner, &Down), GameEasyMazeState::new(1, 0));
}

#[test]
fn illegal_state_has_no_distribution() {
    let env = GameEazyMazeEnvironment::new(sample_grid(), prob(8, 10)).unwrap();
    assert_eq!(env.transit_func(&GameEasyMazeState::new(0, 2), &Up), Err(MazeError::IllegalState));
    assert_eq!(env.transit_func(&GameEasyMazeState::new(-1, -1), &Up), Err(MazeError::IllegalState));
    assert!(!env.can_action_at(&GameEasyMazeState::new(5, 0)));
    assert!(env.can_action_at(&GameEasyMazeState::new(2, 2)));
}

#[test]
fn malformed_configurations_are_rejected() {
    assert_eq!(GameEazyMazeEnvironment::new(vec![], prob(8, 10)).unwrap_err(), MazeError::EmptyGrid);
    assert_eq!(GameEazyMazeEnvironment::new(vec![vec![]], prob(8, 10)).unwrap_err(), MazeError::EmptyGrid);
    let ragged = vec![vec![MOVABLE, MOVABLE], vec![MOVABLE]];
    assert_eq!(GameEazyMazeEnvironment::new(ragged, prob(8, 10)).unwrap_err(), MazeError::RaggedGrid);
    assert_eq!(
        GameEazyMazeEnvironment::new(sample_grid(), prob(0, 10)).unwrap_err(),
        MazeError::InvalidProbability
    );
    assert_eq!(
        GameEazyMazeEnvironment::new(sample_grid(), prob(11, 10)).unwrap_err(),
        MazeError::InvalidProbability
    );
}

#[test]
fn environment_extents_and_actions() {
    let env = GameEazyMazeEnvironment::new(sample_grid(), prob(8, 10)).unwrap();
    assert_eq!(env.row_length(), 3);
    assert_eq!(env.column_length(), 3);
    assert_eq!(env.actions(), &[Up, Down, Left, Right]);
    assert_eq!(env.move_prob(), prob(8, 10));
    assert_eq!(env.default_reward_millis(), -40);
    assert!(!env.movable_states().contains(&GameEasyMazeState::new(0, 2)));
}

#[test]
fn state_steps_by_offsets() {
    let mut s = GameEasyMazeState::new(2, 3);
    s.step(-1, 2);
    assert_eq!(s.get_row(), 1);
    assert_eq!(s.get_column(), 5);
    let a: GameEazyMazeAction = Left;
    assert_eq!(a.opposite(), Right);
}
