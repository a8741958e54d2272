pub mod game_easy_maze_action;
pub mod game_easy_maze_environment;
pub mod game_easy_maze_literal;
pub mod game_easy_maze_state;
pub mod game_2048_state;
pub mod game_2048_environment;
