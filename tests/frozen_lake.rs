use neuroevo::frozen_lake::{tile, Direction, FrozenLake};

#[test]
fn lake_starts_at_start() {
    let fl = FrozenLake::new();
    assert!(!fl.is_game_over());
    assert_eq!(fl.get_num_moves(), 0);
    assert_eq!(fl.get_x_diff_from_g(), -3);
    assert_eq!(fl.get_y_diff_from_g(), -3);
    assert_eq!(fl.get_left(), 'H');
    assert_eq!(fl.get_right(), 'F');
    assert_eq!(fl.get_up(), 'H');
    assert_eq!(fl.get_down(), 'F');
    assert_eq!(tile(4, 4), 'G');
}

#[test]
fn lake_hole_ends_episode() {
    let mut fl = FrozenLake::new();
    fl.move_player(Direction::Up);
    assert!(fl.is_game_over());
    assert_eq!(fl.get_num_moves(), 1);
    fl.move_player(Direction::Down);
    assert_eq!(fl.get_num_moves(), 1);
}

#[test]
fn lake_goal_reached() {
    let mut fl = FrozenLake::new();
    for d in [Direction::Down, Direction::Down, Direction::Right, Direction::Right, Direction::Down, Direction::Right] {
        assert!(!fl.is_game_over());
        fl.move_player(d);
    }
    assert!(fl.is_game_over());
    assert_eq!(fl.get_x_diff_from_g(), 0);
    assert_eq!(fl.get_y_diff_from_g(), 0);
    assert_eq!(fl.score(), 256 + 6);
}

#[test]
fn lake_move_limit() {
    let mut fl = FrozenLake::new();
    for _ in 0..25 {
        fl.move_player(Direction::Right);
        fl.move_player(Direction::Left);
    }
    assert!(fl.is_game_over());
    assert_eq!(fl.get_num_moves(), 50);
}

#[test]
fn lake_score_and_observation() {
    let fl = FrozenLake::new();
    // distance 6 from the goal: 2^2 + 0 moves
    assert_eq!(fl.score(), 4);
    assert_eq!(fl.observe(), vec![0, 1, 0, 1, 0, 0, 0, 1, 0, 1, 0, 0, -3, -3]);
    let mut dead = FrozenLake::new();
    dead.move_player(Direction::Left);
    // at (0, 1): distance 7, one move
    assert_eq!(dead.score(), 2 + 1);
}
