use neuroevo::snake::{Snake, SnakeDirection};

#[test]
fn snake_starts_idle() {
    let mut s = Snake::new();
    assert!(!s.is_game_over());
    assert_eq!(s.get_score(), 3);
    assert_eq!(s.cell(4, 4), 'S');
    assert_eq!(s.cell(7, 3), 'A');
    assert_eq!(s.cell(0, 5), 'W');
    assert_eq!(s.cell(2, 2), ' ');
    s.move_snake();
    assert_eq!(s.cell(4, 6), 'S');
}

#[test]
fn snake_moves_and_leaves_tail() {
    let mut s = Snake::new();
    s.set_direction(SnakeDirection::Left);
    s.move_snake();
    assert_eq!(s.cell(3, 4), 'S');
    assert_eq!(s.cell(4, 6), ' ');
    assert_eq!(s.get_score(), 3);
    assert!(!s.is_game_over());
}

#[test]
fn snake_dies_on_body() {
    let mut s = Snake::new();
    s.set_direction(SnakeDirection::Down);
    s.move_snake();
    assert!(s.is_game_over());
}

#[test]
fn snake_dies_on_wall() {
    let mut s = Snake::new();
    s.set_direction(SnakeDirection::Up);
    for _ in 0..4 {
        s.move_snake();
    }
    assert!(s.is_game_over());
}

#[test]
fn snake_eats_apple() {
    let mut s = Snake::new();
    s.set_direction(SnakeDirection::Up);
    s.move_snake();
    s.set_direction(SnakeDirection::Right);
    s.move_snake();
    s.move_snake();
    s.move_snake();
    assert_eq!(s.get_score(), 4);
    assert!(!s.is_game_over());
    assert_eq!(s.cell(7, 3), 'S');
    let mut apples = 0;
    for y in 0..10 {
        for x in 0..10 {
            if s.cell(x, y) == 'A' {
                apples += 1;
            }
        }
    }
    assert_eq!(apples, 1);
}
