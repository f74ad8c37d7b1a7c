use snake_game::game::{AdvanceOutcome, Cell, Direction, GameError, GameState};

fn cell(x: usize, y: usize) -> Cell {
    Cell { x, y }
}

/// A body that loops back on itself: the head at (5,5) moving Up hits
/// (5,4), a body cell that is not the tail.
fn looping_state() -> GameState {
    let body = vec![cell(5, 5), cell(4, 5), cell(4, 4), cell(5, 4), cell(6, 4)];
    GameState::from_parts(20, 20, body, Direction::Up, cell(10, 10)).unwrap()
}

#[test]
fn test_snake_initial_position() {
    let game_state = GameState::new();
    assert_eq!(game_state.body().len(), 3);
}

#[test]
fn test_collision_detection() {
    let mut game_state = looping_state();
    assert_eq!(game_state.update().is_err(), true);
}

#[test]
fn test_initial_state() {
    let g = GameState::new();
    assert_eq!(g.width(), 20);
    assert_eq!(g.height(), 20);
    assert_eq!(g.body(), vec![cell(5, 5), cell(5, 4), cell(5, 3)]);
    assert_eq!(g.head_position(), cell(5, 5));
    assert_eq!(g.direction(), Direction::Right);
    assert_eq!(g.food(), cell(10, 10));
    assert_eq!(g.score(), 0);
    assert!(!g.is_game_over());
}

#[test]
fn test_reversal_is_ignored() {
    let mut g = GameState::new();
    g.change_direction(Direction::Left);
    assert_eq!(g.direction(), Direction::Right);
    assert_eq!(g.update(), Ok(AdvanceOutcome::Moved));
    assert_eq!(g.head_position(), cell(6, 5));
}

#[test]
fn test_perpendicular_change_is_taken() {
    let mut g = GameState::new();
    g.change_direction(Direction::Down);
    assert_eq!(g.direction(), Direction::Down);
    assert_eq!(g.update(), Ok(AdvanceOutcome::Moved));
    assert_eq!(g.head_position(), cell(5, 6));
}

#[test]
fn test_opposites() {
    assert_eq!(Direction::Up.opposite(), Direction::Down);
    assert_eq!(Direction::Down.opposite(), Direction::Up);
    assert_eq!(Direction::Left.opposite(), Direction::Right);
    assert_eq!(Direction::Right.opposite(), Direction::Left);
}

#[test]
fn test_wrap_right_edge() {
    let mut g = GameState::from_parts(4, 4, vec![cell(3, 2)], Direction::Right, cell(1, 1))
        .unwrap();
    assert_eq!(g.update(), Ok(AdvanceOutcome::Moved));
    assert_eq!(g.head_position(), cell(0, 2));
}

#[test]
fn test_wrap_left_edge() {
    let mut g = GameState::from_parts(4, 4, vec![cell(0, 2)], Direction::Left, cell(1, 1))
        .unwrap();
    assert_eq!(g.update(), Ok(AdvanceOutcome::Moved));
    assert_eq!(g.head_position(), cell(3, 2));
}

#[test]
fn test_wrap_bottom_edge() {
    let mut g = GameState::from_parts(4, 4, vec![cell(2, 3)], Direction::Down, cell(1, 1))
        .unwrap();
    assert_eq!(g.update(), Ok(AdvanceOutcome::Moved));
    assert_eq!(g.head_position(), cell(2, 0));
}

#[test]
fn test_wrap_top_edge() {
    let mut g = GameState::from_parts(4, 4, vec![cell(2, 0)], Direction::Up, cell(1, 1))
        .unwrap();
    assert_eq!(g.update(), Ok(AdvanceOutcome::Moved));
    assert_eq!(g.head_position(), cell(2, 3));
}

#[test]
fn test_growth_on_food() {
    let mut g = GameState::from_parts(20, 20, vec![cell(5, 5), cell(4, 5)], Direction::Right,
        cell(6, 5)).unwrap();
    assert_eq!(g.update(), Ok(AdvanceOutcome::Grew));
    let body = g.body();
    assert_eq!(body, vec![cell(6, 5), cell(5, 5), cell(4, 5)]);
    assert_eq!(g.score(), 1);
    assert!(!body.contains(&g.food()));
    assert!(g.food().x < 20 && g.food().y < 20);
}

#[test]
fn test_self_collision_leaves_body_unchanged() {
    let mut g = looping_state();
    let before = g.body();
    assert_eq!(g.update(), Err(GameError::Collision));
    assert_eq!(g.body(), before);
    assert_eq!(g.score(), 0);
    assert_eq!(g.food(), cell(10, 10));
    assert!(g.is_game_over());
}

#[test]
fn test_tail_chase_is_not_a_collision() {
    // A snake circling a 2x2 block steps onto the cell its tail vacates.
    let body = vec![cell(1, 1), cell(1, 2), cell(2, 2), cell(2, 1)];
    let mut g = GameState::from_parts(8, 8, body, Direction::Left, cell(5, 5)).unwrap();
    // Head (1,1) moving Left lands on (0,1), free: an ordinary move.
    assert_eq!(g.update(), Ok(AdvanceOutcome::Moved));
    assert_eq!(g.head_position(), cell(0, 1));
    // Turn down and circle back over the vacated cells.
    g.change_direction(Direction::Down);
    assert_eq!(g.update(), Ok(AdvanceOutcome::Moved));
    g.change_direction(Direction::Right);
    assert_eq!(g.update(), Ok(AdvanceOutcome::Moved));
    assert_eq!(g.head_position(), cell(1, 2));
    assert_eq!(g.body().len(), 4);
    assert!(!g.is_game_over());
}

#[test]
fn test_non_growing_move_preserves_length() {
    let mut g = GameState::new();
    assert_eq!(g.update(), Ok(AdvanceOutcome::Moved));
    assert_eq!(g.body().len(), 3);
    assert_eq!(g.score(), 0);
}

#[test]
fn test_five_moves_reach_column_10() {
    let mut g = GameState::new();
    for _ in 0..5 {
        assert!(g.update().is_ok());
    }
    assert_eq!(g.head_position(), cell(10, 5));
    assert_eq!(g.body().len(), 3);
}

#[test]
fn test_end_to_end_growth_on_fifth_tick() {
    let body = vec![cell(5, 5), cell(5, 4), cell(5, 3)];
    let mut g = GameState::from_parts(20, 20, body, Direction::Right, cell(10, 5)).unwrap();
    for _ in 0..4 {
        assert_eq!(g.update(), Ok(AdvanceOutcome::Moved));
    }
    assert_eq!(g.update(), Ok(AdvanceOutcome::Grew));
    assert_eq!(g.head_position(), cell(10, 5));
    assert_eq!(g.score(), 1);
    let body = g.body();
    assert_eq!(body.len(), 4);
    assert_ne!(g.food(), cell(10, 5));
    assert!(!body.contains(&g.food()));
    // No two segments occupy the same cell.
    for i in 0..body.len() {
        for j in (i + 1)..body.len() {
            assert_ne!(body[i], body[j]);
        }
    }
}

#[test]
fn test_board_full_on_last_cell() {
    let mut g = GameState::from_parts(2, 1, vec![cell(0, 0)], Direction::Right, cell(1, 0))
        .unwrap();
    assert_eq!(g.update(), Err(GameError::BoardFull));
    assert_eq!(g.body().len(), 2);
    assert_eq!(g.score(), 1);
    assert!(g.is_game_over());
}

#[test]
fn test_spawn_food_takes_the_only_free_cell() {
    let mut g = GameState::from_parts(1, 2, vec![cell(0, 0)], Direction::Down, cell(0, 1))
        .unwrap();
    assert_eq!(g.spawn_food(), Ok(()));
    assert_eq!(g.food(), cell(0, 1));
}

#[test]
fn test_spawn_food_avoids_the_snake() {
    let mut g = GameState::new();
    assert_eq!(g.spawn_food(), Ok(()));
    let body = g.body();
    assert!(!body.contains(&g.food()));
    assert!(g.food().x < 20 && g.food().y < 20);
}

#[test]
fn test_spawn_food_reports_full_board() {
    let mut g = GameState::from_parts(2, 1, vec![cell(0, 0)], Direction::Right, cell(1, 0))
        .unwrap();
    assert_eq!(g.update(), Err(GameError::BoardFull));
    assert_eq!(g.spawn_food(), Err(GameError::BoardFull));
}

#[test]
fn test_reset_restores_start() {
    let mut g = looping_state();
    assert!(g.update().is_err());
    assert!(g.is_game_over());
    g.reset();
    assert!(!g.is_game_over());
    assert_eq!(g.body(), vec![cell(5, 5), cell(5, 4), cell(5, 3)]);
    assert_eq!(g.direction(), Direction::Right);
    assert_eq!(g.score(), 0);
    assert!(!g.body().contains(&g.food()));
}

#[test]
fn test_from_parts_rejects_bad_pieces() {
    // Zero-sized grid.
    assert!(GameState::from_parts(0, 4, vec![cell(0, 0)], Direction::Right, cell(0, 1)).is_none());
    // Empty body.
    assert!(GameState::from_parts(4, 4, vec![], Direction::Right, cell(0, 1)).is_none());
    // A body cell off the grid.
    assert!(GameState::from_parts(4, 4, vec![cell(4, 0)], Direction::Right, cell(0, 1)).is_none());
    // Two segments on the same cell.
    let dup = vec![cell(1, 1), cell(2, 1), cell(1, 1)];
    assert!(GameState::from_parts(4, 4, dup, Direction::Right, cell(0, 1)).is_none());
    // Food under the snake.
    assert!(GameState::from_parts(4, 4, vec![cell(1, 1)], Direction::Right, cell(1, 1)).is_none());
    // Food off the grid.
    assert!(GameState::from_parts(4, 4, vec![cell(1, 1)], Direction::Right, cell(0, 4)).is_none());
}

#[test]
fn test_with_grid_places_food_off_the_snake() {
    let g = GameState::with_grid(6, 6);
    assert_eq!(g.width(), 6);
    assert_eq!(g.height(), 6);
    assert_eq!(g.body(), vec![cell(5, 5), cell(5, 4), cell(5, 3)]);
    assert_eq!(g.direction(), Direction::Right);
    assert_eq!(g.score(), 0);
    assert!(!g.is_game_over());
    assert!(!g.body().contains(&g.food()));
    assert!(g.food().x < 6 && g.food().y < 6);
}
