use snake_core::game::{Cell, GameState, Phase};
use snake_core::pos::{Direction, MAP_SIZE};

fn idx(x: usize, y: usize) -> usize {
    y * 16 + x
}

fn count_kind(g: &GameState, kind: Cell) -> usize {
    g.grid().iter().filter(|c| **c == kind).count()
}

fn food_cell(g: &GameState) -> usize {
    let mut found = None;
    for (i, c) in g.grid().iter().enumerate() {
        if *c == Cell::Food {
            assert!(found.is_none(), "more than one food tile");
            found = Some(i);
        }
    }
    found.expect("no food tile")
}

/// Constructs games until the food tile avoids every cell in `avoid`.
fn game_with_food_avoiding(avoid: &[usize]) -> GameState {
    for _ in 0..1_000_000 {
        let g = GameState::new();
        if !avoid.contains(&food_cell(&g)) {
            return g;
        }
    }
    panic!("food kept landing on the avoided tiles");
}

/// Constructs games until the food tile is exactly `cell`.
fn game_with_food_at(cell: usize) -> GameState {
    for _ in 0..1_000_000 {
        let g = GameState::new();
        if food_cell(&g) == cell {
            return g;
        }
    }
    panic!("food never landed on the requested tile");
}

#[test]
fn new_game_partition() {
    let g = GameState::new();
    assert_eq!(g.grid().len(), MAP_SIZE);
    assert_eq!(count_kind(&g, Cell::Snake), 1);
    assert_eq!(count_kind(&g, Cell::Food), 1);
    assert_eq!(count_kind(&g, Cell::Empty), MAP_SIZE - 2);
    assert_eq!(g.grid()[idx(8, 8)], Cell::Snake);
    assert_ne!(food_cell(&g), idx(8, 8));
    assert_eq!(g.snake_len(), 1);
    assert_eq!(g.moves(), 0);
}

#[test]
fn pause_returns_ready_and_mutates_nothing() {
    let mut g = GameState::new();
    let before = g.grid().clone();
    for _ in 0..3 {
        assert_eq!(g.tick(None), Phase::Ready);
    }
    assert_eq!(*g.grid(), before);
    assert_eq!(g.moves(), 0);
    assert_eq!(g.snake_len(), 1);
}

#[test]
fn straight_run_scenario() {
    let path = [idx(9, 8), idx(10, 8), idx(11, 8), idx(12, 8), idx(13, 8)];
    let mut g = game_with_food_avoiding(&path);
    for _ in 0..5 {
        assert_eq!(g.tick(Some(Direction::Right)), Phase::Running);
    }
    assert_eq!(g.grid()[idx(13, 8)], Cell::Snake);
    assert_eq!(count_kind(&g, Cell::Snake), 1);
    assert_eq!(g.snake_len(), 1);
    assert_eq!(g.moves(), 5);
}

#[test]
fn reversal_is_accepted_and_used() {
    let mut g = game_with_food_avoiding(&[idx(9, 8)]);
    assert_eq!(g.tick(Some(Direction::Right)), Phase::Running);
    assert_eq!(g.grid()[idx(9, 8)], Cell::Snake);
    // The opposite direction is not rejected: the next step goes back left.
    assert_eq!(g.tick(Some(Direction::Left)), Phase::Running);
    assert_eq!(g.grid()[idx(8, 8)], Cell::Snake);
    assert_eq!(g.grid()[idx(9, 8)], Cell::Empty);
    assert_eq!(count_kind(&g, Cell::Snake), 1);
    assert_eq!(g.moves(), 2);
}

#[test]
fn vertical_moves() {
    let path = [idx(8, 9), idx(8, 10)];
    let mut g = game_with_food_avoiding(&path);
    assert_eq!(g.tick(Some(Direction::Down)), Phase::Running);
    assert_eq!(g.tick(Some(Direction::Down)), Phase::Running);
    assert_eq!(g.grid()[idx(8, 10)], Cell::Snake);
    assert_eq!(count_kind(&g, Cell::Snake), 1);
    assert_eq!(g.moves(), 2);
}

#[test]
fn growth_on_food() {
    let mut g = game_with_food_at(idx(9, 8));
    assert_eq!(g.tick(Some(Direction::Right)), Phase::Running);
    assert_eq!(g.snake_len(), 2);
    assert_eq!(g.grid()[idx(8, 8)], Cell::Snake);
    assert_eq!(g.grid()[idx(9, 8)], Cell::Snake);
    assert_eq!(count_kind(&g, Cell::Snake), 2);
    // A fresh food tile was drawn, away from the snake.
    let f = food_cell(&g);
    assert_ne!(f, idx(8, 8));
    assert_ne!(f, idx(9, 8));
    assert_eq!(count_kind(&g, Cell::Food), 1);
    assert_eq!(g.moves(), 1);
}

#[test]
fn self_collision_yields_over() {
    let mut g = game_with_food_at(idx(9, 8));
    assert_eq!(g.tick(Some(Direction::Right)), Phase::Running);
    assert_eq!(g.snake_len(), 2);
    let before = g.grid().clone();
    // Reversing onto the tail tile is a self-collision.
    assert_eq!(g.tick(Some(Direction::Left)), Phase::Over);
    assert_eq!(*g.grid(), before);
    assert_eq!(g.snake_len(), 2);
    assert_eq!(g.moves(), 1);
}

#[test]
fn off_grid_yields_over() {
    let path = [
        idx(0, 8),
        idx(1, 8),
        idx(2, 8),
        idx(3, 8),
        idx(4, 8),
        idx(5, 8),
        idx(6, 8),
        idx(7, 8),
    ];
    let mut g = game_with_food_avoiding(&path);
    for _ in 0..8 {
        assert_eq!(g.tick(Some(Direction::Left)), Phase::Running);
    }
    assert_eq!(g.grid()[idx(0, 8)], Cell::Snake);
    let before = g.grid().clone();
    assert_eq!(g.tick(Some(Direction::Left)), Phase::Over);
    assert_eq!(*g.grid(), before);
    assert_eq!(g.moves(), 8);
}

#[test]
fn food_placement_varies() {
    let mut seen = Vec::new();
    for _ in 0..100 {
        let f = food_cell(&GameState::new());
        assert!(f < MAP_SIZE);
        assert_ne!(f, idx(8, 8));
        if !seen.contains(&f) {
            seen.push(f);
        }
    }
    assert!(seen.len() >= 2, "food tile never varied across 100 games");
}
