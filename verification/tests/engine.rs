use snake_engine::snake::{Command, Direction, GameOverReason, SnakeGame, Vector};

fn run(game: &mut SnakeGame, commands: &[Command]) {
    for c in commands {
        game.apply(*c);
    }
}

#[test]
fn it_works() {
    let mut game = SnakeGame::new(5, 5);

    for _i in 0..4 {
        game.tick();
    }

    assert!(game.game_over);
}

#[test]
fn fresh_board_layout() {
    // width 5, height 5: a two-cell snake sits on the middle row against the
    // right edge, head in front, moving left
    let game = SnakeGame::new_with_seed(5, 5, 0, 95);
    assert_eq!(game.snake.len(), 2);
    assert_eq!(game.snake[0], Vector(3, 2));
    assert_eq!(game.snake[1], Vector(4, 2));
    assert_eq!(game.direction, Direction::Left);
    assert_eq!(game.next_direction, Direction::Left);
    assert_eq!(game.food, vec![Vector(2, 2)]);
    assert_eq!(game.score, 0);
    assert_eq!(game.high_score_display, 0);
    assert!(!game.game_over);
    // 25 cells minus two snake cells minus one food item are free
    assert_eq!(game.free_positions.len(), 22);
}

#[test]
fn four_ticks_eat_then_hit_wall() {
    // the head moves left over the food at (2, 2) and leaves the board on
    // the fourth step
    let mut game = SnakeGame::new_with_seed(5, 5, 0, 95);

    game.tick();
    assert_eq!(game.snake[0], Vector(2, 2));
    assert_eq!(game.score, 1);
    assert!(!game.game_over);
    // eating retains the tail cell as a permanent hazard
    assert_eq!(game.hazards, vec![Vector(4, 2)]);

    game.tick();
    assert_eq!(game.snake[0], Vector(1, 2));
    game.tick();
    assert_eq!(game.snake[0], Vector(0, 2));
    assert!(!game.game_over);

    game.tick();
    assert!(game.game_over);
    assert_eq!(game.game_over_reason, Some(GameOverReason::Walls));
    assert_eq!(game.game_over_reason.unwrap().message(), "avoid walls");
    assert_eq!(game.score, 1);
}

#[test]
fn tick_is_idempotent_after_game_over() {
    let mut game = SnakeGame::new_with_seed(5, 5, 0, 95);
    for _ in 0..4 {
        game.tick();
    }
    assert!(game.game_over);
    let snake: Vec<Vector> = game.snake.iter().copied().collect();
    let free = game.free_positions.clone();
    let food = game.food.clone();
    let hazards = game.hazards.clone();
    let score = game.score;
    let rng = game.prng;
    for _ in 0..10 {
        game.tick();
    }
    assert!(game.game_over);
    assert_eq!(game.snake.iter().copied().collect::<Vec<Vector>>(), snake);
    assert_eq!(game.free_positions, free);
    assert_eq!(game.food, food);
    assert_eq!(game.hazards, hazards);
    assert_eq!(game.score, score);
    assert_eq!(game.prng, rng);
}

#[test]
fn reversal_and_repeat_are_ignored() {
    let mut game = SnakeGame::new_with_seed(5, 5, 0, 95);
    // moving left: queuing Right (the reverse) or Left (a repeat) changes
    // nothing
    game.change_direction(Direction::Right);
    assert_eq!(game.next_direction, Direction::Left);
    game.change_direction(Direction::Left);
    assert_eq!(game.next_direction, Direction::Left);
    game.tick();
    assert_eq!(game.direction, Direction::Left);
    assert_eq!(game.snake[0], Vector(2, 2));
    // a perpendicular direction is queued and committed on the next tick
    game.change_direction(Direction::Up);
    assert_eq!(game.next_direction, Direction::Up);
    assert_eq!(game.direction, Direction::Left);
    game.tick();
    assert_eq!(game.direction, Direction::Up);
    assert_eq!(game.snake[0], Vector(2, 1));
}

#[test]
fn rapid_changes_keep_only_the_last_valid() {
    let mut game = SnakeGame::new_with_seed(5, 5, 0, 95);
    game.change_direction(Direction::Up);
    game.change_direction(Direction::Down);
    assert_eq!(game.next_direction, Direction::Down);
    game.tick();
    assert_eq!(game.direction, Direction::Down);
    assert_eq!(game.snake[0], Vector(3, 3));
}

#[test]
fn kill_screen_on_full_board() {
    // 5 x 3 board: 15 cells, 2 snake, 1 food, 12 free
    let mut game = SnakeGame::new_with_seed(5, 3, 4, 2);
    assert_eq!(game.free_positions.len(), 12);
    game.add_food(12);
    assert!(!game.game_over);
    assert_eq!(game.free_positions.len(), 0);
    game.add_food(1);
    assert!(game.game_over);
    assert_eq!(game.game_over_reason, Some(GameOverReason::KillScreen));
    assert_eq!(
        game.game_over_reason.unwrap().message(),
        "can't believe you made it this far"
    );
}

#[test]
fn hitting_own_tail_ends_the_run() {
    let mut game = SnakeGame::new_with_seed(21, 15, 0, 1);
    run(&mut game, &[Command::MoveLeft, Command::Step, Command::MoveLeft, Command::Step, Command::MoveLeft, Command::Step, Command::MoveLeft, Command::Step, Command::MoveLeft, Command::Step, Command::MoveLeft, Command::Step, Command::MoveLeft, Command::Step, Command::MoveLeft, Command::Step, Command::MoveLeft, Command::Step, Command::MoveLeft, Command::Step, Command::MoveLeft, Command::Step, Command::MoveDown, Command::Step, Command::MoveRight, Command::Step, Command::MoveRight, Command::Step, Command::MoveRight, Command::Step, Command::MoveRight, Command::Step, Command::MoveRight, Command::Step, Command::MoveRight, Command::Step, Command::MoveRight, Command::Step, Command::MoveRight, Command::Step, Command::MoveRight, Command::Step, Command::MoveRight, Command::Step, Command::MoveUp, Command::Step, Command::MoveLeft, Command::Step, Command::MoveDown, Command::Step]);
    assert!(game.game_over);
    assert_eq!(game.game_over_reason, Some(GameOverReason::OwnTail));
    assert_eq!(
        game.game_over_reason.unwrap().message(),
        "avoid crashing into your own tail"
    );
    assert_eq!(game.score, 3);
}

#[test]
fn sliding_onto_a_hazard_ends_the_run() {
    let mut game = SnakeGame::new_with_seed(21, 15, 1, 2);
    run(&mut game, &[Command::MoveUp, Command::Step, Command::MoveUp, Command::Step, Command::MoveUp, Command::Step, Command::MoveUp, Command::Step, Command::MoveUp, Command::Step, Command::MoveLeft, Command::Step, Command::MoveUp, Command::Step, Command::MoveLeft, Command::Step, Command::MoveUp, Command::Step, Command::MoveRight, Command::Step, Command::MoveDown, Command::Step]);
    assert!(game.game_over);
    assert_eq!(game.game_over_reason, Some(GameOverReason::Hazard));
    assert_eq!(
        game.game_over_reason.unwrap().message(),
        "don't slip on the leftovers"
    );
    assert_eq!(game.score, 1);
}

#[test]
fn high_score_carries_across_restarts() {
    // a first run ends at score 5, a second at score 7; the display always
    // shows the high score as it stood when the current run began
    let mut game = SnakeGame::new_with_seed(21, 15, 7, 7);

    run(&mut game, &[Command::MoveUp, Command::Step, Command::MoveUp, Command::Step, Command::MoveUp, Command::Step, Command::MoveLeft, Command::Step, Command::MoveUp, Command::Step, Command::MoveLeft, Command::Step, Command::MoveUp, Command::Step, Command::MoveLeft, Command::Step, Command::MoveUp, Command::Step, Command::MoveUp, Command::Step, Command::MoveRight, Command::Step, Command::MoveDown, Command::Step, Command::MoveLeft, Command::Step, Command::MoveDown, Command::Step, Command::MoveDown, Command::Step, Command::MoveDown, Command::Step, Command::MoveDown, Command::Step, Command::MoveDown, Command::Step, Command::MoveDown, Command::Step, Command::MoveDown, Command::Step, Command::MoveDown, Command::Step, Command::MoveDown, Command::Step, Command::MoveDown, Command::Step, Command::MoveDown, Command::Step, Command::MoveDown, Command::Step, Command::MoveLeft, Command::Step, Command::MoveUp, Command::Step, Command::MoveUp, Command::Step, Command::MoveUp, Command::Step, Command::MoveLeft, Command::Step, Command::MoveUp, Command::Step, Command::MoveLeft, Command::Step, Command::MoveLeft, Command::Step, Command::MoveLeft, Command::Step, Command::MoveUp, Command::Step, Command::MoveLeft, Command::Step, Command::MoveUp, Command::Step, Command::MoveLeft, Command::Step, Command::MoveUp, Command::Step, Command::MoveLeft, Command::Step, Command::MoveUp, Command::Step, Command::MoveLeft, Command::Step, Command::MoveUp, Command::Step, Command::MoveLeft, Command::Step, Command::MoveUp, Command::Step, Command::MoveLeft, Command::Step, Command::MoveUp, Command::Step, Command::MoveLeft, Command::Step, Command::MoveUp, Command::Step, Command::MoveLeft, Command::Step, Command::MoveDown, Command::Step, Command::MoveDown, Command::Step, Command::MoveDown, Command::Step, Command::MoveDown, Command::Step, Command::MoveDown, Command::Step, Command::MoveDown, Command::Step, Command::MoveDown, Command::Step, Command::MoveDown, Command::Step, Command::MoveRight, Command::Step, Command::Step, Command::Step, Command::Step, Command::Step, Command::Step, Command::Step, Command::Step, Command::Step, Command::Step, Command::Step, Command::Step, Command::Step, Command::Step, Command::Step, Command::Step, Command::Step, Command::Step]);
    assert!(game.game_over);
    assert_eq!(game.score, 5);
    assert_eq!(game.high_score, 5);
    assert_eq!(game.high_score_display, 0);

    game.restart();
    assert_eq!(game.score, 0);
    assert_eq!(game.high_score_display, 5);

    run(&mut game, &[Command::MoveLeft, Command::Step, Command::MoveLeft, Command::Step, Command::MoveLeft, Command::Step, Command::MoveDown, Command::Step, Command::MoveLeft, Command::Step, Command::MoveDown, Command::Step, Command::MoveLeft, Command::Step, Command::MoveLeft, Command::Step, Command::MoveLeft, Command::Step, Command::MoveLeft, Command::Step, Command::MoveLeft, Command::Step, Command::MoveLeft, Command::Step, Command::MoveDown, Command::Step, Command::MoveLeft, Command::Step, Command::MoveDown, Command::Step, Command::MoveLeft, Command::Step, Command::MoveDown, Command::Step, Command::MoveLeft, Command::Step, Command::MoveDown, Command::Step, Command::MoveLeft, Command::Step, Command::MoveUp, Command::Step, Command::MoveUp, Command::Step, Command::MoveUp, Command::Step, Command::MoveUp, Command::Step, Command::MoveLeft, Command::Step, Command::MoveUp, Command::Step, Command::MoveLeft, Command::Step, Command::MoveUp, Command::Step, Command::MoveRight, Command::Step, Command::MoveRight, Command::Step, Command::MoveRight, Command::Step, Command::MoveRight, Command::Step, Command::MoveRight, Command::Step, Command::MoveRight, Command::Step, Command::MoveDown, Command::Step, Command::MoveRight, Command::Step, Command::MoveDown, Command::Step, Command::MoveRight, Command::Step, Command::MoveDown, Command::Step, Command::MoveRight, Command::Step, Command::MoveDown, Command::Step, Command::MoveRight, Command::Step, Command::MoveDown, Command::Step, Command::MoveRight, Command::Step, Command::MoveDown, Command::Step, Command::MoveRight, Command::Step, Command::MoveDown, Command::Step, Command::MoveRight, Command::Step, Command::MoveUp, Command::Step, Command::MoveUp, Command::Step, Command::MoveUp, Command::Step, Command::MoveUp, Command::Step, Command::MoveRight, Command::Step, Command::MoveUp, Command::Step, Command::MoveLeft, Command::Step, Command::MoveLeft, Command::Step, Command::MoveLeft, Command::Step, Command::MoveLeft, Command::Step, Command::MoveLeft, Command::Step, Command::MoveLeft, Command::Step, Command::MoveLeft, Command::Step, Command::MoveLeft, Command::Step, Command::MoveLeft, Command::Step, Command::MoveLeft, Command::Step, Command::MoveUp, Command::Step, Command::MoveLeft, Command::Step, Command::MoveUp, Command::Step, Command::MoveLeft, Command::Step, Command::MoveUp, Command::Step, Command::MoveLeft, Command::Step, Command::MoveUp, Command::Step, Command::MoveLeft, Command::Step, Command::MoveUp, Command::Step, Command::MoveRight, Command::Step, Command::MoveUp, Command::Step, Command::MoveRight, Command::Step, Command::MoveUp, Command::Step, Command::MoveUp, Command::Step, Command::Step, Command::Step]);
    assert!(game.game_over);
    assert_eq!(game.score, 7);
    assert_eq!(game.high_score, 7);
    assert_eq!(game.high_score_display, 5);

    game.restart();
    assert_eq!(game.high_score_display, 7);
    assert_eq!(game.score, 0);
    assert!(!game.game_over);
}

#[test]
fn same_seed_same_commands_same_state() {
    let commands = [
        Command::Step,
        Command::MoveUp,
        Command::Step,
        Command::Step,
        Command::MoveRight,
        Command::Step,
        Command::MoveDown,
        Command::Step,
        Command::Step,
        Command::MoveLeft,
        Command::Step,
        Command::Restart,
        Command::Step,
        Command::Step,
    ];
    let mut a = SnakeGame::new_with_seed(9, 7, 31415, 9265);
    let mut b = SnakeGame::new_with_seed(9, 7, 31415, 9265);
    for c in commands {
        a.apply(c);
        b.apply(c);
        assert_eq!(
            a.snake.iter().copied().collect::<Vec<Vector>>(),
            b.snake.iter().copied().collect::<Vec<Vector>>()
        );
        assert_eq!(a.free_positions, b.free_positions);
        assert_eq!(a.food, b.food);
        assert_eq!(a.hazards, b.hazards);
        assert_eq!(a.direction, b.direction);
        assert_eq!(a.next_direction, b.next_direction);
        assert_eq!(a.game_over, b.game_over);
        assert_eq!(a.game_over_reason, b.game_over_reason);
        assert_eq!(a.score, b.score);
        assert_eq!(a.high_score, b.high_score);
        assert_eq!(a.high_score_display, b.high_score_display);
        assert_eq!(a.prng, b.prng);
    }
}

#[test]
fn semi_open_tiles_surround_head_and_food() {
    let game = SnakeGame::new_with_seed(5, 5, 0, 95);
    // head at (3, 2), food at (2, 2); all eight orthogonal neighbours lie on
    // the board, listed left, right, up, down
    let tiles = game.get_semi_open_tiles();
    assert_eq!(
        tiles,
        vec![
            Vector(2, 2),
            Vector(4, 2),
            Vector(3, 1),
            Vector(3, 3),
            Vector(1, 2),
            Vector(3, 2),
            Vector(2, 1),
            Vector(2, 3),
        ]
    );
}

#[test]
fn semi_open_tiles_clip_at_the_border() {
    let mut game = SnakeGame::new_with_seed(5, 5, 0, 95);
    game.tick();
    game.tick();
    game.tick();
    // head now at (0, 2): its left neighbour is off the board
    assert_eq!(game.snake[0], Vector(0, 2));
    let tiles = game.get_semi_open_tiles();
    assert!(tiles.contains(&Vector(1, 2)));
    assert!(!tiles.contains(&Vector(-1, 2)));
}

#[test]
fn vector_addition_is_componentwise() {
    assert_eq!(Vector(3, -2).add(Vector(-1, 5)), Vector(2, 3));
    assert_eq!(Vector(0, 0).add(Vector(0, 0)), Vector(0, 0));
}

#[test]
fn direction_vectors_and_opposites() {
    assert_eq!(Direction::Up.to_vector(), Vector(0, -1));
    assert_eq!(Direction::Right.to_vector(), Vector(1, 0));
    assert_eq!(Direction::Down.to_vector(), Vector(0, 1));
    assert_eq!(Direction::Left.to_vector(), Vector(-1, 0));
    assert_eq!(Direction::Up.opposite(), Direction::Down);
    assert_eq!(Direction::Down.opposite(), Direction::Up);
    assert_eq!(Direction::Left.opposite(), Direction::Right);
    assert_eq!(Direction::Right.opposite(), Direction::Left);
}
