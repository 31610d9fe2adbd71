use terminal_snake::apple::Apple;
use terminal_snake::board::GameMap;
use terminal_snake::direction::{Directed, Direction, Pos};
use terminal_snake::draw::{glyphs, Draw, DrawInstruction, IsFreePos, Reset, Symbol};
use terminal_snake::errors::{GameError, SelfEatingStepError, SelfTurningDirectionError};
use terminal_snake::game::Game;
use terminal_snake::session::{Control, SnakeGame, UpdateReason};
use terminal_snake::snake::Snake;

fn text(ins: &DrawInstruction) -> String {
    glyphs(&ins.shape).into_iter().collect()
}

fn initial_body() -> Vec<Directed<Pos>> {
    Snake::new().segments()
}

#[test]
fn a_three_by_three_map_frames_three_rows_of_three() {
    let map = GameMap::new(3, 3);
    let paint = map.draw();
    assert_eq!(paint.len(), 3);
    for ins in &paint {
        assert_eq!(ins.shape.len(), 3);
    }
    let wall = Directed(Direction::Up, Symbol::Wall);
    let empty = Directed(Direction::Up, Symbol::Empty);
    assert_eq!(paint[0].shape, vec![wall, wall, wall]);
    assert_eq!(paint[1].shape, vec![wall, empty, wall]);
    assert_eq!(paint[2].shape, vec![wall, wall, wall]);
}

#[test]
fn eating_grows_the_snake_and_moves_the_food() {
    let map = GameMap::new(12, 10);
    let snake = Snake::new();
    let before = snake.segments();
    let food = Apple { pos: Pos { x: 5, y: 4 } };
    let mut game = Game::from_parts(map, snake, food);

    game.tick();

    let after = game.get_character().segments();
    assert_eq!(after.len(), before.len() + 1);
    assert_eq!(
        after,
        vec![
            Directed(Direction::Right, Pos { x: 3, y: 3 }),
            Directed(Direction::Right, Pos { x: 4, y: 3 }),
            Directed(Direction::Down, Pos { x: 5, y: 3 }),
            Directed(Direction::Down, Pos { x: 5, y: 4 }),
            Directed(Direction::Down, Pos { x: 5, y: 5 }),
        ]
    );
    let f = *game.get_food().get_pos();
    assert!(before.iter().all(|seg| seg.1 != f), "food respawned on the snake: {:?}", f);
    assert!(1 <= f.x && f.x <= 10 && 1 <= f.y && f.y <= 8);

    // growth lasts one step only
    game.tick();
    assert_eq!(game.get_character().len(), 5);
}

#[test]
fn running_into_a_wall_resets_the_round() {
    let map = GameMap::new(8, 7);
    let body = vec![
        Directed(Direction::Right, Pos { x: 4, y: 2 }),
        Directed(Direction::Right, Pos { x: 5, y: 2 }),
        Directed(Direction::Right, Pos { x: 6, y: 2 }),
    ];
    let snake = Snake::from_body(body, false);
    let food = Apple { pos: Pos { x: 1, y: 5 } };
    let mut game = Game::from_parts(map, snake, food);

    game.tick();

    assert_eq!(game.get_character().segments(), initial_body());
    let f = *game.get_food().get_pos();
    assert!(game.get_character().is_free_pos(&f));
    assert!(game.get_map().is_free_pos(&f));
}

#[test]
fn running_into_itself_resets_the_round() {
    let map = GameMap::new(10, 10);
    let body = vec![
        Directed(Direction::Right, Pos { x: 2, y: 2 }),
        Directed(Direction::Right, Pos { x: 3, y: 2 }),
        Directed(Direction::Down, Pos { x: 4, y: 2 }),
        Directed(Direction::Left, Pos { x: 4, y: 3 }),
        Directed(Direction::Up, Pos { x: 3, y: 3 }),
    ];
    let snake = Snake::from_body(body, false);
    let food = Apple { pos: Pos { x: 8, y: 8 } };
    let mut game = Game::from_parts(map, snake, food);

    game.tick();

    assert_eq!(game.get_character().segments(), initial_body());
}

#[test]
fn step_character_reports_each_round_end() {
    let body = vec![
        Directed(Direction::Right, Pos { x: 4, y: 2 }),
        Directed(Direction::Right, Pos { x: 5, y: 2 }),
        Directed(Direction::Right, Pos { x: 6, y: 2 }),
    ];
    let mut game = Game::from_parts(
        GameMap::new(8, 7),
        Snake::from_body(body, false),
        Apple { pos: Pos { x: 1, y: 5 } },
    );
    assert_eq!(game.step_character(), Err(GameError::KilledByWall));
    assert_eq!(game.get_character().get_head().1, Pos { x: 7, y: 2 });
    game.reset();
    assert_eq!(game.get_character().segments(), initial_body());

    let body = vec![
        Directed(Direction::Right, Pos { x: 2, y: 2 }),
        Directed(Direction::Right, Pos { x: 3, y: 2 }),
        Directed(Direction::Down, Pos { x: 4, y: 2 }),
        Directed(Direction::Left, Pos { x: 4, y: 3 }),
        Directed(Direction::Up, Pos { x: 3, y: 3 }),
    ];
    let mut game = Game::from_parts(
        GameMap::new(10, 10),
        Snake::from_body(body.clone(), false),
        Apple { pos: Pos { x: 8, y: 8 } },
    );
    assert_eq!(
        game.step_character(),
        Err(GameError::SelfEatingStepError(SelfEatingStepError))
    );
    assert_eq!(game.get_character().segments(), body);

    let mut game = Game::from_parts(GameMap::new(10, 10), Snake::new(), Apple::new());
    assert_eq!(game.step_character(), Ok(()));
    assert_eq!(game.get_character().get_head().1, Pos { x: 5, y: 5 });
    assert_eq!(*game.get_food().get_pos(), Pos { x: 0, y: 0 });
}

#[test]
fn error_messages_and_conversions() {
    assert_eq!(GameError::KilledByWall.message(), "You've been killed by the wall");
    assert_eq!(SelfEatingStepError.message(), "This step is self-eating!");
    assert_eq!(
        SelfTurningDirectionError.message(),
        "This direction would cause a self-turning step!"
    );
    let e: GameError = SelfEatingStepError.into();
    assert_eq!(e, GameError::SelfEatingStepError(SelfEatingStepError));
    assert_eq!(e.message(), "This step is self-eating!");
    let t = GameError::from(SelfTurningDirectionError);
    assert_eq!(t, GameError::SelfTurningDirectionError(SelfTurningDirectionError));
    assert_eq!(t.message(), "This direction would cause a self-turning step!");
}

#[test]
fn a_turn_request_is_applied_or_ignored() {
    let mut game = Game::from_parts(
        GameMap::new(10, 10),
        Snake::new(),
        Apple { pos: Pos { x: 1, y: 1 } },
    );
    game.turn_character(Direction::Up);
    assert_eq!(game.get_character().segments(), initial_body());
    game.turn_character(Direction::Left);
    assert_eq!(game.get_character().get_head().0, Direction::Left);
    game.tick();
    assert_eq!(game.get_character().get_head().1, Pos { x: 4, y: 4 });
    assert_eq!(*game.get_food().get_pos(), Pos { x: 1, y: 1 });
}

#[test]
fn the_frame_shows_map_then_food_then_snake() {
    let game = Game::from_parts(
        GameMap::new(8, 7),
        Snake::new(),
        Apple { pos: Pos { x: 1, y: 1 } },
    );
    let rows: Vec<String> = game.draw().iter().map(text).collect();
    assert_eq!(
        rows,
        vec!["########", "#♥     #", "#      #", "#  ### #", "#    ▼ #", "#      #", "########"]
    );

    // where food and snake meet, the snake shows
    let game = Game::from_parts(
        GameMap::new(8, 7),
        Snake::new(),
        Apple { pos: Pos { x: 5, y: 4 } },
    );
    let frame = game.draw();
    assert_eq!(text(&frame[4]), "#    ▼ #");
    for (y, ins) in frame.iter().enumerate() {
        assert_eq!(ins.pos, Pos { x: 0, y });
    }
}

#[test]
fn a_new_game_places_the_food_off_the_snake() {
    for _ in 0..50 {
        let game = Game::new(GameMap::new(9, 8), Snake::new(), Apple::new());
        let f = *game.get_food().get_pos();
        assert!(game.get_character().is_free_pos(&f));
        assert!(game.get_map().is_free_pos(&f));
    }
}

#[test]
fn a_session_ticks_and_turns() {
    let mut session = SnakeGame::new((20, 15));
    // built and ticked once
    assert_eq!(session.get_game().get_character().get_head().1, Pos { x: 5, y: 5 });
    session.update(UpdateReason::Control(Control::Turn(Direction::Right)));
    assert_eq!(session.get_game().get_character().get_head().0, Direction::Right);
    session.update(UpdateReason::Time);
    assert_eq!(session.get_game().get_character().get_head().1, Pos { x: 6, y: 5 });

    let frame = session.draw();
    assert_eq!(frame.len(), 15);
    let heads: usize = frame
        .iter()
        .map(|ins| ins.shape.iter().filter(|c| c.1 == Symbol::SnakeHead).count())
        .sum();
    assert_eq!(heads, 1);
    assert!(frame.iter().all(|ins| ins.shape.len() == 20));
}
