use terminal_snake::apple::Apple;
use terminal_snake::board::GameMap;
use terminal_snake::direction::{Directed, Direction, Pos, Size, Vec2};
use terminal_snake::draw::{glyphs, Draw, IsFreePos, Symbol};
use terminal_snake::snake::Snake;

#[test]
fn mod_it_can_spawn_apple() {
    // every interior cell of a 10 by 10 grid is free on a 10 by 10 map
    let mut one = Apple::new();
    let mut two = Apple::new();
    let always_free = GameMap::new(10, 10);
    let size = Size { x: 10, y: 10 };

    one.spawn(&size, &always_free);

    while one.get_pos() == two.get_pos() {
        two.spawn(&size, &always_free);
    }

    assert_ne!(one.get_pos(), two.get_pos());
}

#[test]
fn apple_test_it_can_spawn_apple() {
    let mut one = Apple::new();
    let mut two = Apple::new();
    let always_free = GameMap::new(10, 10);
    let size = Vec2 { x: 10, y: 10 };

    one.spawn(&size, &always_free);

    while one.get_pos() == two.get_pos() {
        two.spawn(&size, &always_free);
    }

    assert_ne!(one.get_pos(), two.get_pos());
}

#[test]
fn apple_test_it_can_draw_itself() {
    let apple = Apple::new();
    let paint = apple.draw();
    assert_eq!(paint.len(), 1);
    assert_eq!(paint.first().unwrap().shape.len(), 1);
    assert_eq!(paint.first().unwrap().shape.first().unwrap().0, Direction::Up);
    assert_eq!(paint.first().unwrap().shape.first().unwrap().1, Symbol::Apple);
}

#[test]
fn spawn_stays_inside_the_ring() {
    let map = GameMap::new(6, 5);
    let size = Size { x: 6, y: 5 };
    let mut apple = Apple::new();
    for _ in 0..200 {
        apple.spawn(&size, &map);
        let p = *apple.get_pos();
        assert!(1 <= p.x && p.x <= 4, "x out of the interior: {:?}", p);
        assert!(1 <= p.y && p.y <= 3, "y out of the interior: {:?}", p);
    }
}

#[test]
fn spawn_never_lands_on_an_occupied_cell() {
    let snake = Snake::new();
    let size = Size { x: 9, y: 7 };
    let mut apple = Apple::new();
    for _ in 0..300 {
        apple.spawn(&size, &snake);
        assert!(snake.is_free_pos(apple.get_pos()));
    }
}

#[test]
fn spawn_finds_the_only_free_cell() {
    // a 5 by 4 grid has the interior cells x in 1..=3, y in 1..=2; the snake
    // covers all of them but (3, 2)
    let body = vec![
        Directed(Direction::Right, Pos { x: 1, y: 2 }),
        Directed(Direction::Up, Pos { x: 1, y: 1 }),
        Directed(Direction::Right, Pos { x: 2, y: 1 }),
        Directed(Direction::Right, Pos { x: 3, y: 1 }),
        Directed(Direction::Down, Pos { x: 2, y: 2 }),
    ];
    let snake = Snake::from_body(body, false);
    let size = Size { x: 5, y: 4 };
    for _ in 0..20 {
        let mut apple = Apple::new();
        apple.spawn(&size, &snake);
        assert_eq!(*apple.get_pos(), Pos { x: 3, y: 2 });
    }
}

#[test]
fn spawn_without_a_free_cell_leaves_the_apple() {
    let body = vec![
        Directed(Direction::Right, Pos { x: 1, y: 1 }),
        Directed(Direction::Right, Pos { x: 2, y: 1 }),
    ];
    let snake = Snake::from_body(body, false);
    let size = Size { x: 4, y: 3 };
    let mut apple = Apple::new();
    apple.spawn(&size, &snake);
    assert_eq!(*apple.get_pos(), Pos { x: 0, y: 0 });

    // a 2 by 2 grid has no interior at all
    let mut other = Apple::new();
    other.spawn(&Size { x: 2, y: 2 }, &GameMap::new(2, 2));
    assert_eq!(*other.get_pos(), Pos { x: 0, y: 0 });
}
