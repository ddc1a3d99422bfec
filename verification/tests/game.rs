use std::time::Duration;

use rustris::game::{Block, Game, Move, Shape, Tetromino};
use rustris::utils::{Direction, Point};

fn canonical_points(shape: Shape) -> Vec<Point> {
    match shape {
        Shape::I => vec![
            Point { x: 0, y: 0 },
            Point { x: 1, y: 0 },
            Point { x: 2, y: 0 },
            Point { x: 3, y: 0 },
        ],
        Shape::J => vec![
            Point { x: 0, y: 0 },
            Point { x: 0, y: 1 },
            Point { x: 1, y: 1 },
            Point { x: 2, y: 1 },
        ],
        Shape::L => vec![
            Point { x: 2, y: 0 },
            Point { x: 0, y: 1 },
            Point { x: 1, y: 1 },
            Point { x: 2, y: 1 },
        ],
        Shape::O => vec![
            Point { x: 0, y: 0 },
            Point { x: 1, y: 0 },
            Point { x: 0, y: 1 },
            Point { x: 1, y: 1 },
        ],
        Shape::S => vec![
            Point { x: 1, y: 0 },
            Point { x: 2, y: 0 },
            Point { x: 0, y: 1 },
            Point { x: 1, y: 1 },
        ],
        Shape::T => vec![
            Point { x: 1, y: 0 },
            Point { x: 0, y: 1 },
            Point { x: 1, y: 1 },
            Point { x: 2, y: 1 },
        ],
        Shape::Z => vec![
            Point { x: 0, y: 0 },
            Point { x: 1, y: 0 },
            Point { x: 1, y: 1 },
            Point { x: 2, y: 1 },
        ],
    }
}

#[test]
fn test_shape_from_str() {
    assert_eq!(Shape::from_str("I").unwrap(), Shape::I);
    assert_eq!(Shape::from_str("J").unwrap(), Shape::J);
    assert_eq!(Shape::from_str("L").unwrap(), Shape::L);
    assert_eq!(Shape::from_str("O").unwrap(), Shape::O);
    assert_eq!(Shape::from_str("S").unwrap(), Shape::S);
    assert_eq!(Shape::from_str("T").unwrap(), Shape::T);
    assert_eq!(Shape::from_str("Z").unwrap(), Shape::Z);
}

#[test]
fn test_shape_from_str_rejects_unknown() {
    assert!(Shape::from_str("X").is_err());
    assert!(Shape::from_str("").is_err());
    assert!(Shape::from_str("II").is_err());
}

#[test]
fn test_tetromino_random() {
    let tetromino = Tetromino::random();
    assert!(Shape::all().iter().any(|s| *s == tetromino.shape));
}

#[test]
fn test_tetromino_random_has_canonical_layout() {
    // Also exercises the random choice: a piece must carry exactly the
    // canonical cells of whatever shape came back, never anything else.
    for _ in 0..20 {
        let tetromino = Tetromino::random();
        assert_eq!(tetromino.points, canonical_points(tetromino.shape));
        assert_eq!(tetromino.leading_point, Point::new(0, 0));
    }
}

#[test]
fn test_from_shape_all_layouts() {
    for shape in Shape::all() {
        let tetromino = Tetromino::from_shape(shape);
        assert_eq!(tetromino.shape, shape);
        assert_eq!(tetromino.points, canonical_points(shape));
        assert_eq!(tetromino.leading_point, Point::new(0, 0));
    }
}

#[test]
fn test_tetromino_translate() {
    let mut tetromino = Tetromino {
        shape: Shape::I,
        points: vec![
            Point { x: 0, y: 0 },
            Point { x: 1, y: 0 },
            Point { x: 2, y: 0 },
            Point { x: 3, y: 0 },
        ],
        leading_point: Point { x: 0, y: 0 },
    };
    let move1 = Move::new(Duration::from_secs(1), 1, Direction::Down, false);
    let move2 = Move::new(Duration::from_secs(1), 1, Direction::Right, false);
    let move3 = Move::new(Duration::from_secs(1), 1, Direction::Left, false);
    tetromino.consume(&move1);
    assert_eq!(
        tetromino.points,
        vec![
            Point { x: 0, y: 1 },
            Point { x: 1, y: 1 },
            Point { x: 2, y: 1 },
            Point { x: 3, y: 1 },
        ]
    );
    tetromino.consume(&move2);
    assert_eq!(
        tetromino.points,
        vec![
            Point { x: 1, y: 1 },
            Point { x: 2, y: 1 },
            Point { x: 3, y: 1 },
            Point { x: 4, y: 1 },
        ]
    );
    tetromino.consume(&move3);
    assert_eq!(
        tetromino.points,
        vec![
            Point { x: 0, y: 1 },
            Point { x: 1, y: 1 },
            Point { x: 2, y: 1 },
            Point { x: 3, y: 1 },
        ]
    );
}

#[test]
fn test_tetromino_rotate() {
    let mut tetromino = Tetromino {
        shape: Shape::I,
        points: vec![
            Point { x: 0, y: 0 },
            Point { x: 1, y: 0 },
            Point { x: 2, y: 0 },
            Point { x: 3, y: 0 },
        ],
        leading_point: Point { x: 0, y: 0 },
    };
}

#[test]
fn test_rotate_quarter_turn() {
    let mut tetromino = Tetromino::from_shape(Shape::I);
    tetromino.rotate();
    assert_eq!(
        tetromino.points,
        vec![
            Point { x: 0, y: 0 },
            Point { x: 0, y: 1 },
            Point { x: 0, y: 2 },
            Point { x: 0, y: 3 },
        ]
    );
}

#[test]
fn test_rotate_four_times_is_identity() {
    for shape in Shape::all() {
        let mut tetromino = Tetromino::from_shape(shape);
        tetromino.translate(Direction::Right);
        tetromino.translate(Direction::Down);
        let before = tetromino.points.clone();
        tetromino.rotate();
        tetromino.rotate();
        tetromino.rotate();
        tetromino.rotate();
        assert_eq!(tetromino.points, before);
    }
}

#[test]
fn test_translate_then_opposite_is_identity() {
    let pairs = [
        (Direction::Left, Direction::Right),
        (Direction::Right, Direction::Left),
        (Direction::Up, Direction::Down),
        (Direction::Down, Direction::Up),
    ];
    for (there, back) in pairs {
        let mut tetromino = Tetromino::from_shape(Shape::T);
        let before = tetromino.points.clone();
        let lead_before = tetromino.leading_point;
        tetromino.translate(there);
        tetromino.translate(back);
        assert_eq!(tetromino.points, before);
        assert_eq!(tetromino.leading_point, lead_before);
    }
}

#[test]
fn test_consume_equals_unit_translates() {
    let mut by_consume = Tetromino::from_shape(Shape::S);
    let mut by_steps = Tetromino::from_shape(Shape::S);
    let mv = Move::new(Duration::from_millis(16), 3, Direction::Down, true);
    by_consume.consume(&mv);
    by_steps.translate(Direction::Down);
    by_steps.translate(Direction::Down);
    by_steps.translate(Direction::Down);
    assert_eq!(by_consume.points, by_steps.points);
    assert_eq!(by_consume.leading_point, by_steps.leading_point);
}

#[test]
fn test_direction_value() {
    assert_eq!(Direction::Left.value(), (-1, 0));
    assert_eq!(Direction::Right.value(), (1, 0));
    assert_eq!(Direction::Up.value(), (0, -1));
    assert_eq!(Direction::Down.value(), (0, 1));
}

#[test]
fn test_direction_default_is_left() {
    assert_eq!(Direction::default(), Direction::Left);
}

#[test]
fn test_rand_dir_is_some_direction() {
    for _ in 0..20 {
        let d = Direction::rand_dir();
        assert!(matches!(
            d,
            Direction::Left | Direction::Right | Direction::Up | Direction::Down
        ));
    }
}

#[test]
fn test_point_operations() {
    let p = Point::new(3, -4);
    assert!(p.equals(&Point { x: 3, y: -4 }));
    assert!(!p.equals(&Point { x: 3, y: 4 }));
    assert_eq!(p.add(Point::new(1, 2)), Point { x: 4, y: -2 });
    assert_eq!(Point::from_pair((7, 8)), Point { x: 7, y: 8 });
    assert_eq!(Point::new(7, 8).to_pair(), (7, 8));
    assert_eq!(Point::default(), Point { x: 0, y: 0 });
}

fn empty_game(height: i32, width: i32) -> Game {
    Game::new(
        height,
        width,
        Tetromino::from_shape(Shape::O),
        Tetromino::from_shape(Shape::I),
    )
}

#[test]
fn test_boundary_collision_edges() {
    let game = empty_game(20, 10);
    // x = -1 collides
    let mut t = Tetromino::from_shape(Shape::O);
    t.translate(Direction::Left);
    assert!(game.is_boundary_collision(&t));
    // x = width collides
    let mut t = Tetromino::from_shape(Shape::O);
    for _ in 0..9 {
        t.translate(Direction::Right);
    }
    assert!(game.is_boundary_collision(&t));
    // y = height collides
    let mut t = Tetromino::from_shape(Shape::O);
    for _ in 0..19 {
        t.translate(Direction::Down);
    }
    assert!(game.is_boundary_collision(&t));
    // y = -1 with x in range does not collide
    let mut t = Tetromino::from_shape(Shape::O);
    t.translate(Direction::Up);
    assert!(!game.is_boundary_collision(&t));
}

#[test]
fn test_block_collision() {
    let mut game = empty_game(20, 10);
    let t = Tetromino::from_shape(Shape::O);
    // over empty cells: never a block collision
    assert!(!game.is_block_collision(&t));
    // over a cell previously marked occupied: always a block collision
    game.cells[1][0] = Block::filled(Shape::Z);
    assert!(game.is_block_collision(&t));
    // a point above the field is exempt
    let mut above = Tetromino::from_shape(Shape::O);
    above.translate(Direction::Up);
    above.translate(Direction::Up);
    assert!(!game.is_block_collision(&above));
}

#[test]
fn test_handle_move_commits_and_consumes_one_shot() {
    let mut game = empty_game(20, 10);
    game.push_move(Move::new(Duration::from_millis(16), 1, Direction::Down, true));
    game.handle_move();
    // the O piece moved one row down from its canonical layout
    for (x, y) in [(0usize, 1usize), (1, 1), (0, 2), (1, 2)] {
        assert!(!game.cells[y][x].is_empty());
        assert_eq!(game.cells[y][x].shape(), Some(Shape::O));
    }
    // everything else is untouched
    let mut occupied = 0;
    for row in &game.cells {
        for cell in row {
            if !cell.is_empty() {
                occupied += 1;
            }
        }
    }
    assert_eq!(occupied, 4);
    // the one-shot move left the queue
    assert_eq!(game.move_count(), 0);
}

#[test]
fn test_handle_move_collision_leaves_grid_unchanged() {
    let mut game = empty_game(20, 10);
    // a piece already occupies cell (0, 1)
    game.cells[1][0] = Block::filled(Shape::J);
    let before = game.cells.clone();
    // the living O piece moved down 1 covers (0, 1): refused
    game.push_move(Move::new(Duration::from_millis(16), 1, Direction::Down, false));
    game.handle_move();
    assert_eq!(game.cells, before);
    // the persistent move remains in the queue
    assert_eq!(game.move_count(), 1);
}

#[test]
fn test_handle_move_boundary_refused() {
    let mut game = empty_game(20, 10);
    // moving 12 columns right would leave the 10-wide field
    game.push_move(Move::new(Duration::from_millis(16), 12, Direction::Right, true));
    let before = game.cells.clone();
    game.handle_move();
    assert_eq!(game.cells, before);
    // the refused move stays queued, even a one-shot one
    assert_eq!(game.move_count(), 1);
}

#[test]
fn test_handle_move_empty_queue_is_noop() {
    let mut game = empty_game(20, 10);
    let before = game.cells.clone();
    game.handle_move();
    assert_eq!(game.cells, before);
    assert_eq!(game.move_count(), 0);
}

#[test]
fn test_move_accessors() {
    let m = Move::new(Duration::from_secs(2), 5, Direction::Up, true);
    assert_eq!(m.direction(), Direction::Up);
    assert_eq!(m.distance(), 5);
    assert!(m.is_once());
}
