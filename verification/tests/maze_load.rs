use pacman::geometry::{Direction, Point, Rect};
use pacman::maze::{Maze, MazeError};

#[test]
fn load_without_player_start_is_refused() {
    let r = Maze::load(&["WWW", "W.W", "WWW"]);
    assert_eq!(r.err(), Some(MazeError::NoPlayerSpawn));
}

#[test]
fn load_of_empty_grid_is_refused() {
    let rows: [&str; 0] = [];
    assert_eq!(Maze::load(&rows).err(), Some(MazeError::EmptyGrid));
}

#[test]
fn load_of_too_long_a_row_is_refused() {
    let long = "P".repeat(1_000_001);
    assert_eq!(Maze::load(&["P", long.as_str()]).err(), Some(MazeError::TooLarge));
    let fits = " ".repeat(999_999) + "P";
    assert_eq!(Maze::load(&[fits.as_str()]).unwrap().width(), 1_000_000);
}

#[test]
fn load_of_too_many_rows_is_refused() {
    let mut rows: Vec<&str> = vec!["P"];
    rows.resize(1_000_001, "");
    assert_eq!(Maze::load(&rows).err(), Some(MazeError::TooLarge));
    rows.pop();
    assert_eq!(Maze::load(&rows).unwrap().height(), 1_000_000);
}

#[test]
fn load_reads_cells_in_reading_order() {
    let maze = Maze::load(&["WW.", "oPG"]).unwrap();
    assert_eq!(maze.walls(), &vec![Rect::new(0, 0, 120, 120), Rect::new(120, 0, 120, 120)]);
    assert_eq!(maze.dots(), &vec![Point::new(300, 60)]);
    assert_eq!(maze.power_pellets(), &vec![Point::new(60, 180)]);
    assert_eq!(maze.pacman_spawn(), Point::new(130, 130));
    assert_eq!(maze.ghost_spawns(), &vec![Point::new(250, 130)]);
    assert_eq!(maze.width(), 3);
    assert_eq!(maze.height(), 2);
}

#[test]
fn load_takes_short_rows_and_other_characters_as_floor() {
    let maze = Maze::load(&["W", "", "x?  W", "P"]).unwrap();
    assert_eq!(maze.walls(), &vec![Rect::new(0, 0, 120, 120), Rect::new(480, 240, 120, 120)]);
    assert!(maze.dots().is_empty());
    assert_eq!(maze.width(), 5);
    assert_eq!(maze.height(), 4);
    assert!(!maze.is_blocked(&Rect::new(130, 10, 100, 100)));
}

#[test]
fn load_takes_the_last_player_start() {
    let maze = Maze::load(&["P.P", "..P", "G.."]).unwrap();
    assert_eq!(maze.pacman_spawn(), Point::new(250, 130));
}

#[test]
fn load_counts_characters_not_bytes() {
    let maze = Maze::load(&["éP"]).unwrap();
    assert_eq!(maze.pacman_spawn(), Point::new(130, 10));
    assert_eq!(maze.width(), 2);
}

#[test]
fn load_places_one_pursuer_for_each_mark() {
    let maze = Maze::load(&["G.G", ".P.", "..G"]).unwrap();
    assert_eq!(
        maze.ghost_spawns(),
        &vec![Point::new(10, 10), Point::new(250, 10), Point::new(250, 250)]
    );
}

#[test]
fn load_places_three_pursuers_in_the_middle_without_marks() {
    let maze = Maze::load(&["WWWWW", "W...W", "W.P.W", "WWWWW"]).unwrap();
    assert_eq!(maze.ghost_spawns(), &vec![Point::new(250, 250); 3]);
    let maze = Maze::load(&["P"]).unwrap();
    assert_eq!(maze.ghost_spawns(), &vec![Point::new(10, 10); 3]);
}

#[test]
fn is_blocked_holds_where_a_wall_is_touched() {
    let maze = Maze::load(&["WWW", "WPW", "WWW"]).unwrap();
    assert!(!maze.is_blocked(&Rect::new(130, 130, 100, 100)));
    assert!(!maze.is_blocked(&Rect::new(121, 121, 118, 118)));
    assert!(maze.is_blocked(&Rect::new(120, 130, 100, 100)));
    assert!(maze.is_blocked(&Rect::new(130, 140, 100, 100)));
    assert!(maze.is_blocked(&Rect::new(0, 0, 1, 1)));
    assert!(!maze.is_blocked(&Rect::new(361, 0, 100, 100)));
    assert!(!maze.is_blocked(&Rect::new(-101, -101, 100, 100)));
}

#[test]
fn try_move_gives_the_candidate_only_if_it_is_free() {
    let maze = Maze::load(&["WWWW", "WP.W", "WWWW"]).unwrap();
    let at_spawn = Rect::new(130, 130, 100, 100);
    assert_eq!(
        maze.try_move(&at_spawn, Direction::Right, 4),
        Some(Rect::new(134, 130, 100, 100))
    );
    assert_eq!(maze.try_move(&at_spawn, Direction::Up, 9), Some(Rect::new(130, 121, 100, 100)));
    assert_eq!(maze.try_move(&at_spawn, Direction::Up, 10), None);
    assert_eq!(maze.try_move(&at_spawn, Direction::Left, 10), None);
    assert_eq!(maze.try_move(&at_spawn, Direction::Down, 120), None);
    assert_eq!(
        maze.try_move(&at_spawn, Direction::Right, 120),
        Some(Rect::new(250, 130, 100, 100))
    );
    assert_eq!(maze.try_move(&at_spawn, Direction::Right, 130), None);
    assert_eq!(maze.try_move(&at_spawn, Direction::Right, i64::MAX), None);
}
