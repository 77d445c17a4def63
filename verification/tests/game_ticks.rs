use pacman::game::{MainState, Phase};
use pacman::geometry::{Direction, Point};
use pacman::maze::MazeError;
use pacman::pursuer::{Color, Roll, TargetChoice};
use rand::rngs::StdRng;
use rand::SeedableRng;

const DT: u64 = 16_000;

fn corridor() -> MainState {
    MainState::new(&["WWWWW", "WP.GW", "WWWWW"]).unwrap()
}

/// Sends a pursuer left: after the player when it may chase, by its pick when confused.
fn leftwards() -> Vec<Roll> {
    vec![Roll { target: TargetChoice::Chase, pick: 2 }]
}

/// A dead end to the right of the player, and one pursuer shut in far below.
fn dead_end() -> MainState {
    MainState::new(&["WWWW", "WP.W", "WWWW", "WGWW", "WWWW"]).unwrap()
}

fn centre(corner: Point) -> Point {
    Point::new(corner.x + 50, corner.y + 50)
}

#[test]
fn new_without_player_start_is_refused() {
    assert_eq!(MainState::new(&["WWW", "W.W", "WWW"]).err(), Some(MazeError::NoPlayerSpawn));
    let none: [&str; 0] = [];
    assert_eq!(MainState::new(&none).err(), Some(MazeError::EmptyGrid));
}

#[test]
fn new_game_starts_from_the_maze() {
    let state = MainState::new(&["GGGG", "P.o.", "..WG"]).unwrap();
    assert_eq!(state.pacman_position(), Point::new(10, 130));
    assert_eq!(state.current_direction(), None);
    assert_eq!(state.requested_direction(), None);
    assert_eq!(state.score(), 0);
    assert_eq!(state.lives(), 3);
    assert_eq!(state.phase(), Phase::Playing);
    assert!(!state.power_pellet_active());
    assert_eq!(state.power_pellet_timer(), 0);
    assert_eq!(state.dots(), state.maze().dots());
    assert_eq!(state.dots().len(), 4);
    assert_eq!(state.power_pellets(), &vec![Point::new(300, 180)]);
    let colors: Vec<Color> = state.ghosts().iter().map(|g| g.color).collect();
    assert_eq!(
        colors,
        vec![Color::Red, Color::Cyan, Color::Magenta, Color::Red, Color::Cyan]
    );
    let starts: Vec<Point> = state.ghosts().iter().map(|g| g.position).collect();
    assert_eq!(&starts, state.maze().ghost_spawns());
    for g in state.ghosts() {
        assert_eq!(g.spawn_position, g.position);
        assert_eq!(g.target, g.position);
        assert_eq!(g.direction, Direction::Left);
        assert!(!g.is_vulnerable);
        assert_eq!(g.confused_timer, 0);
        assert_eq!(g.respawn_timer, 0);
    }
}

#[test]
fn turn_at_center_then_one_step() {
    let mut state = dead_end();
    assert!(state.is_at_grid_center());
    assert!(!state.can_move(Direction::Up));
    assert!(state.can_move(Direction::Right));
    state.update_with(DT, Some(Direction::Up), &vec![]);
    assert_eq!(state.current_direction(), None);
    assert_eq!(state.requested_direction(), Some(Direction::Up));
    assert_eq!(state.pacman_position(), Point::new(130, 130));
    state.update_with(DT, Some(Direction::Right), &vec![]);
    assert_eq!(state.current_direction(), Some(Direction::Right));
    assert_eq!(state.pacman_position(), Point::new(134, 130));
}

#[test]
fn request_is_remembered_until_the_next_center() {
    let mut state = MainState::new(&["WWWWW", "WP..W", "WW.WW", "WWWWW", "WGWWW", "WWWWW"]).unwrap();
    state.update_with(DT, Some(Direction::Right), &vec![]);
    state.update_with(DT, Some(Direction::Down), &vec![]);
    assert_eq!(state.requested_direction(), Some(Direction::Down));
    for k in 2..30 {
        assert!(!state.is_at_grid_center());
        state.update_with(DT, None, &vec![]);
        assert_eq!(state.current_direction(), Some(Direction::Right));
        assert_eq!(state.pacman_position(), Point::new(130 + 4 * (k + 1), 130));
    }
    assert_eq!(state.pacman_position(), Point::new(250, 130));
    assert!(state.is_at_grid_center());
    state.update_with(DT, None, &vec![]);
    assert_eq!(state.current_direction(), Some(Direction::Down));
    assert_eq!(state.pacman_position(), Point::new(250, 134));
}

#[test]
fn blocked_player_snaps_and_stops() {
    let mut state = dead_end();
    state.update_with(DT, Some(Direction::Right), &vec![]);
    for _ in 1..30 {
        state.update_with(DT, None, &vec![]);
    }
    assert_eq!(state.pacman_position(), Point::new(250, 130));
    state.update_with(DT, None, &vec![]);
    state.update_with(DT, None, &vec![]);
    assert_eq!(state.pacman_position(), Point::new(258, 130));
    assert_eq!(state.current_direction(), Some(Direction::Right));
    state.update_with(DT, None, &vec![]);
    assert_eq!(state.pacman_position(), Point::new(250, 130));
    assert_eq!(state.current_direction(), None);
    assert_eq!(state.requested_direction(), Some(Direction::Right));
    state.update_with(DT, None, &vec![]);
    assert_eq!(state.pacman_position(), Point::new(250, 130));
    assert_eq!(state.current_direction(), None);
}

#[test]
fn snap_to_grid_moves_the_player_to_the_center() {
    let mut state = dead_end();
    for _ in 0..20 {
        state.update_with(DT, Some(Direction::Right), &vec![]);
    }
    assert_eq!(state.pacman_position(), Point::new(210, 130));
    state.snap_to_grid();
    assert_eq!(state.pacman_position(), Point::new(250, 130));
    assert_eq!(state.current_direction(), Some(Direction::Right));
}

#[test]
fn dot_is_eaten_once() {
    let mut state = corridor();
    for _ in 0..14 {
        state.update_with(DT, Some(Direction::Right), &vec![]);
    }
    assert_eq!(state.pacman_position(), Point::new(186, 130));
    assert_eq!(state.dots(), &vec![Point::new(300, 180)]);
    assert_eq!(state.score(), 0);
    state.update_with(DT, None, &vec![]);
    assert_eq!(state.pacman_position(), Point::new(190, 130));
    assert!(state.dots().is_empty());
    assert_eq!(state.score(), 10);
    state.update_with(DT, None, &vec![]);
    assert!(state.dots().is_empty());
    assert_eq!(state.score(), 10);
}

#[test]
fn second_tick_in_place_pays_nothing() {
    let mut state = MainState::new(&["P.", ".."]).unwrap();
    assert_eq!(state.dots().len(), 3);
    state.update_with(DT, None, &vec![]);
    assert_eq!(state.dots().len(), 3);
    let mut state = MainState::new(&["WWWWW", "W.P.W", "WWWWW"]).unwrap();
    state.update_with(DT, Some(Direction::Up), &vec![]);
    let dots = state.dots().clone();
    let score = state.score();
    let at = state.pacman_position();
    state.update_with(DT, None, &vec![]);
    assert_eq!(state.pacman_position(), at);
    assert_eq!(state.dots(), &dots);
    assert_eq!(state.score(), score);
}

#[test]
fn power_pellet_makes_all_vulnerable_for_its_time() {
    let mut state = MainState::new(&["WWWWWWW", "WPo.GGW", "WWWWWWW"]).unwrap();
    for _ in 0..11 {
        state.update_with(DT, Some(Direction::Right), &vec![]);
    }
    assert_eq!(state.pacman_position(), Point::new(174, 130));
    assert!(!state.power_pellet_active());
    assert_eq!(state.power_pellets().len(), 1);
    assert!(state.ghosts().iter().all(|g| !g.is_vulnerable));
    state.update_with(DT, None, &vec![]);
    assert!(state.power_pellet_active());
    assert_eq!(state.power_pellet_timer(), 5_000_000);
    assert!(state.power_pellets().is_empty());
    assert_eq!(state.ghosts().len(), 2);
    assert!(state.ghosts().iter().all(|g| g.is_vulnerable));
    assert_eq!(state.score(), 0);
    for left in [4_000_000, 3_000_000, 2_000_000, 1_000_000] {
        state.update_with(1_000_000, None, &vec![]);
        assert!(state.power_pellet_active());
        assert_eq!(state.power_pellet_timer(), left);
        assert!(state.ghosts().iter().all(|g| g.is_vulnerable));
    }
    state.update_with(1_000_000, None, &vec![]);
    assert!(!state.power_pellet_active());
    assert_eq!(state.power_pellet_timer(), 0);
    assert!(state.ghosts().iter().all(|g| !g.is_vulnerable));
}

#[test]
fn power_pellet_time_stops_at_zero() {
    let mut state = MainState::new(&["WWWWWWW", "WPo.GGW", "WWWWWWW"]).unwrap();
    for _ in 0..12 {
        state.update_with(DT, Some(Direction::Right), &vec![]);
    }
    assert!(state.power_pellet_active());
    state.update_with(u64::MAX, None, &vec![]);
    assert!(!state.power_pellet_active());
    assert_eq!(state.power_pellet_timer(), 0);
    assert!(state.ghosts().iter().all(|g| !g.is_vulnerable));
}

#[test]
fn vulnerable_pursuer_is_captured() {
    let mut state = MainState::new(&["WWWWWW", "WPoG.W", "WWWWWW"]).unwrap();
    for _ in 0..12 {
        state.update_with(DT, Some(Direction::Right), &leftwards());
    }
    assert!(state.power_pellet_active());
    let mut ticks = 12;
    loop {
        let pursuer = state.ghosts()[0];
        assert!(pursuer.is_vulnerable);
        assert_eq!(pursuer.confused_timer, 0);
        if centre(state.pacman_position()).within(&centre(pursuer.position), 100) {
            break;
        }
        state.update_with(DT, None, &leftwards());
        ticks += 1;
        assert!(ticks < 100);
    }
    let before = state.ghosts()[0];
    assert_ne!(before.position, before.spawn_position);
    let score = state.score();
    state.check_ghost_collision();
    let after = state.ghosts()[0];
    assert_eq!(after.position, Point::new(370, 130));
    assert_eq!(after.position, after.spawn_position);
    assert!(!after.is_vulnerable);
    assert_eq!(after.confused_timer, 3_000_000);
    assert_eq!(after.direction, Direction::Left);
    assert_eq!(state.score(), score + 200);
    assert_eq!(state.lives(), 3);
    assert_eq!(state.phase(), Phase::Playing);
    assert!(state.power_pellet_active());
}

#[test]
fn capture_happens_inside_a_tick_too() {
    let mut state = MainState::new(&["WWWWWW", "WPoG.W", "WWWWWW"]).unwrap();
    let mut captured_at = None;
    for tick in 1..100 {
        let score = state.score();
        state.update_with(DT, Some(Direction::Right), &leftwards());
        if state.score() == score + 200 {
            captured_at = Some(tick);
            break;
        }
    }
    assert_eq!(captured_at, Some(27));
    let pursuer = state.ghosts()[0];
    assert_eq!(pursuer.position, Point::new(368, 130));
    assert_eq!(pursuer.confused_timer, 3_000_000);
    assert!(!pursuer.is_vulnerable);
    assert_eq!(state.lives(), 3);
}

#[test]
fn collision_costs_a_life_and_resets_everyone() {
    let mut state = corridor();
    for _ in 0..24 {
        state.update_with(DT, Some(Direction::Right), &leftwards());
    }
    assert_eq!(state.pacman_position(), Point::new(226, 130));
    assert_eq!(state.ghosts()[0].position, Point::new(322, 130));
    assert_eq!(state.lives(), 3);
    assert_eq!(state.score(), 10);
    state.check_ghost_collision();
    assert_eq!(state.lives(), 2);
    assert_eq!(state.phase(), Phase::Playing);
    assert_eq!(state.pacman_position(), Point::new(130, 130));
    assert_eq!(state.current_direction(), None);
    assert_eq!(state.requested_direction(), None);
    let pursuer = state.ghosts()[0];
    assert_eq!(pursuer.position, Point::new(370, 130));
    assert_eq!(pursuer.confused_timer, 3_000_000);
    assert_eq!(pursuer.direction, Direction::Left);
    assert_eq!(state.score(), 10);
    state.check_ghost_collision();
    assert_eq!(state.lives(), 2);
}

#[test]
fn collision_resets_every_pursuer() {
    let mut state = MainState::new(&["WWWWWW", "WP.G.W", "W....W", "WG...W", "WWWWWW"]).unwrap();
    let rolls = vec![
        Roll { target: TargetChoice::Chase, pick: 2 },
        Roll { target: TargetChoice::Wander(Point::new(719, 599)), pick: 0 },
    ];
    for _ in 0..24 {
        state.update_with(DT, Some(Direction::Right), &rolls);
    }
    assert_eq!(state.lives(), 3);
    assert_ne!(state.ghosts()[1].position, Point::new(130, 370));
    state.update_with(DT, None, &vec![]);
    assert_eq!(state.lives(), 2);
    for g in state.ghosts() {
        assert_eq!(g.confused_timer, 3_000_000);
        assert!(Point::new(g.position.x, g.position.y + 2) == g.spawn_position);
    }
}

#[test]
fn last_life_ends_the_game_and_freezes_the_tick() {
    let mut state = corridor();
    let mut lost_at = Vec::new();
    for tick in 1..=74 {
        let lives = state.lives();
        state.update_with(DT, Some(Direction::Right), &leftwards());
        if state.lives() < lives {
            lost_at.push(tick);
        }
    }
    assert_eq!(lost_at, vec![25, 50]);
    assert_eq!(state.lives(), 1);
    assert_eq!(state.phase(), Phase::Playing);
    let pacman = state.pacman_position();
    let pursuer = state.ghosts()[0];
    assert_eq!(pacman, Point::new(226, 130));
    assert_eq!(pursuer.position, Point::new(320, 130));
    state.update_with(DT, Some(Direction::Right), &leftwards());
    assert_eq!(state.lives(), 0);
    assert_eq!(state.phase(), Phase::GameOverMenu);
    assert_eq!(state.pacman_position(), pacman);
    assert_eq!(state.ghosts()[0].position, pursuer.position);
    assert_eq!(state.ghosts()[0].confused_timer, pursuer.confused_timer - DT);
    assert_eq!(state.ghosts()[0].confused_timer, 2_600_000);
    assert_eq!(state.score(), 10);
}

#[test]
fn nothing_moves_once_the_game_is_over() {
    let mut state = corridor();
    for _ in 0..75 {
        state.update_with(DT, Some(Direction::Right), &leftwards());
    }
    assert_eq!(state.phase(), Phase::GameOverMenu);
    let pacman = state.pacman_position();
    let pursuer = state.ghosts()[0];
    let requested = state.requested_direction();
    let mut rng = StdRng::seed_from_u64(3);
    for _ in 0..10 {
        let rolls = state.update(DT, Some(Direction::Left), &mut rng);
        assert!(rolls.is_empty());
        state.check_ghost_collision();
    }
    assert_eq!(state.phase(), Phase::GameOverMenu);
    assert_eq!(state.lives(), 0);
    assert_eq!(state.pacman_position(), pacman);
    assert_eq!(state.ghosts()[0].position, pursuer.position);
    assert_eq!(state.ghosts()[0].confused_timer, pursuer.confused_timer - 10 * DT);
    assert_eq!(state.requested_direction(), requested);
    assert_eq!(state.current_direction(), Some(Direction::Right));
}

#[test]
fn reset_game_starts_over() {
    let mut state = MainState::new(&["WWWWWW", "WPo.GW", "WWWWWW"]).unwrap();
    let fresh = MainState::new(&["WWWWWW", "WPo.GW", "WWWWWW"]).unwrap();
    for _ in 0..200 {
        state.update_with(DT, Some(Direction::Right), &leftwards());
    }
    assert_eq!(state.phase(), Phase::GameOverMenu);
    assert!(state.score() > 0);
    assert!(state.power_pellets().is_empty());
    state.reset_game();
    assert_eq!(state.phase(), Phase::Playing);
    assert_eq!(state.lives(), 3);
    assert_eq!(state.score(), 0);
    assert_eq!(state.pacman_position(), fresh.pacman_position());
    assert_eq!(state.current_direction(), None);
    assert_eq!(state.requested_direction(), None);
    assert_eq!(state.ghosts(), fresh.ghosts());
    assert_eq!(state.dots(), fresh.dots());
    assert_eq!(state.power_pellets(), fresh.power_pellets());
    assert!(!state.power_pellet_active());
    assert_eq!(state.power_pellet_timer(), 0);
}

#[test]
fn reset_pacman_position_goes_back_to_the_start() {
    let mut state = corridor();
    for _ in 0..5 {
        state.update_with(DT, Some(Direction::Right), &vec![]);
    }
    let pursuer = state.ghosts()[0];
    state.reset_pacman_position();
    assert_eq!(state.pacman_position(), Point::new(130, 130));
    assert_eq!(state.current_direction(), None);
    assert_eq!(state.requested_direction(), None);
    assert_eq!(state.ghosts()[0], pursuer);
    assert_eq!(state.lives(), 3);
}

#[test]
fn timers_follow_the_time_and_moves_do_not() {
    let mut state = corridor();
    state.update_with(0, Some(Direction::Right), &leftwards());
    assert_eq!(state.pacman_position(), Point::new(134, 130));
    assert_eq!(state.ghosts()[0].position, Point::new(368, 130));
    state.update_with(1_000_000_000, None, &leftwards());
    assert_eq!(state.pacman_position(), Point::new(138, 130));
    assert_eq!(state.ghosts()[0].position, Point::new(366, 130));
}

#[test]
fn missing_rolls_keep_the_target() {
    let mut one = MainState::new(&["WWWWWW", "WP.GGW", "WWWWWW"]).unwrap();
    let mut other = MainState::new(&["WWWWWW", "WP.GGW", "WWWWWW"]).unwrap();
    let keep = Roll { target: TargetChoice::Keep, pick: 0 };
    for _ in 0..10 {
        one.update_with(DT, Some(Direction::Right), &leftwards());
        other.update_with(DT, Some(Direction::Right), &vec![leftwards()[0], keep, keep]);
    }
    assert_eq!(one.ghosts(), other.ghosts());
    assert_eq!(one.ghosts()[1].target, Point::new(490, 130));
    assert_eq!(one.ghosts()[0].target, Point::new(170, 130));
}

#[test]
fn update_can_be_repeated_from_its_rolls() {
    let grid = [
        "WWWWWWWWW", "W...o...W", "W.WW.WW.W", "W..G.G..W", "W.WW.WW.W", "W...P...W", "WWWWWWWWW",
    ];
    let mut live = MainState::new(&grid).unwrap();
    let mut twin = MainState::new(&grid).unwrap();
    let mut rng = StdRng::seed_from_u64(2024);
    let asked = [Direction::Left, Direction::Up, Direction::Right, Direction::Down];
    let mut retargeted = false;
    for tick in 0..6000 {
        let requested = if tick % 37 == 0 { Some(asked[(tick / 37) % 4]) } else { None };
        let rolls = live.update(DT, requested, &mut rng);
        if live.phase() == Phase::Playing {
            assert_eq!(rolls.len(), 2);
        }
        retargeted = retargeted || rolls.iter().any(|r| r.target != TargetChoice::Keep);
        twin.update_with(DT, requested, &rolls);
        assert_eq!(live.pacman_position(), twin.pacman_position());
        assert_eq!(live.ghosts(), twin.ghosts());
        assert_eq!(live.dots(), twin.dots());
        assert_eq!(live.power_pellets(), twin.power_pellets());
        assert_eq!(live.score(), twin.score());
        assert_eq!(live.lives(), twin.lives());
        assert_eq!(live.phase(), twin.phase());
        assert_eq!(live.current_direction(), twin.current_direction());
        assert_eq!(live.power_pellet_timer(), twin.power_pellet_timer());
        assert!(!live.maze().is_blocked(&live.pacman_position().hitbox(100)));
        for g in live.ghosts() {
            assert!(!live.maze().is_blocked(&g.position.hitbox(100)));
            assert!(live.power_pellet_active() || !g.is_vulnerable);
        }
        assert_eq!(live.lives() == 0, live.phase() == Phase::GameOverMenu);
    }
    assert!(retargeted);
}

#[test]
fn pursuers_placed_in_a_wall_stay_there() {
    let mut state = MainState::new(&["WWW", "WWW", "WWP"]).unwrap();
    assert_eq!(state.ghosts().len(), 3);
    let mut rng = StdRng::seed_from_u64(1);
    for _ in 0..50 {
        state.update(DT, None, &mut rng);
    }
    for g in state.ghosts() {
        assert_eq!(g.position, Point::new(130, 130));
        assert!(state.maze().is_blocked(&g.position.hitbox(100)));
    }
}
