use pacman::game::{MainState, Phase};
use pacman::geometry::{Direction, Point};
use pacman::pursuer::Color;
use rand::rngs::StdRng;
use rand::{Rng, SeedableRng};

const MAP: [&str; 20] = [
    "WWWWWWWWWWWWWWWWWWWW",
    "Wo.......W........oW",
    "W.WW.WWW.W.WWW.WW.WW",
    "W..................W",
    "W.WW.W.WWWWW.W.WW.WW",
    "W....W...W...W....WW",
    "WWWW.WWW.W.WWW.WWWWW",
    "   W.W.......W.W   W",
    "WWWW.W.WW WW.W.WWWWW",
    "W....... GG ......W",
    "WWWW.W.WWWWW.W.WWWWW",
    "   W.W.......W.....W",
    "WWWW.W.WWWWW.W.WWWWW",
    "W........W........WW",
    "W.WW.WWW.W.WWW.WW.WW",
    "W..W.....P.....W..WW",
    "WW.W.W.WWWWW.W.W.WWW",
    "W....W...W...W....WW",
    "WoWWWWWW.W.WWWWWW.oW",
    "WWWWWWWWWWWWWWWWWWWW",
];

#[test]
fn full_map_loads() {
    let state = MainState::new(&MAP).unwrap();
    let maze = state.maze();
    assert_eq!(maze.width(), 20);
    assert_eq!(maze.height(), 20);
    assert_eq!(maze.pacman_spawn(), Point::new(9 * 120 + 10, 15 * 120 + 10));
    assert_eq!(
        maze.ghost_spawns(),
        &vec![Point::new(9 * 120 + 10, 9 * 120 + 10), Point::new(10 * 120 + 10, 9 * 120 + 10)]
    );
    assert_eq!(
        maze.power_pellets(),
        &vec![
            Point::new(180, 180),
            Point::new(18 * 120 + 60, 180),
            Point::new(180, 18 * 120 + 60),
            Point::new(18 * 120 + 60, 18 * 120 + 60)
        ]
    );
    let walls = MAP.iter().map(|row| row.matches('W').count()).sum::<usize>();
    let dots = MAP.iter().map(|row| row.matches('.').count()).sum::<usize>();
    assert_eq!(maze.walls().len(), walls);
    assert_eq!(maze.dots().len(), dots);
    assert_eq!(state.ghosts()[0].color, Color::Red);
    assert_eq!(state.ghosts()[1].color, Color::Cyan);
    for wall in maze.walls() {
        for dot in maze.dots().iter().chain(maze.power_pellets()) {
            assert!(
                !(wall.x <= dot.x
                    && dot.x <= wall.x + wall.w
                    && wall.y <= dot.y
                    && dot.y <= wall.y + wall.h)
            );
        }
    }
}

#[test]
fn long_games_keep_their_promises() {
    let asked = [Direction::Left, Direction::Up, Direction::Right, Direction::Down];
    let mut games_over = 0;
    let mut best_score = 0;
    for seed in 0..4 {
        let mut state = MainState::new(&MAP).unwrap();
        let mut rng = StdRng::seed_from_u64(seed);
        let mut keys = StdRng::seed_from_u64(1000 + seed);
        for _ in 0..20_000 {
            let requested = if keys.gen_ratio(1, 15) { Some(asked[keys.gen_range(0..4)]) } else { None };
            let before_dots = state.dots().len();
            let before_pellets = state.power_pellets().len();
            let before_score = state.score();
            let before_lives = state.lives();
            let before_direction = state.current_direction();
            let centred = state.is_at_grid_center();
            let rolls = state.update(16_667, requested, &mut rng);

            assert!(!state.maze().is_blocked(&state.pacman_position().hitbox(100)));
            for g in state.ghosts() {
                assert!(!state.maze().is_blocked(&g.position.hitbox(100)));
                assert!(state.power_pellet_active() || !g.is_vulnerable);
                assert!(g.confused_timer <= 3_000_000);
                assert_eq!(g.respawn_timer, 0);
            }
            assert_eq!(state.lives() == 0, state.phase() == Phase::GameOverMenu);
            assert!(state.dots().len() <= before_dots);
            assert!(state.power_pellets().len() <= before_pellets);
            assert!(state.score() >= before_score);
            assert!(state.lives() <= before_lives && before_lives <= state.lives() + 1);
            assert_eq!(state.power_pellet_active(), state.power_pellet_timer() > 0);
            assert!(state.power_pellet_timer() <= 5_000_000);
            if !centred {
                assert!(
                    state.current_direction() == before_direction
                        || state.current_direction().is_none()
                );
            }
            if state.phase() == Phase::GameOverMenu {
                assert!(rolls.is_empty());
            } else {
                assert_eq!(rolls.len(), 2);
            }
            let gained = state.score() - before_score;
            let eaten = (before_dots - state.dots().len()) as u32;
            assert!(gained >= 10 * eaten && (gained - 10 * eaten) % 200 == 0);
        }
        if state.phase() == Phase::GameOverMenu {
            games_over += 1;
        }
        best_score = best_score.max(state.score());
    }
    assert!(games_over > 0);
    assert!(best_score > 0);
}
