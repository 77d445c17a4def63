//! The game: what a state is and how one tick changes it.

use crate::geometry::{
    Direction, Point, Pos, CELL_SIZE, DOT_SIZE, GHOST_SIZE, MOVEMENT_SPEED, PACMAN_SIZE,
    POWER_PELLET_SIZE,
};
use crate::laws::{
    lemma_collided_wf, lemma_dots_eaten_wf, lemma_ghosts_advanced_wf, lemma_pacman_advanced_wf,
    lemma_power_pellets_eaten_wf, lemma_power_ticked_wf, lemma_snapped_clear, lemma_start_wf,
    lemma_timers_ticked_wf, lemma_update_wf,
};
use crate::maze::{grid_rows, load_error, maze_of, point_views, Maze, MazeError, MazeView};
use crate::pursuer::{pursuer_views, run_down, Color, Pursuer, PursuerView, Roll, TargetChoice};
use rand::rngs::StdRng;
use vstd::prelude::*;

verus! {

/// Lives at the start of a game.
pub const STARTING_LIVES: u32 = 3;

/// Points for a dot.
pub const DOT_POINTS: u32 = 10;

/// Points for capturing a vulnerable pursuer.
pub const GHOST_POINTS: u32 = 200;

/// How long pursuers stay vulnerable after a power pellet, in microseconds.
pub const POWER_PELLET_DURATION: u64 = 5_000_000;

/// The player and a pursuer collide when their centres are closer than this:
/// half the side of each hitbox.
pub const GHOST_REACH: i64 = 100;

/// The player eats a dot whose middle is closer to its centre than this: half
/// the side of its hitbox and half the dot's diameter.
pub const DOT_REACH: i64 = 62;

/// The player eats a power pellet whose middle is closer to its centre than
/// this: half the side of its hitbox and half the pellet's diameter.
pub const POWER_PELLET_REACH: i64 = 80;

/// Each reach is half the player's hitbox and half of what it reaches for.
pub proof fn lemma_reaches_agree()
    ensures
        2 * GHOST_REACH == PACMAN_SIZE + GHOST_SIZE,
        2 * DOT_REACH == PACMAN_SIZE + DOT_SIZE,
        2 * POWER_PELLET_REACH == PACMAN_SIZE + POWER_PELLET_SIZE,
{
}

/// Whether a game is on or over.
#[derive(Clone, Copy, PartialEq, Eq, Debug, Structural)]
pub enum Phase {
    Playing,
    GameOverMenu,
}

/// The state of a game in unbounded integers.
pub struct GameView {
    pub maze: MazeView,
    pub pacman: Pos,
    pub current_direction: Option<Direction>,
    pub requested_direction: Option<Direction>,
    pub ghosts: Seq<PursuerView>,
    pub dots: Seq<Pos>,
    pub power_pellets: Seq<Pos>,
    pub score: nat,
    pub lives: nat,
    pub phase: Phase,
    pub power_pellet_active: bool,
    pub power_pellet_timer: nat,
}

/// A score after `points` more: it stops at the largest number it can hold.
pub open spec fn award(score: nat, points: nat) -> nat {
    if score + points > u32::MAX {
        u32::MAX as nat
    } else {
        score + points
    }
}

/// The colour of the pursuer at place `i` of the list.
pub open spec fn color_of(i: int) -> Color {
    if i % 3 == 0 {
        Color::Red
    } else if i % 3 == 1 {
        Color::Cyan
    } else {
        Color::Magenta
    }
}

/// Holds of the points that are not within `reach` of `centre`.
pub open spec fn out_of_reach(centre: Pos, reach: int) -> spec_fn(Pos) -> bool {
    |p: Pos| !centre.within(p, reach)
}

/// What chance decides for the pursuer at place `i`: nothing where `rolls`
/// says nothing.
pub open spec fn roll_at(rolls: Seq<Roll>, i: int) -> Roll {
    if 0 <= i < rolls.len() {
        rolls[i]
    } else {
        Roll { target: TargetChoice::Keep, pick: 0 }
    }
}

/// Whether `rolls` is what `update` may hand back for a tick whose first part
/// ended in `ready`: nothing if the game is over; else one roll for each
/// pursuer, of which none sends a confused pursuer after the player or any
/// pursuer out of the play area.
pub open spec fn rolls_allowed(ready: GameView, rolls: Seq<Roll>) -> bool {
    if ready.phase == Phase::GameOverMenu {
        rolls.len() == 0
    } else {
        &&& rolls.len() == ready.ghosts.len()
        &&& forall|i: int|
            0 <= i < rolls.len() ==> (#[trigger] rolls[i]).target.allowed(
                ready.ghosts[i].is_confused(),
                ready.maze,
            )
    }
}

impl GameView {
    /// The state in which a game on `maze` starts.
    pub open spec fn start(maze: MazeView) -> GameView {
        GameView {
            maze,
            pacman: maze.pacman_spawn,
            current_direction: None,
            requested_direction: None,
            ghosts: Seq::new(
                maze.ghost_spawns.len(),
                |i: int| PursuerView::new(maze.ghost_spawns[i], color_of(i)),
            ),
            dots: maze.dots,
            power_pellets: maze.power_pellets,
            score: 0,
            lives: STARTING_LIVES as nat,
            phase: Phase::Playing,
            power_pellet_active: false,
            power_pellet_timer: 0,
        }
    }

    /// What every state of a game keeps: the player's hitbox is in the world
    /// and touches no wall; every pursuer is in the world; the game is over
    /// exactly when no life is left; the score is one that `u32` holds; and no
    /// pursuer is vulnerable unless a power pellet's time is running.
    pub open spec fn wf(self) -> bool {
        &&& self.maze.wf()
        &&& self.maze.is_clear(self.pacman, PACMAN_SIZE as int)
        &&& forall|i: int| 0 <= i < self.ghosts.len() ==> (#[trigger] self.ghosts[i]).wf()
        &&& (self.lives == 0 <==> self.phase == Phase::GameOverMenu)
        &&& self.score <= u32::MAX
        &&& self.power_pellet_active ==> 0 < self.power_pellet_timer <= POWER_PELLET_DURATION
        &&& !self.power_pellet_active ==> self.power_pellet_timer == 0
        &&& !self.power_pellet_active ==> forall|i: int|
            0 <= i < self.ghosts.len() ==> !(#[trigger] self.ghosts[i]).is_vulnerable
    }

    /// Whether no pursuer's hitbox touches a wall, where it is or on its spawn point.
    pub open spec fn ghosts_clear(self) -> bool {
        forall|i: int|
            0 <= i < self.ghosts.len() ==> self.maze.is_clear(
                (#[trigger] self.ghosts[i]).position,
                GHOST_SIZE as int,
            ) && self.maze.is_clear(self.ghosts[i].spawn_position, GHOST_SIZE as int)
    }

    /// The centre of the player's hitbox.
    pub open spec fn pacman_centre(self) -> Pos {
        self.pacman.centre(PACMAN_SIZE as int)
    }

    /// Whether the player collides with `ghost`: never while it respawns.
    pub open spec fn touches(self, ghost: PursuerView) -> bool {
        !ghost.is_respawning() && self.pacman_centre().within(
            ghost.position.centre(GHOST_SIZE as int),
            GHOST_REACH as int,
        )
    }

    /// The state with a new request for a direction taken note of, while the
    /// game is on.
    pub open spec fn with_request(self, requested: Option<Direction>) -> GameView {
        if self.phase == Phase::Playing && requested is Some {
            GameView { requested_direction: requested, ..self }
        } else {
            self
        }
    }

    /// The running time of a power pellet goes down by `dt`; when it is up,
    /// no pursuer is vulnerable any more.
    pub open spec fn power_ticked(self, dt: nat) -> GameView {
        if !self.power_pellet_active {
            self
        } else if run_down(self.power_pellet_timer, dt) > 0 {
            GameView { power_pellet_timer: run_down(self.power_pellet_timer, dt), ..self }
        } else {
            GameView {
                power_pellet_active: false,
                power_pellet_timer: 0,
                ghosts: self.ghosts.map_values(
                    |g: PursuerView| PursuerView { is_vulnerable: false, ..g },
                ),
                ..self
            }
        }
    }

    /// Every pursuer's timers go down by `dt`.
    pub open spec fn timers_ticked(self, dt: nat) -> GameView {
        GameView { ghosts: self.ghosts.map_values(|g: PursuerView| g.ticked(dt)), ..self }
    }

    /// Whether a power pellet is within the player's reach.
    pub open spec fn reaches_power_pellet(self) -> bool {
        exists|i: int|
            0 <= i < self.power_pellets.len() && self.pacman_centre().within(
                #[trigger] self.power_pellets[i],
                POWER_PELLET_REACH as int,
            )
    }

    /// The power pellets within reach are gone; if there was one, its time
    /// starts to run and every pursuer is vulnerable.
    pub open spec fn power_pellets_eaten(self) -> GameView {
        if self.reaches_power_pellet() {
            GameView {
                power_pellets: self.power_pellets.filter(
                    out_of_reach(self.pacman_centre(), POWER_PELLET_REACH as int),
                ),
                power_pellet_active: true,
                power_pellet_timer: POWER_PELLET_DURATION as nat,
                ghosts: self.ghosts.map_values(
                    |g: PursuerView| PursuerView { is_vulnerable: true, ..g },
                ),
                ..self
            }
        } else {
            self
        }
    }

    /// The player back on its spawn point, standing still, with no request.
    pub open spec fn pacman_reset(self) -> GameView {
        GameView {
            pacman: self.maze.pacman_spawn,
            current_direction: None,
            requested_direction: None,
            ..self
        }
    }

    /// Collisions settled for the pursuers from place `i` on, in order. A
    /// vulnerable pursuer that collides is captured: it goes back to its spawn
    /// point and the player scores. Any other costs a life, and nothing after
    /// it is looked at: with the last life the game is over; else the player
    /// and every pursuer go back to their spawn points.
    pub open spec fn collided_from(self, i: int) -> GameView
        decreases self.ghosts.len() - i,
    {
        if self.lives == 0 || i < 0 || i >= self.ghosts.len() {
            self
        } else if !self.touches(self.ghosts[i]) {
            self.collided_from(i + 1)
        } else if self.ghosts[i].is_vulnerable {
            (GameView {
                ghosts: self.ghosts.update(i, self.ghosts[i].reset()),
                score: award(self.score, GHOST_POINTS as nat),
                ..self
            }).collided_from(i + 1)
        } else if self.lives == 1 {
            GameView { lives: 0, phase: Phase::GameOverMenu, ..self }
        } else {
            (GameView {
                lives: (self.lives - 1) as nat,
                ghosts: self.ghosts.map_values(|g: PursuerView| g.reset()),
                ..self
            }).pacman_reset()
        }
    }

    /// Whether the cell next to the player's in direction `d` is open: a
    /// hitbox centred there is in the world and touches no wall.
    pub open spec fn can_move(self, d: Direction) -> bool {
        self.maze.try_move(self.pacman.snapped().hitbox(PACMAN_SIZE as int), d, CELL_SIZE as int)
            is Some
    }

    /// The requested direction becomes the current one if the player is at
    /// the centre of a cell and the next cell that way is open.
    pub open spec fn turned(self) -> GameView {
        if self.pacman.is_at_grid_center() && self.requested_direction is Some && self.can_move(
            self.requested_direction->0,
        ) {
            GameView { current_direction: self.requested_direction, ..self }
        } else {
            self
        }
    }

    /// The player one step along its current direction; where that step is
    /// not open, on the nearest cell centre and standing still.
    pub open spec fn pacman_advanced(self) -> GameView {
        match self.current_direction {
            None => self,
            Some(d) => match self.maze.try_move(
                self.pacman.hitbox(PACMAN_SIZE as int),
                d,
                MOVEMENT_SPEED as int,
            ) {
                Some(rect) => GameView { pacman: rect.origin(), ..self },
                None => GameView { pacman: self.pacman.snapped(), current_direction: None, ..self },
            },
        }
    }

    /// Every pursuer one tick on, the one at place `i` with what
    /// `roll_at(rolls, i)` decides.
    pub open spec fn ghosts_advanced(self, rolls: Seq<Roll>) -> GameView {
        GameView {
            ghosts: Seq::new(
                self.ghosts.len(),
                |i: int| self.ghosts[i].step(self.maze, self.pacman, roll_at(rolls, i)),
            ),
            ..self
        }
    }

    /// The dots within the player's reach are gone and paid for.
    pub open spec fn dots_eaten(self) -> GameView {
        let left = self.dots.filter(out_of_reach(self.pacman_centre(), DOT_REACH as int));
        GameView {
            dots: left,
            score: award(self.score, ((self.dots.len() - left.len()) * DOT_POINTS) as nat),
            ..self
        }
    }

    /// The first part of a tick, which chance has no part in: the request is
    /// noted, the timers run, power pellets are eaten and collisions settled;
    /// unless the game is over by then, the player turns and moves.
    pub open spec fn prepared(self, dt: nat, requested: Option<Direction>) -> GameView {
        let settled = self.with_request(requested).power_ticked(dt).timers_ticked(
            dt,
        ).power_pellets_eaten().collided_from(0);
        if settled.phase == Phase::GameOverMenu {
            settled
        } else {
            settled.turned().pacman_advanced()
        }
    }

    /// One tick: the first part, and unless the game is over by then, the
    /// pursuers move as `rolls` decides and the player eats the dots in reach.
    pub open spec fn update(
        self,
        dt: nat,
        requested: Option<Direction>,
        rolls: Seq<Roll>,
    ) -> GameView {
        let ready = self.prepared(dt, requested);
        if ready.phase == Phase::GameOverMenu {
            ready
        } else {
            ready.ghosts_advanced(rolls).dots_eaten()
        }
    }
}

/// The state of a game.
pub struct MainState {
    maze: Maze,
    pacman: Point,
    current_direction: Option<Direction>,
    requested_direction: Option<Direction>,
    ghosts: Vec<Pursuer>,
    dots: Vec<Point>,
    power_pellets: Vec<Point>,
    score: u32,
    lives: u32,
    phase: Phase,
    power_pellet_active: bool,
    power_pellet_timer: u64,
}

impl View for MainState {
    type V = GameView;

    closed spec fn view(&self) -> GameView {
        GameView {
            maze: self.maze@,
            pacman: self.pacman@,
            current_direction: self.current_direction,
            requested_direction: self.requested_direction,
            ghosts: pursuer_views(self.ghosts@),
            dots: point_views(self.dots@),
            power_pellets: point_views(self.power_pellets@),
            score: self.score as nat,
            lives: self.lives as nat,
            phase: self.phase,
            power_pellet_active: self.power_pellet_active,
            power_pellet_timer: self.power_pellet_timer as nat,
        }
    }
}

fn copy_points(points: &Vec<Point>) -> (copy: Vec<Point>)
    ensures
        copy@ == points@,
{
    let mut copy: Vec<Point> = Vec::new();
    let mut i: usize = 0;
    while i < points.len()
        invariant
            i <= points.len(),
            copy@ == points@.take(i as int),
        decreases points.len() - i,
    {
        copy.push(points[i]);
        assert(copy@ =~= points@.take(i + 1));
        i += 1;
    }
    assert(points@.take(points.len() as int) =~= points@);
    copy
}

fn color_at(i: usize) -> (c: Color)
    ensures
        c == color_of(i as int),
{
    if i % 3 == 0 {
        Color::Red
    } else if i % 3 == 1 {
        Color::Cyan
    } else {
        Color::Magenta
    }
}

fn fresh_ghosts(maze: &Maze) -> (ghosts: Vec<Pursuer>)
    ensures
        pursuer_views(ghosts@) == GameView::start(maze@).ghosts,
{
    let spawns: &Vec<Point> = maze.ghost_spawns();
    let mut ghosts: Vec<Pursuer> = Vec::new();
    let mut i: usize = 0;
    while i < spawns.len()
        invariant
            i <= spawns.len(),
            point_views(spawns@) == maze@.ghost_spawns,
            ghosts.len() == i,
            forall|k: int|
                0 <= k < i ==> (#[trigger] ghosts[k])@ == PursuerView::new(
                    maze@.ghost_spawns[k],
                    color_of(k),
                ),
        decreases spawns.len() - i,
    {
        let spawn: Point = spawns[i];
        assert(spawn@ == point_views(spawns@)[i as int]);
        ghosts.push(Pursuer::new(spawn.x, spawn.y, color_at(i)));
        i += 1;
    }
    assert(pursuer_views(ghosts@) =~= GameView::start(maze@).ghosts);
    ghosts
}

impl MainState {
    /// Whether the state is one that a game can be in.
    pub open spec fn wf(&self) -> bool {
        self@.wf()
    }

    /// Loads the maze from `grid` and starts a game on it. Fails exactly when
    /// `Maze::load` does.
    pub fn new(grid: &[&str]) -> (r: Result<MainState, MazeError>)
        ensures
            match r {
                Ok(state) => load_error(grid_rows(grid@)) is None && state@ == GameView::start(
                    maze_of(grid_rows(grid@)),
                ) && state.wf() && (state@.maze.ghost_spawns_clear() ==> state@.ghosts_clear()),
                Err(e) => load_error(grid_rows(grid@)) == Some(e),
            },
    {
        match Maze::load(grid) {
            Err(e) => Err(e),
            Ok(maze) => {
                proof {
                    lemma_start_wf(maze@);
                }
                let ghosts: Vec<Pursuer> = fresh_ghosts(&maze);
                let dots: Vec<Point> = copy_points(maze.dots());
                let power_pellets: Vec<Point> = copy_points(maze.power_pellets());
                let pacman: Point = maze.pacman_spawn();
                Ok(
                    MainState {
                        maze,
                        pacman,
                        current_direction: None,
                        requested_direction: None,
                        ghosts,
                        dots,
                        power_pellets,
                        score: 0,
                        lives: STARTING_LIVES,
                        phase: Phase::Playing,
                        power_pellet_active: false,
                        power_pellet_timer: 0,
                    },
                )
            },
        }
    }

    /// Starts a new game on the same maze: player and pursuers on their spawn
    /// points, every dot and power pellet back, no score, all lives.
    pub fn reset_game(&mut self)
        ensures
            final(self)@ == GameView::start(old(self)@.maze),
            final(self).wf(),
            old(self)@.maze.ghost_spawns_clear() ==> final(self)@.ghosts_clear(),
    {
        proof {
            use_type_invariant(&self.maze);
            lemma_start_wf(self.maze@);
        }
        self.pacman = self.maze.pacman_spawn();
        self.ghosts = fresh_ghosts(&self.maze);
        self.power_pellets = copy_points(self.maze.power_pellets());
        self.dots = copy_points(self.maze.dots());
        self.score = 0;
        self.lives = STARTING_LIVES;
        self.phase = Phase::Playing;
        self.current_direction = None;
        self.requested_direction = None;
        self.power_pellet_active = false;
        self.power_pellet_timer = 0;
    }

    /// The maze that the game is played on.
    pub fn maze(&self) -> (maze: &Maze)
        ensures
            maze@ == self@.maze,
    {
        &self.maze
    }

    /// The corner of the player's hitbox.
    pub fn pacman_position(&self) -> (p: Point)
        ensures
            p@ == self@.pacman,
    {
        self.pacman
    }

    /// The direction in which the player moves, if it moves.
    pub fn current_direction(&self) -> (d: Option<Direction>)
        ensures
            d == self@.current_direction,
    {
        self.current_direction
    }

    /// The direction asked for last and not yet dropped.
    pub fn requested_direction(&self) -> (d: Option<Direction>)
        ensures
            d == self@.requested_direction,
    {
        self.requested_direction
    }

    /// The pursuers.
    pub fn ghosts(&self) -> (ghosts: &Vec<Pursuer>)
        ensures
            pursuer_views(ghosts@) == self@.ghosts,
    {
        &self.ghosts
    }

    /// The dots not yet eaten.
    pub fn dots(&self) -> (dots: &Vec<Point>)
        ensures
            point_views(dots@) == self@.dots,
    {
        &self.dots
    }

    /// The power pellets not yet eaten.
    pub fn power_pellets(&self) -> (power_pellets: &Vec<Point>)
        ensures
            point_views(power_pellets@) == self@.power_pellets,
    {
        &self.power_pellets
    }

    /// The points scored so far.
    pub fn score(&self) -> (score: u32)
        ensures
            score == self@.score,
    {
        self.score
    }

    /// The lives left.
    pub fn lives(&self) -> (lives: u32)
        ensures
            lives == self@.lives,
    {
        self.lives
    }

    /// Whether the game is on or over.
    pub fn phase(&self) -> (phase: Phase)
        ensures
            phase == self@.phase,
    {
        self.phase
    }

    /// Whether a power pellet's time is running.
    pub fn power_pellet_active(&self) -> (active: bool)
        ensures
            active == self@.power_pellet_active,
    {
        self.power_pellet_active
    }

    /// Microseconds left of the power pellet's time.
    pub fn power_pellet_timer(&self) -> (timer: u64)
        ensures
            timer == self@.power_pellet_timer,
    {
        self.power_pellet_timer
    }

    /// Whether the player is within one world unit of a cell's centre. Only
    /// there may it turn.
    pub fn is_at_grid_center(&self) -> (b: bool)
        ensures
            b == self@.pacman.is_at_grid_center(),
    {
        self.pacman.is_at_grid_center()
    }

    /// Puts the player on the nearest cell centre.
    pub fn snap_to_grid(&mut self)
        requires
            old(self).wf(),
        ensures
            final(self)@ == (GameView { pacman: old(self)@.pacman.snapped(), ..old(self)@ }),
            final(self).wf(),
    {
        proof {
            lemma_snapped_clear(self@.maze, self@.pacman);
        }
        self.pacman = self.pacman.snap_to_grid();
    }

    /// Whether the cell next to the player's in `direction` is open.
    pub fn can_move(&self, direction: Direction) -> (b: bool)
        requires
            self.wf(),
        ensures
            b == self@.can_move(direction),
    {
        let seat: Point = self.pacman.snap_to_grid();
        self.maze.try_move(&seat.hitbox(PACMAN_SIZE), direction, CELL_SIZE).is_some()
    }

    /// Puts the player back on its spawn point, standing still, and drops
    /// the request for a direction.
    pub fn reset_pacman_position(&mut self)
        requires
            old(self).wf(),
        ensures
            final(self)@ == old(self)@.pacman_reset(),
            final(self).wf(),
    {
        self.pacman = self.maze.pacman_spawn();
        self.current_direction = None;
        self.requested_direction = None;
    }

    fn set_vulnerable(&mut self, value: bool)
        ensures
            final(self)@ == (GameView {
                ghosts: old(self)@.ghosts.map_values(
                    |g: PursuerView| PursuerView { is_vulnerable: value, ..g },
                ),
                ..old(self)@
            }),
    {
        let mut i: usize = 0;
        while i < self.ghosts.len()
            invariant
                i <= self.ghosts.len(),
                self.ghosts.len() == old(self).ghosts.len(),
                self@ == (GameView { ghosts: self@.ghosts, ..old(self)@ }),
                forall|k: int|
                    0 <= k < i ==> (#[trigger] self.ghosts[k])@ == (PursuerView {
                        is_vulnerable: value,
                        ..old(self).ghosts[k]@
                    }),
                forall|k: int|
                    i <= k < self.ghosts.len() ==> (#[trigger] self.ghosts[k]) == old(
                        self,
                    ).ghosts[k],
            decreases self.ghosts.len() - i,
        {
            let mut pursuer: Pursuer = self.ghosts[i];
            pursuer.is_vulnerable = value;
            self.ghosts.set(i, pursuer);
            i += 1;
        }
        assert(self@.ghosts =~= old(self)@.ghosts.map_values(
            |g: PursuerView| PursuerView { is_vulnerable: value, ..g },
        ));
    }

    fn reset_ghosts(&mut self)
        ensures
            final(self)@ == (GameView {
                ghosts: old(self)@.ghosts.map_values(|g: PursuerView| g.reset()),
                ..old(self)@
            }),
    {
        let mut i: usize = 0;
        while i < self.ghosts.len()
            invariant
                i <= self.ghosts.len(),
                self.ghosts.len() == old(self).ghosts.len(),
                self@ == (GameView { ghosts: self@.ghosts, ..old(self)@ }),
                forall|k: int|
                    0 <= k < i ==> (#[trigger] self.ghosts[k])@ == old(self).ghosts[k]@.reset(),
                forall|k: int|
                    i <= k < self.ghosts.len() ==> (#[trigger] self.ghosts[k]) == old(
                        self,
                    ).ghosts[k],
            decreases self.ghosts.len() - i,
        {
            let mut pursuer: Pursuer = self.ghosts[i];
            pursuer.reset_position();
            self.ghosts.set(i, pursuer);
            i += 1;
        }
        assert(self@.ghosts =~= old(self)@.ghosts.map_values(|g: PursuerView| g.reset()));
    }

    fn tick_power(&mut self, dt: u64)
        requires
            old(self).wf(),
        ensures
            final(self)@ == old(self)@.power_ticked(dt as nat),
            final(self).wf(),
    {
        proof {
            lemma_power_ticked_wf(self@, dt as nat);
        }
        if self.power_pellet_active {
            self.power_pellet_timer = self.power_pellet_timer.saturating_sub(dt);
            if self.power_pellet_timer == 0 {
                self.power_pellet_active = false;
                self.set_vulnerable(false);
            }
        }
    }

    fn tick_ghost_timers(&mut self, dt: u64)
        requires
            old(self).wf(),
        ensures
            final(self)@ == old(self)@.timers_ticked(dt as nat),
            final(self).wf(),
    {
        proof {
            lemma_timers_ticked_wf(self@, dt as nat);
        }
        let mut i: usize = 0;
        while i < self.ghosts.len()
            invariant
                i <= self.ghosts.len(),
                self.ghosts.len() == old(self).ghosts.len(),
                self@ == (GameView { ghosts: self@.ghosts, ..old(self)@ }),
                forall|k: int|
                    0 <= k < i ==> (#[trigger] self.ghosts[k])@ == old(self).ghosts[k]@.ticked(
                        dt as nat,
                    ),
                forall|k: int|
                    i <= k < self.ghosts.len() ==> (#[trigger] self.ghosts[k]) == old(
                        self,
                    ).ghosts[k],
            decreases self.ghosts.len() - i,
        {
            let mut pursuer: Pursuer = self.ghosts[i];
            pursuer.tick(dt);
            self.ghosts.set(i, pursuer);
            i += 1;
        }
        assert(self@.ghosts =~= old(self)@.ghosts.map_values(
            |g: PursuerView| g.ticked(dt as nat),
        ));
    }

    fn pacman_centre(&self) -> (centre: Point)
        requires
            self.wf(),
        ensures
            centre@ == self@.pacman_centre(),
    {
        Point { x: self.pacman.x + PACMAN_SIZE / 2, y: self.pacman.y + PACMAN_SIZE / 2 }
    }

    fn eat_power_pellets(&mut self)
        requires
            old(self).wf(),
        ensures
            final(self)@ == old(self)@.power_pellets_eaten(),
            final(self).wf(),
    {
        proof {
            lemma_power_pellets_eaten_wf(self@);
        }
        let centre: Point = self.pacman_centre();
        let (left, eaten): (Vec<Point>, usize) = out_of_reach_of(
            &self.power_pellets,
            centre,
            POWER_PELLET_REACH,
        );
        if eaten > 0 {
            self.power_pellets = left;
            self.power_pellet_active = true;
            self.power_pellet_timer = POWER_PELLET_DURATION;
            self.set_vulnerable(true);
        }
    }

    /// Settles the collisions of the player with the pursuers, in their
    /// order: a vulnerable pursuer is captured; any other costs a life and
    /// ends the pass. Nothing happens once the game is over.
    pub fn check_ghost_collision(&mut self)
        requires
            old(self).wf(),
        ensures
            final(self)@ == old(self)@.collided_from(0),
            final(self).wf(),
    {
        proof {
            lemma_collided_wf(self@, 0);
        }
        if self.lives == 0 {
            return ;
        }
        let centre: Point = self.pacman_centre();
        let mut i: usize = 0;
        while i < self.ghosts.len()
            invariant
                i <= self.ghosts.len(),
                self.wf(),
                self.lives > 0,
                centre@ == self@.pacman_centre(),
                old(self)@.collided_from(0) == self@.collided_from(i as int),
            decreases self.ghosts.len() - i,
        {
            let pursuer: Pursuer = self.ghosts[i];
            assert(pursuer@ == self@.ghosts[i as int]);
            assert(pursuer@.wf());
            let pursuer_centre = Point {
                x: pursuer.position.x + GHOST_SIZE / 2,
                y: pursuer.position.y + GHOST_SIZE / 2,
            };
            if !pursuer.is_respawning() && centre.within(&pursuer_centre, GHOST_REACH) {
                if pursuer.is_vulnerable {
                    let ghost before = self@;
                    let mut captured: Pursuer = pursuer;
                    captured.reset_position();
                    self.ghosts.set(i, captured);
                    self.score = self.score.saturating_add(GHOST_POINTS);
                    proof {
                        let next = GameView {
                            ghosts: before.ghosts.update(i as int, before.ghosts[i as int].reset()),
                            score: award(before.score, GHOST_POINTS as nat),
                            ..before
                        };
                        assert(self@.ghosts =~= next.ghosts);
                        assert(self@ == next);
                        assert(before.collided_from(i as int) == next.collided_from(i + 1));
                        lemma_collided_wf(before, i as int);
                        assert(next.wf());
                    }
                } else {
                    if self.lives == 1 {
                        self.lives = 0;
                        self.phase = Phase::GameOverMenu;
                        return ;
                    }
                    self.lives = self.lives - 1;
                    self.reset_ghosts();
                    self.pacman = self.maze.pacman_spawn();
                    self.current_direction = None;
                    self.requested_direction = None;
                    return ;
                }
            }
            i += 1;
        }
    }

    fn turn(&mut self)
        requires
            old(self).wf(),
        ensures
            final(self)@ == old(self)@.turned(),
            final(self).wf(),
    {
        if self.pacman.is_at_grid_center() {
            match self.requested_direction {
                Some(d) => {
                    if self.can_move(d) {
                        self.current_direction = self.requested_direction;
                    }
                },
                None => {},
            }
        }
    }

    fn advance_pacman(&mut self)
        requires
            old(self).wf(),
        ensures
            final(self)@ == old(self)@.pacman_advanced(),
            final(self).wf(),
    {
        proof {
            lemma_pacman_advanced_wf(self@);
        }
        match self.current_direction {
            None => {},
            Some(d) => {
                match self.maze.try_move(&self.pacman.hitbox(PACMAN_SIZE), d, MOVEMENT_SPEED) {
                    Some(rect) => {
                        self.pacman = Point { x: rect.x, y: rect.y };
                    },
                    None => {
                        self.snap_to_grid();
                        self.current_direction = None;
                    },
                }
            },
        }
    }

    fn eat_dots(&mut self)
        requires
            old(self).wf(),
        ensures
            final(self)@ == old(self)@.dots_eaten(),
            final(self).wf(),
    {
        proof {
            lemma_dots_eaten_wf(self@);
        }
        let centre: Point = self.pacman_centre();
        let (left, eaten): (Vec<Point>, usize) = out_of_reach_of(&self.dots, centre, DOT_REACH);
        let total: u128 = self.score as u128 + eaten as u128 * DOT_POINTS as u128;
        self.dots = left;
        self.score = if total > u32::MAX as u128 {
            u32::MAX
        } else {
            total as u32
        };
    }

    fn prepare(&mut self, dt: u64, requested: Option<Direction>)
        requires
            old(self).wf(),
        ensures
            final(self)@ == old(self)@.prepared(dt as nat, requested),
            final(self).wf(),
    {
        if self.phase == Phase::Playing && requested.is_some() {
            self.requested_direction = requested;
        }
        self.tick_power(dt);
        self.tick_ghost_timers(dt);
        self.eat_power_pellets();
        self.check_ghost_collision();
        if self.phase == Phase::GameOverMenu {
            return ;
        }
        self.turn();
        self.advance_pacman();
    }

    /// One tick of the game. `dt` is the time since the last tick in
    /// microseconds: the timers run by it, while every move is one fixed step.
    /// `requested` is the direction asked for since the last tick, if any.
    /// Returns what chance decided for each pursuer, in their order, so that
    /// `update_with` can repeat the tick; nothing if the game is over.
    pub fn update(
        &mut self,
        dt: u64,
        requested: Option<Direction>,
        rng: &mut StdRng,
    ) -> (rolls: Vec<Roll>)
        requires
            old(self).wf(),
        ensures
            final(self)@ == old(self)@.update(dt as nat, requested, rolls@),
            final(self).wf(),
            old(self)@.ghosts_clear() ==> final(self)@.ghosts_clear(),
            rolls_allowed(old(self)@.prepared(dt as nat, requested), rolls@),
    {
        self.prepare(dt, requested);
        let mut rolls: Vec<Roll> = Vec::new();
        if self.phase == Phase::GameOverMenu {
            proof {
                lemma_update_wf(old(self)@, dt as nat, requested, rolls@);
            }
            return rolls;
        }
        let ghost ready = self@;
        let mut i: usize = 0;
        while i < self.ghosts.len()
            invariant
                i <= self.ghosts.len(),
                ready.wf(),
                ready.ghosts.len() == self.ghosts.len(),
                rolls.len() == i,
                self@ == (GameView { ghosts: self@.ghosts, ..ready }),
                forall|k: int|
                    0 <= k < i ==> (#[trigger] self.ghosts[k])@ == ready.ghosts[k].step(
                        ready.maze,
                        ready.pacman,
                        rolls[k],
                    ) && rolls[k].target.allowed(ready.ghosts[k].is_confused(), ready.maze),
                forall|k: int|
                    i <= k < self.ghosts.len() ==> (#[trigger] self.ghosts[k])@ == ready.ghosts[k],
            decreases self.ghosts.len() - i,
        {
            let mut pursuer: Pursuer = self.ghosts[i];
            assert(pursuer@ == ready.ghosts[i as int]);
            let roll: Roll = pursuer.update(&self.maze, self.pacman.x, self.pacman.y, rng);
            self.ghosts.set(i, pursuer);
            rolls.push(roll);
            i += 1;
        }
        proof {
            assert(self@.ghosts =~= ready.ghosts_advanced(rolls@).ghosts);
            lemma_ghosts_advanced_wf(ready, rolls@);
            assert forall|k: int| 0 <= k < rolls.len() implies (#[trigger] rolls@[k]).target.allowed(
                ready.ghosts[k].is_confused(),
                ready.maze,
            ) by {
                assert(self.ghosts[k]@ == ready.ghosts[k].step(ready.maze, ready.pacman, rolls[k]));
            }
            lemma_update_wf(old(self)@, dt as nat, requested, rolls@);
        }
        self.eat_dots();
        rolls
    }

    /// One tick of the game in which `rolls` decides what chance decides in
    /// `update`: `rolls[i]` for the pursuer at place `i`, and for a pursuer
    /// beyond the end of `rolls` that it keeps its target and picks the first
    /// open direction.
    pub fn update_with(&mut self, dt: u64, requested: Option<Direction>, rolls: &Vec<Roll>)
        requires
            old(self).wf(),
        ensures
            final(self)@ == old(self)@.update(dt as nat, requested, rolls@),
            final(self).wf(),
            old(self)@.ghosts_clear() ==> final(self)@.ghosts_clear(),
    {
        proof {
            lemma_update_wf(self@, dt as nat, requested, rolls@);
        }
        self.prepare(dt, requested);
        if self.phase == Phase::GameOverMenu {
            return ;
        }
        let ghost ready = self@;
        let mut i: usize = 0;
        while i < self.ghosts.len()
            invariant
                i <= self.ghosts.len(),
                ready.wf(),
                ready.ghosts.len() == self.ghosts.len(),
                self@ == (GameView { ghosts: self@.ghosts, ..ready }),
                forall|k: int|
                    0 <= k < i ==> (#[trigger] self.ghosts[k])@ == ready.ghosts[k].step(
                        ready.maze,
                        ready.pacman,
                        roll_at(rolls@, k),
                    ),
                forall|k: int|
                    i <= k < self.ghosts.len() ==> (#[trigger] self.ghosts[k])@ == ready.ghosts[k],
            decreases self.ghosts.len() - i,
        {
            let mut pursuer: Pursuer = self.ghosts[i];
            assert(pursuer@ == ready.ghosts[i as int]);
            let roll: Roll = if i < rolls.len() {
                rolls[i]
            } else {
                Roll { target: TargetChoice::Keep, pick: 0 }
            };
            pursuer.step(&self.maze, self.pacman, roll);
            self.ghosts.set(i, pursuer);
            i += 1;
        }
        proof {
            assert(self@.ghosts =~= ready.ghosts_advanced(rolls@).ghosts);
            lemma_ghosts_advanced_wf(ready, rolls@);
        }
        self.eat_dots();
    }
}

/// The points of `points` that are not within `reach` of `centre`, in their
/// order, and how many are.
fn out_of_reach_of(points: &Vec<Point>, centre: Point, reach: i64) -> (r: (Vec<Point>, usize))
    ensures
        point_views(r.0@) == point_views(points@).filter(out_of_reach(centre@, reach as int)),
        r.1 == points.len() - r.0.len(),
        r.1 > 0 <==> exists|i: int|
            0 <= i < points.len() && centre@.within(
                #[trigger] point_views(points@)[i],
                reach as int,
            ),
{
    let ghost keep = out_of_reach(centre@, reach as int);
    let mut left: Vec<Point> = Vec::new();
    let mut eaten: usize = 0;
    let mut i: usize = 0;
    assert(point_views(points@.take(0)) =~= Seq::<Pos>::empty());
    while i < points.len()
        invariant
            i <= points.len(),
            keep == out_of_reach(centre@, reach as int),
            point_views(left@) == point_views(points@.take(i as int)).filter(keep),
            eaten + left.len() == i,
            eaten > 0 <==> exists|k: int|
                0 <= k < i && centre@.within(#[trigger] point_views(points@)[k], reach as int),
        decreases points.len() - i,
    {
        let point: Point = points[i];
        proof {
            let before = point_views(points@.take(i as int));
            assert(point_views(points@.take(i + 1)) =~= before.push(point@));
            before.lemma_filter_push(point@, keep);
            assert(point@ == point_views(points@)[i as int]);
        }
        if centre.within(&point, reach) {
            eaten += 1;
        } else {
            let ghost was = left@;
            left.push(point);
            assert(point_views(left@) =~= point_views(was).push(point@));
        }
        i += 1;
    }
    assert(points@.take(points.len() as int) =~= points@);
    (left, eaten)
}

} // verus!
