//! Pursuers: what one is, and what one does in a tick.

use crate::chance::{below, chance};
use crate::geometry::{
    Direction, Point, Pos, Rect, CELL_SIZE, GHOST_SIZE, GHOST_SPEED, UNIT, VULNERABLE_GHOST_SPEED,
};
use crate::maze::{Maze, MazeView};
use rand::rngs::StdRng;
use vstd::prelude::*;

verus! {

/// A confused pursuer picks a new target in one tick out of this many.
pub const CONFUSED_RETARGET_ONE_IN: u32 = 10;

/// A pursuer that is not confused picks a new target in one tick out of this many.
pub const RETARGET_ONE_IN: u32 = 20;

/// Of five new targets of a pursuer that is not confused, this many are
/// points of the play area; the others are the player.
pub const WANDER_OF_FIVE: u32 = 3;

/// How long a pursuer stays confused after it was captured, in microseconds.
pub const CONFUSED_DURATION: u64 = 3_000_000;

/// Tells the pursuers apart on screen.
#[derive(Clone, Copy, PartialEq, Eq, Debug, Structural)]
pub enum Color {
    Red,
    Cyan,
    Magenta,
}

/// What a pursuer does about its target in a tick.
#[derive(Clone, Copy, PartialEq, Eq, Debug, Structural)]
pub enum TargetChoice {
    /// Keep the target it has.
    Keep,
    /// Head for a point of the play area.
    Wander(Point),
    /// Head for where the player is.
    Chase,
}

/// Everything that chance decides for one pursuer in one tick.
#[derive(Clone, Copy, PartialEq, Eq, Debug, Structural)]
pub struct Roll {
    /// What becomes of the target.
    pub target: TargetChoice,
    /// Which of the valid directions a confused pursuer takes, counted round
    /// and round.
    pub pick: usize,
}

/// A pursuer. `position` and `spawn_position` are hitbox corners.
#[derive(Clone, Copy, PartialEq, Eq, Debug, Structural)]
pub struct Pursuer {
    pub position: Point,
    pub direction: Direction,
    pub color: Color,
    pub target: Point,
    pub is_vulnerable: bool,
    pub respawn_timer: u64,
    pub spawn_position: Point,
    pub confused_timer: u64,
}

/// A pursuer in unbounded integers.
pub struct PursuerView {
    pub position: Pos,
    pub direction: Direction,
    pub color: Color,
    pub target: Pos,
    pub is_vulnerable: bool,
    pub respawn_timer: nat,
    pub spawn_position: Pos,
    pub confused_timer: nat,
}

impl View for Pursuer {
    type V = PursuerView;

    open spec fn view(&self) -> PursuerView {
        PursuerView {
            position: self.position@,
            direction: self.direction,
            color: self.color,
            target: self.target@,
            is_vulnerable: self.is_vulnerable,
            respawn_timer: self.respawn_timer as nat,
            spawn_position: self.spawn_position@,
            confused_timer: self.confused_timer as nat,
        }
    }
}

/// A timer after `dt` more microseconds: it stops at zero.
pub open spec fn run_down(timer: nat, dt: nat) -> nat {
    if timer > dt {
        (timer - dt) as nat
    } else {
        0
    }
}

/// The pursuers of a list, each in unbounded integers.
pub open spec fn pursuer_views(ghosts: Seq<Pursuer>) -> Seq<PursuerView> {
    ghosts.map_values(|g: Pursuer| g@)
}

/// The one-element sequence of `d` if `keep` holds, else the empty one.
pub open spec fn only_if(keep: bool, d: Direction) -> Seq<Direction> {
    if keep {
        seq![d]
    } else {
        Seq::empty()
    }
}

/// Squared distance to `target` from one world unit along `d` from `from`.
pub open spec fn key(d: Direction, from: Pos, target: Pos) -> int {
    from.moved(d, UNIT as int).dist2(target)
}

/// The direction among the first `n` of `valid` whose unit step comes nearest
/// to `target`; of several equally near, the first.
pub open spec fn nearest_among(valid: Seq<Direction>, n: int, from: Pos, target: Pos) -> Direction
    decreases n,
{
    if n <= 1 {
        valid[0]
    } else {
        let best = nearest_among(valid, n - 1, from, target);
        if key(valid[n - 1], from, target) < key(best, from, target) {
            valid[n - 1]
        } else {
            best
        }
    }
}

impl TargetChoice {
    /// What a draw may come to: a confused pursuer never chases, and whoever
    /// wanders heads for a point of the play area.
    pub open spec fn allowed(self, confused: bool, maze: MazeView) -> bool {
        match self {
            TargetChoice::Keep => true,
            TargetChoice::Wander(p) => 0 <= p.x < maze.width * CELL_SIZE && 0 <= p.y < maze.height
                * CELL_SIZE,
            TargetChoice::Chase => !confused,
        }
    }
}

impl PursuerView {
    /// A pursuer as it enters the game at `start`.
    pub open spec fn new(start: Pos, color: Color) -> PursuerView {
        PursuerView {
            position: start,
            direction: Direction::Left,
            color,
            target: start,
            is_vulnerable: false,
            respawn_timer: 0,
            spawn_position: start,
            confused_timer: 0,
        }
    }

    /// Position, spawn point and target all lie in the world.
    pub open spec fn wf(self) -> bool {
        &&& self.position.in_world()
        &&& self.spawn_position.in_world()
        &&& self.target.in_world()
    }

    /// The pursuer with `dt` microseconds less on its timers, which stop at zero.
    pub open spec fn ticked(self, dt: nat) -> PursuerView {
        PursuerView {
            confused_timer: run_down(self.confused_timer, dt),
            respawn_timer: run_down(self.respawn_timer, dt),
            ..self
        }
    }

    /// Back at the spawn point, no longer vulnerable, and confused for a while.
    pub open spec fn reset(self) -> PursuerView {
        PursuerView {
            position: self.spawn_position,
            direction: Direction::Left,
            is_vulnerable: false,
            respawn_timer: 0,
            confused_timer: CONFUSED_DURATION as nat,
            ..self
        }
    }

    /// Whether the confusion that follows a capture still lasts.
    pub open spec fn is_confused(self) -> bool {
        self.confused_timer > 0
    }

    /// Whether the pursuer is out of the game for now: it is not drawn and
    /// collides with nobody.
    pub open spec fn is_respawning(self) -> bool {
        self.respawn_timer > 0
    }

    /// Distance covered in a tick: less while vulnerable.
    pub open spec fn speed(self) -> int {
        if self.is_vulnerable {
            VULNERABLE_GHOST_SPEED as int
        } else {
            GHOST_SPEED as int
        }
    }

    /// Whether one tick's step along `d` is open.
    pub open spec fn can_go(self, maze: MazeView, d: Direction) -> bool {
        maze.try_move(self.position.hitbox(GHOST_SIZE as int), d, self.speed()) is Some
    }

    /// The open directions, in the order Up, Down, Left, Right.
    pub open spec fn valid_directions(self, maze: MazeView) -> Seq<Direction> {
        only_if(self.can_go(maze, Direction::Up), Direction::Up) + only_if(
            self.can_go(maze, Direction::Down),
            Direction::Down,
        ) + only_if(self.can_go(maze, Direction::Left), Direction::Left) + only_if(
            self.can_go(maze, Direction::Right),
            Direction::Right,
        )
    }

    /// The pursuer with its target chosen anew; a choice that is not allowed
    /// changes nothing.
    pub open spec fn retargeted(
        self,
        choice: TargetChoice,
        pacman: Pos,
        maze: MazeView,
    ) -> PursuerView {
        if !choice.allowed(self.is_confused(), maze) {
            self
        } else {
            match choice {
                TargetChoice::Keep => self,
                TargetChoice::Wander(p) => PursuerView { target: p@, ..self },
                TargetChoice::Chase => PursuerView { target: pacman, ..self },
            }
        }
    }

    /// The direction for this tick: the old one where none is open, any open
    /// one while confused, else the open one that leads nearest to the target.
    pub open spec fn chosen_direction(self, maze: MazeView, pick: int) -> Direction {
        let valid = self.valid_directions(maze);
        if valid.len() == 0 {
            self.direction
        } else if self.is_confused() {
            valid[pick % (valid.len() as int)]
        } else {
            nearest_among(valid, valid.len() as int, self.position, self.target)
        }
    }

    /// The pursuer one step along its direction, or in place if that step is
    /// not open.
    pub open spec fn advanced(self, maze: MazeView) -> PursuerView {
        match maze.try_move(self.position.hitbox(GHOST_SIZE as int), self.direction, self.speed()) {
            Some(rect) => PursuerView { position: rect.origin(), ..self },
            None => self,
        }
    }

    /// One tick of a pursuer: choose the target, choose the direction, move.
    pub open spec fn step(self, maze: MazeView, pacman: Pos, roll: Roll) -> PursuerView {
        let aimed = self.retargeted(roll.target, pacman, maze);
        let turned = PursuerView {
            direction: aimed.chosen_direction(maze, roll.pick as int),
            ..aimed
        };
        turned.advanced(maze)
    }
}

/// What `nearest_among` picks: the first direction among the first `n` that
/// no other of them beats.
pub proof fn lemma_nearest_among(valid: Seq<Direction>, n: int, from: Pos, target: Pos)
    requires
        1 <= n <= valid.len(),
    ensures
        exists|i: int|
            {
                &&& 0 <= i < n
                &&& #[trigger] valid[i] == nearest_among(valid, n, from, target)
                &&& forall|k: int|
                    0 <= k < n ==> key(valid[i], from, target) <= key(
                        #[trigger] valid[k],
                        from,
                        target,
                    )
                &&& forall|k: int|
                    0 <= k < i ==> key(valid[i], from, target) < key(
                        #[trigger] valid[k],
                        from,
                        target,
                    )
            },
    decreases n,
{
    if n > 1 {
        lemma_nearest_among(valid, n - 1, from, target);
        let best = nearest_among(valid, n - 1, from, target);
        let i = choose|i: int|
            {
                &&& 0 <= i < n - 1
                &&& #[trigger] valid[i] == best
                &&& forall|k: int|
                    0 <= k < n - 1 ==> key(valid[i], from, target) <= key(
                        #[trigger] valid[k],
                        from,
                        target,
                    )
                &&& forall|k: int|
                    0 <= k < i ==> key(valid[i], from, target) < key(
                        #[trigger] valid[k],
                        from,
                        target,
                    )
            };
        if key(valid[n - 1], from, target) < key(best, from, target) {
            assert(valid[n - 1] == nearest_among(valid, n, from, target));
        } else {
            assert(valid[i] == nearest_among(valid, n, from, target));
        }
    } else {
        assert(valid[0] == nearest_among(valid, n, from, target));
    }
}

/// A pursuer that has an open direction takes one and moves by its speed;
/// one that has none keeps its direction and stays where it is.
pub proof fn lemma_step_moves(p: PursuerView, maze: MazeView, pacman: Pos, roll: Roll)
    ensures
        ({
            let aimed = p.retargeted(roll.target, pacman, maze);
            let q = p.step(maze, pacman, roll);
            if aimed.valid_directions(maze).len() > 0 {
                &&& aimed.valid_directions(maze).contains(q.direction)
                &&& q.position == p.position.moved(q.direction, p.speed())
            } else {
                &&& q.direction == p.direction
                &&& q.position == p.position
            }
        }),
{
    let aimed = p.retargeted(roll.target, pacman, maze);
    let valid = aimed.valid_directions(maze);
    let d = aimed.chosen_direction(maze, roll.pick as int);
    lemma_valid_directions(aimed, maze);
    if valid.len() > 0 {
        if aimed.is_confused() {
            assert(valid.contains(valid[(roll.pick as int) % (valid.len() as int)]));
        } else {
            lemma_nearest_among(valid, valid.len() as int, aimed.position, aimed.target);
        }
        assert(valid.contains(d));
        assert(aimed.can_go(maze, d));
    } else {
        assert(!valid.contains(p.direction));
    }
}

/// The valid directions are exactly the open ones.
pub proof fn lemma_valid_directions(p: PursuerView, maze: MazeView)
    ensures
        forall|d: Direction| p.valid_directions(maze).contains(d) <==> p.can_go(maze, d),
        p.valid_directions(maze).len() <= 4,
{
    let up = only_if(p.can_go(maze, Direction::Up), Direction::Up);
    let down = only_if(p.can_go(maze, Direction::Down), Direction::Down);
    let left = only_if(p.can_go(maze, Direction::Left), Direction::Left);
    let right = only_if(p.can_go(maze, Direction::Right), Direction::Right);
    let valid = p.valid_directions(maze);
    assert(valid == up + down + left + right);
    assert forall|d: Direction| valid.contains(d) <==> p.can_go(maze, d) by {
        if valid.contains(d) {
            let i = choose|i: int| 0 <= i < valid.len() && valid[i] == d;
            assert(valid[i] == d);
        }
        if p.can_go(maze, d) {
            match d {
                Direction::Up => {
                    assert(valid[0] == d);
                },
                Direction::Down => {
                    assert(valid[up.len() as int] == d);
                },
                Direction::Left => {
                    assert(valid[(up.len() + down.len()) as int] == d);
                },
                Direction::Right => {
                    assert(valid[(up.len() + down.len() + left.len()) as int] == d);
                },
            }
        }
    }
}

/// Moving the target keeps a pursuer in the world, wherever an allowed choice
/// sends it.
pub proof fn lemma_retargeted_wf(p: PursuerView, choice: TargetChoice, pacman: Pos, maze: MazeView)
    requires
        p.wf(),
        maze.wf(),
        pacman.in_world(),
    ensures
        p.retargeted(choice, pacman, maze).wf(),
{
}

/// A step keeps a pursuer in the world, and one whose hitbox touched no wall
/// touches none afterwards.
pub proof fn lemma_step_wf(p: PursuerView, maze: MazeView, pacman: Pos, roll: Roll)
    requires
        p.wf(),
        maze.wf(),
        pacman.in_world(),
    ensures
        p.step(maze, pacman, roll).wf(),
        p.step(maze, pacman, roll).spawn_position == p.spawn_position,
        p.step(maze, pacman, roll).is_vulnerable == p.is_vulnerable,
        p.step(maze, pacman, roll).confused_timer == p.confused_timer,
        p.step(maze, pacman, roll).respawn_timer == p.respawn_timer,
        p.step(maze, pacman, roll).color == p.color,
        maze.is_clear(p.position, GHOST_SIZE as int) ==> maze.is_clear(
            p.step(maze, pacman, roll).position,
            GHOST_SIZE as int,
        ),
{
    lemma_retargeted_wf(p, roll.target, pacman, maze);
}

fn key_of(d: Direction, from: Point, target: Point) -> (k: i64)
    requires
        from@.in_world(),
        target@.in_world(),
    ensures
        k == key(d, from@, target@),
{
    let (sx, sy): (i64, i64) = match d {
        Direction::Up => (0, -UNIT),
        Direction::Down => (0, UNIT),
        Direction::Left => (-UNIT, 0),
        Direction::Right => (UNIT, 0),
    };
    let dx: i64 = from.x + sx - target.x;
    let dy: i64 = from.y + sy - target.y;
    assert(0 <= dx * dx <= 1_000_000_000_000_000_000 && 0 <= dy * dy
        <= 1_000_000_000_000_000_000) by (nonlinear_arith)
        requires
            -1_000_000_000 <= dx <= 1_000_000_000,
            -1_000_000_000 <= dy <= 1_000_000_000,
    ;
    dx * dx + dy * dy
}

/// The direction of `valid` whose unit step from `from` comes nearest to
/// `target`; of several equally near, the first.
pub fn nearest(valid: &Vec<Direction>, from: Point, target: Point) -> (d: Direction)
    requires
        valid.len() > 0,
        from@.in_world(),
        target@.in_world(),
    ensures
        d == nearest_among(valid@, valid.len() as int, from@, target@),
{
    let mut best: Direction = valid[0];
    let mut best_key: i64 = key_of(best, from, target);
    let mut i: usize = 1;
    while i < valid.len()
        invariant
            1 <= i <= valid.len(),
            from@.in_world(),
            target@.in_world(),
            best == nearest_among(valid@, i as int, from@, target@),
            best_key == key(best, from@, target@),
        decreases valid.len() - i,
    {
        let k: i64 = key_of(valid[i], from, target);
        if k < best_key {
            best = valid[i];
            best_key = k;
        }
        i += 1;
    }
    best
}

fn random_point(maze: &Maze, rng: &mut StdRng) -> (p: Point)
    ensures
        (TargetChoice::Wander(p)).allowed(true, maze@),
{
    proof {
        use_type_invariant(maze);
    }
    let x: u64 = below(rng, (maze.width() * CELL_SIZE) as u64);
    let y: u64 = below(rng, (maze.height() * CELL_SIZE) as u64);
    Point { x: x as i64, y: y as i64 }
}

/// Draws what a pursuer does about its target in a tick. A confused pursuer
/// now and then picks a point of the play area; any other pursuer, half as
/// often, picks such a point or, less often, the player.
pub fn draw_target(confused: bool, maze: &Maze, rng: &mut StdRng) -> (choice: TargetChoice)
    ensures
        choice.allowed(confused, maze@),
{
    let one_in: u32 = if confused {
        CONFUSED_RETARGET_ONE_IN
    } else {
        RETARGET_ONE_IN
    };
    let retarget: bool = chance(rng, 1, one_in);
    let wander: bool = if !retarget {
        false
    } else if confused {
        true
    } else {
        chance(rng, WANDER_OF_FIVE, 5)
    };
    let point: Point = if wander {
        random_point(maze, rng)
    } else {
        Point { x: 0, y: 0 }
    };
    target_choice(confused, retarget, wander, point)
}

impl TargetChoice {
    /// What the draws of a tick come to. Without the draw for a new target
    /// the old one is kept. With it, a confused pursuer heads for `point`, and
    /// any other heads for `point` if the second draw says wander, else for
    /// the player.
    pub open spec fn from_draws(
        confused: bool,
        retarget: bool,
        wander: bool,
        point: Point,
    ) -> TargetChoice {
        if !retarget {
            TargetChoice::Keep
        } else if confused || wander {
            TargetChoice::Wander(point)
        } else {
            TargetChoice::Chase
        }
    }
}

/// What a pursuer does about its target once the draws are made: `retarget`
/// says whether it picks a new one, `wander` whether that is `point` rather
/// than the player. A confused pursuer that picks a new target always takes
/// `point`.
pub fn target_choice(confused: bool, retarget: bool, wander: bool, point: Point) -> (choice:
    TargetChoice)
    ensures
        choice == TargetChoice::from_draws(confused, retarget, wander, point),
{
    if !retarget {
        TargetChoice::Keep
    } else if confused || wander {
        TargetChoice::Wander(point)
    } else {
        TargetChoice::Chase
    }
}

/// The allowed choices are exactly what draws with a point of the play area
/// can come to.
pub proof fn lemma_allowed_is_what_draws_give(choice: TargetChoice, confused: bool, maze: MazeView)
    requires
        maze.wf(),
    ensures
        choice.allowed(confused, maze) <==> exists|retarget: bool, wander: bool, point: Point|
            (TargetChoice::Wander(point)).allowed(confused, maze) && choice
                == #[trigger] TargetChoice::from_draws(confused, retarget, wander, point),
{
    if choice.allowed(confused, maze) {
        let origin = Point { x: 0, y: 0 };
        match choice {
            TargetChoice::Keep => {
                assert(choice == TargetChoice::from_draws(confused, false, false, origin));
            },
            TargetChoice::Wander(p) => {
                assert(choice == TargetChoice::from_draws(confused, true, true, p));
            },
            TargetChoice::Chase => {
                assert(choice == TargetChoice::from_draws(confused, true, false, origin));
            },
        }
    }
}

impl Pursuer {
    /// A pursuer that enters the game with its hitbox corner at `(x, y)`.
    pub fn new(x: i64, y: i64, color: Color) -> (p: Pursuer)
        ensures
            p@ == PursuerView::new(Pos { x: x as int, y: y as int }, color),
    {
        Pursuer {
            position: Point { x, y },
            direction: Direction::Left,
            color,
            target: Point { x, y },
            is_vulnerable: false,
            respawn_timer: 0,
            spawn_position: Point { x, y },
            confused_timer: 0,
        }
    }

    /// Puts a captured pursuer back at its spawn point, confused.
    pub fn reset_position(&mut self)
        ensures
            final(self)@ == old(self)@.reset(),
    {
        self.position = self.spawn_position;
        self.is_vulnerable = false;
        self.respawn_timer = 0;
        self.direction = Direction::Left;
        self.confused_timer = CONFUSED_DURATION;
    }

    /// Distance covered in a tick.
    pub fn speed(&self) -> (s: i64)
        ensures
            s == self@.speed(),
    {
        if self.is_vulnerable {
            VULNERABLE_GHOST_SPEED
        } else {
            GHOST_SPEED
        }
    }

    /// The directions in which one tick's step is open, in the order Up, Down,
    /// Left, Right.
    pub fn valid_directions(&self, maze: &Maze) -> (valid: Vec<Direction>)
        ensures
            valid@ == self@.valid_directions(maze@),
    {
        let hitbox: Rect = self.position.hitbox(GHOST_SIZE);
        let speed: i64 = self.speed();
        let mut valid: Vec<Direction> = Vec::new();
        if maze.try_move(&hitbox, Direction::Up, speed).is_some() {
            valid.push(Direction::Up);
        }
        if maze.try_move(&hitbox, Direction::Down, speed).is_some() {
            valid.push(Direction::Down);
        }
        if maze.try_move(&hitbox, Direction::Left, speed).is_some() {
            valid.push(Direction::Left);
        }
        if maze.try_move(&hitbox, Direction::Right, speed).is_some() {
            valid.push(Direction::Right);
        }
        assert(valid@ =~= self@.valid_directions(maze@));
        valid
    }

    /// Takes `dt` microseconds off the timers, which stop at zero.
    pub fn tick(&mut self, dt: u64)
        ensures
            final(self)@ == old(self)@.ticked(dt as nat),
    {
        self.confused_timer = self.confused_timer.saturating_sub(dt);
        self.respawn_timer = self.respawn_timer.saturating_sub(dt);
    }

    /// Whether the confusion that follows a capture still lasts.
    pub fn is_confused(&self) -> (b: bool)
        ensures
            b == self@.is_confused(),
    {
        self.confused_timer > 0
    }

    /// Whether the pursuer is out of the game for now: it is not drawn and
    /// collides with nobody.
    pub fn is_respawning(&self) -> (b: bool)
        ensures
            b == self@.is_respawning(),
    {
        self.respawn_timer > 0
    }

    /// Sets the target as `choice` says; a choice that is not allowed changes
    /// nothing.
    pub fn retarget(&mut self, choice: TargetChoice, pacman: Point, maze: &Maze)
        ensures
            final(self)@ == old(self)@.retargeted(choice, pacman@, maze@),
    {
        proof {
            use_type_invariant(maze);
        }
        match choice {
            TargetChoice::Keep => {},
            TargetChoice::Wander(p) => {
                if 0 <= p.x && p.x < maze.width() * CELL_SIZE && 0 <= p.y && p.y < maze.height()
                    * CELL_SIZE {
                    self.target = p;
                }
            },
            TargetChoice::Chase => {
                if !self.is_confused() {
                    self.target = pacman;
                }
            },
        }
    }

    fn choose_among(
        &self,
        valid: &Vec<Direction>,
        pick: usize,
        Ghost(maze): Ghost<MazeView>,
    ) -> (d: Direction)
        requires
            self@.wf(),
            valid@ == self@.valid_directions(maze),
        ensures
            d == self@.chosen_direction(maze, pick as int),
    {
        if valid.len() == 0 {
            self.direction
        } else if self.is_confused() {
            valid[pick % valid.len()]
        } else {
            nearest(valid, self.position, self.target)
        }
    }

    /// Moves one step along the direction held, or not at all if that step is
    /// not open.
    pub fn advance(&mut self, maze: &Maze)
        ensures
            final(self)@ == old(self)@.advanced(maze@),
    {
        let hitbox: Rect = self.position.hitbox(GHOST_SIZE);
        match maze.try_move(&hitbox, self.direction, self.speed()) {
            Some(rect) => {
                self.position = Point { x: rect.x, y: rect.y };
            },
            None => {},
        }
    }

    /// One tick of this pursuer with what chance decides given by `roll`:
    /// choose the target, choose among the open directions, move.
    pub fn step(&mut self, maze: &Maze, pacman: Point, roll: Roll)
        requires
            old(self)@.wf(),
            pacman@.in_world(),
        ensures
            final(self)@ == old(self)@.step(maze@, pacman@, roll),
            final(self)@.wf(),
    {
        proof {
            use_type_invariant(maze);
            lemma_retargeted_wf(self@, roll.target, pacman@, maze@);
            lemma_step_wf(self@, maze@, pacman@, roll);
        }
        self.retarget(roll.target, pacman, maze);
        let valid: Vec<Direction> = self.valid_directions(maze);
        self.direction = self.choose_among(&valid, roll.pick, Ghost(maze@));
        self.advance(maze);
    }

    /// One tick of this pursuer with the player's hitbox corner at
    /// `(pacman_x, pacman_y)`. What chance decided is returned, so that `step`
    /// can repeat the tick.
    pub fn update(
        &mut self,
        maze: &Maze,
        pacman_x: i64,
        pacman_y: i64,
        rng: &mut StdRng,
    ) -> (roll: Roll)
        requires
            old(self)@.wf(),
            (Pos { x: pacman_x as int, y: pacman_y as int }).in_world(),
        ensures
            roll.target.allowed(old(self)@.is_confused(), maze@),
            final(self)@ == old(self)@.step(
                maze@,
                Pos { x: pacman_x as int, y: pacman_y as int },
                roll,
            ),
            final(self)@.wf(),
    {
        let pacman = Point { x: pacman_x, y: pacman_y };
        let confused: bool = self.is_confused();
        let target: TargetChoice = draw_target(confused, maze, rng);
        proof {
            use_type_invariant(maze);
            lemma_retargeted_wf(self@, target, pacman@, maze@);
        }
        self.retarget(target, pacman, maze);
        let valid: Vec<Direction> = self.valid_directions(maze);
        let pick: usize = if confused && valid.len() > 0 {
            below(rng, valid.len() as u64) as usize
        } else {
            0
        };
        let roll = Roll { target, pick };
        proof {
            lemma_step_wf(old(self)@, maze@, pacman@, roll);
        }
        self.direction = self.choose_among(&valid, pick, Ghost(maze@));
        self.advance(maze);
        roll
    }
}

} // verus!
