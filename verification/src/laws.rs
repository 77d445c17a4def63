//! What holds of every game, proved of the model of a tick.

use crate::game::{
    award, out_of_reach, roll_at, GameView, Phase, DOT_REACH, GHOST_POINTS, POWER_PELLET_DURATION,
    POWER_PELLET_REACH,
};
use crate::geometry::{
    lemma_axis_snapped, Direction, Pos, GHOST_SIZE, MOVEMENT_SPEED, PACMAN_SIZE,
};
use crate::maze::{
    holds, lemma_ghost_spawns_clear, lemma_maze_of_wf, load_error, marked, maze_of, middle_cell,
    MazeView, GHOST, WALL,
};
use crate::pursuer::{lemma_step_wf, Roll};
use vstd::prelude::*;

verus! {

/// Snapping a hitbox that touches no wall to the nearest cell centre gives a
/// hitbox that touches no wall.
pub proof fn lemma_snapped_clear(maze: MazeView, p: Pos)
    requires
        maze.wf(),
        maze.is_clear(p, PACMAN_SIZE as int),
    ensures
        maze.is_clear(p.snapped(), PACMAN_SIZE as int),
        p.snapped().aligned(),
{
    lemma_axis_snapped(p.x);
    lemma_axis_snapped(p.y);
    let q = p.snapped();
    assert forall|i: int| 0 <= i < maze.walls.len() implies !(#[trigger] maze.walls[i]).overlaps(
        q.hitbox(PACMAN_SIZE as int),
    ) by {
        let wall = maze.walls[i];
        assert(wall.is_cell());
        if wall.overlaps(q.hitbox(PACMAN_SIZE as int)) {
            assert(wall.overlaps(p.hitbox(PACMAN_SIZE as int)));
        }
    }
}

/// A game starts in a state that `wf` admits, and with every pursuer clear of
/// the walls if the spawn points are.
pub proof fn lemma_start_wf(maze: MazeView)
    requires
        maze.wf(),
    ensures
        GameView::start(maze).wf(),
        maze.ghost_spawns_clear() ==> GameView::start(maze).ghosts_clear(),
{
}

/// Taking note of a request keeps `wf` and `ghosts_clear`.
pub proof fn lemma_with_request_wf(g: GameView, requested: Option<Direction>)
    requires
        g.wf(),
    ensures
        g.with_request(requested).wf(),
        g.ghosts_clear() ==> g.with_request(requested).ghosts_clear(),
{
}

/// Running the power pellet's time keeps `wf` and `ghosts_clear`.
pub proof fn lemma_power_ticked_wf(g: GameView, dt: nat)
    requires
        g.wf(),
    ensures
        g.power_ticked(dt).wf(),
        g.ghosts_clear() ==> g.power_ticked(dt).ghosts_clear(),
{
}

/// Running the pursuers' timers keeps `wf` and `ghosts_clear`.
pub proof fn lemma_timers_ticked_wf(g: GameView, dt: nat)
    requires
        g.wf(),
    ensures
        g.timers_ticked(dt).wf(),
        g.ghosts_clear() ==> g.timers_ticked(dt).ghosts_clear(),
{
}

/// Eating power pellets keeps `wf` and `ghosts_clear`.
pub proof fn lemma_power_pellets_eaten_wf(g: GameView)
    requires
        g.wf(),
    ensures
        g.power_pellets_eaten().wf(),
        g.ghosts_clear() ==> g.power_pellets_eaten().ghosts_clear(),
{
}

/// Settling collisions keeps `wf` and `ghosts_clear`.
pub proof fn lemma_collided_wf(g: GameView, i: int)
    requires
        g.wf(),
    ensures
        g.collided_from(i).wf(),
        g.ghosts_clear() ==> g.collided_from(i).ghosts_clear(),
        g.collided_from(i).ghosts.len() == g.ghosts.len(),
    decreases g.ghosts.len() - i,
{
    if g.lives == 0 || i < 0 || i >= g.ghosts.len() {
    } else if !g.touches(g.ghosts[i]) {
        lemma_collided_wf(g, i + 1);
    } else if g.ghosts[i].is_vulnerable {
        let next = GameView {
            ghosts: g.ghosts.update(i, g.ghosts[i].reset()),
            score: award(g.score, GHOST_POINTS as nat),
            ..g
        };
        assert(next.wf());
        lemma_collided_wf(next, i + 1);
    } else {
    }
}

/// Turning keeps `wf` and `ghosts_clear`.
pub proof fn lemma_turned_wf(g: GameView)
    requires
        g.wf(),
    ensures
        g.turned().wf(),
        g.ghosts_clear() ==> g.turned().ghosts_clear(),
{
}

/// Moving the player keeps `wf` and `ghosts_clear`.
pub proof fn lemma_pacman_advanced_wf(g: GameView)
    requires
        g.wf(),
    ensures
        g.pacman_advanced().wf(),
        g.ghosts_clear() ==> g.pacman_advanced().ghosts_clear(),
{
    lemma_snapped_clear(g.maze, g.pacman);
}

/// Moving the pursuers keeps `wf` and `ghosts_clear`.
pub proof fn lemma_ghosts_advanced_wf(g: GameView, rolls: Seq<Roll>)
    requires
        g.wf(),
    ensures
        g.ghosts_advanced(rolls).wf(),
        g.ghosts_clear() ==> g.ghosts_advanced(rolls).ghosts_clear(),
{
    let h = g.ghosts_advanced(rolls);
    assert forall|i: int| 0 <= i < h.ghosts.len() implies (#[trigger] h.ghosts[i]).wf() && (
    !g.power_pellet_active ==> !h.ghosts[i].is_vulnerable) && (g.ghosts_clear() ==> g.maze.is_clear(
        h.ghosts[i].position,
        GHOST_SIZE as int,
    ) && g.maze.is_clear(h.ghosts[i].spawn_position, GHOST_SIZE as int)) by {
        assert(g.ghosts[i].wf());
        lemma_step_wf(g.ghosts[i], g.maze, g.pacman, roll_at(rolls, i));
    }
}

/// Eating dots keeps `wf` and `ghosts_clear`.
pub proof fn lemma_dots_eaten_wf(g: GameView)
    requires
        g.wf(),
    ensures
        g.dots_eaten().wf(),
        g.ghosts_clear() ==> g.dots_eaten().ghosts_clear(),
{
}

/// The first part of a tick keeps `wf` and `ghosts_clear`.
pub proof fn lemma_prepared_wf(g: GameView, dt: nat, requested: Option<Direction>)
    requires
        g.wf(),
    ensures
        g.prepared(dt, requested).wf(),
        g.ghosts_clear() ==> g.prepared(dt, requested).ghosts_clear(),
{
    let a = g.with_request(requested);
    lemma_with_request_wf(g, requested);
    let b = a.power_ticked(dt);
    lemma_power_ticked_wf(a, dt);
    let c = b.timers_ticked(dt);
    lemma_timers_ticked_wf(b, dt);
    let d = c.power_pellets_eaten();
    lemma_power_pellets_eaten_wf(c);
    let e = d.collided_from(0);
    lemma_collided_wf(d, 0);
    if e.phase != Phase::GameOverMenu {
        lemma_turned_wf(e);
        lemma_pacman_advanced_wf(e.turned());
    }
}

/// Wall containment. A tick keeps `wf`, so the player's hitbox never touches
/// a wall; and if no pursuer's hitbox touches a wall, here or on its spawn
/// point, none does after the tick.
pub proof fn lemma_update_wf(g: GameView, dt: nat, requested: Option<Direction>, rolls: Seq<Roll>)
    requires
        g.wf(),
    ensures
        g.update(dt, requested, rolls).wf(),
        g.ghosts_clear() ==> g.update(dt, requested, rolls).ghosts_clear(),
{
    lemma_prepared_wf(g, dt, requested);
    let ready = g.prepared(dt, requested);
    if ready.phase != Phase::GameOverMenu {
        lemma_ghosts_advanced_wf(ready, rolls);
        lemma_dots_eaten_wf(ready.ghosts_advanced(rolls));
    }
}

/// What settling collisions leaves alone: the maze, the dots and power
/// pellets, the running time of a power pellet, and every pursuer's spawn
/// point. At most one life is lost. If one is lost and one is left, the
/// player stands still on its spawn point with no request; else it stays
/// where it is and moves as before. Every pursuer keeps its colour and is
/// where it was or on its spawn point.
pub proof fn lemma_collided_keeps(g: GameView, i: int)
    requires
        g.wf(),
    ensures
        ({
            let h = g.collided_from(i);
            &&& h.maze == g.maze
            &&& h.dots == g.dots
            &&& h.power_pellets == g.power_pellets
            &&& h.power_pellet_active == g.power_pellet_active
            &&& h.power_pellet_timer == g.power_pellet_timer
            &&& h.ghosts.len() == g.ghosts.len()
            &&& h.lives <= g.lives
            &&& g.lives <= h.lives + 1
            &&& if 0 < h.lives < g.lives {
                h.pacman == g.maze.pacman_spawn && h.current_direction is None
                    && h.requested_direction is None
            } else {
                h.pacman == g.pacman && h.current_direction == g.current_direction
                    && h.requested_direction == g.requested_direction
            }
            &&& h.lives == 0 <==> h.phase == Phase::GameOverMenu
            &&& forall|k: int|
                0 <= k < g.ghosts.len() ==> (#[trigger] h.ghosts[k]).spawn_position
                    == g.ghosts[k].spawn_position && h.ghosts[k].color == g.ghosts[k].color && (
                h.ghosts[k].position == g.ghosts[k].position || h.ghosts[k].position
                    == g.ghosts[k].spawn_position)
        }),
    decreases g.ghosts.len() - i,
{
    if g.lives == 0 || i < 0 || i >= g.ghosts.len() {
    } else if !g.touches(g.ghosts[i]) {
        lemma_collided_keeps(g, i + 1);
    } else if g.ghosts[i].is_vulnerable {
        let next = GameView {
            ghosts: g.ghosts.update(i, g.ghosts[i].reset()),
            score: award(g.score, GHOST_POINTS as nat),
            ..g
        };
        assert(next.wf());
        lemma_collided_keeps(next, i + 1);
    } else {
    }
}

/// The state of a tick when collisions have just been settled.
pub open spec fn settled(g: GameView, dt: nat, requested: Option<Direction>) -> GameView {
    g.with_request(requested).power_ticked(dt).timers_ticked(
        dt,
    ).power_pellets_eaten().collided_from(0)
}

/// Grid-turn gating. In a tick that begins with the player away from the
/// centre of a cell, the player does not turn: after it the player moves as
/// before or stands still. It stands still, having moved before, in two cases
/// only: the tick took a life and left one, or it took none and the player's
/// next step was not open.
pub proof fn lemma_turn_needs_center(
    g: GameView,
    dt: nat,
    requested: Option<Direction>,
    rolls: Seq<Roll>,
)
    requires
        g.wf(),
        !g.pacman.is_at_grid_center(),
    ensures
        ({
            let h = g.update(dt, requested, rolls);
            &&& h.current_direction == g.current_direction || h.current_direction is None
            &&& h.current_direction != g.current_direction <==> g.current_direction is Some && (0
                < h.lives < g.lives || (0 < h.lives && h.lives == g.lives && g.maze.try_move(
                g.pacman.hitbox(PACMAN_SIZE as int),
                g.current_direction->0,
                MOVEMENT_SPEED as int,
            ) is None))
        }),
{
    let before = g.with_request(requested).power_ticked(dt).timers_ticked(dt).power_pellets_eaten();
    lemma_with_request_wf(g, requested);
    lemma_power_ticked_wf(g.with_request(requested), dt);
    lemma_timers_ticked_wf(g.with_request(requested).power_ticked(dt), dt);
    lemma_power_pellets_eaten_wf(g.with_request(requested).power_ticked(dt).timers_ticked(dt));
    lemma_collided_keeps(before, 0);
    lemma_collided_wf(before, 0);
    let s = before.collided_from(0);
    let h = g.update(dt, requested, rolls);
    assert(before.pacman == g.pacman && before.current_direction == g.current_direction
        && before.lives == g.lives && before.maze == g.maze);
    if s.phase == Phase::GameOverMenu {
        assert(h == s);
    } else {
        let moved = s.turned().pacman_advanced();
        assert(h.current_direction == moved.current_direction);
        assert(h.lives == s.lives);
        if s.lives < g.lives {
            assert(s.requested_direction is None);
            assert(s.turned() == s);
            assert(moved == s);
        } else {
            assert(s.pacman == g.pacman);
            assert(s.turned() == s);
        }
    }
}

/// Life-loss transition. When a tick takes the last life, the game is over
/// after that tick, and the tick ends where collisions were settled: nothing
/// moves after that. The player is where it was before the tick, and every
/// pursuer is where it was or, if it was captured earlier in the same pass,
/// on its spawn point.
pub proof fn lemma_last_life_ends_tick(
    g: GameView,
    dt: nat,
    requested: Option<Direction>,
    rolls: Seq<Roll>,
)
    requires
        g.wf(),
        g.lives > 0,
        g.update(dt, requested, rolls).lives == 0,
    ensures
        ({
            let h = g.update(dt, requested, rolls);
            &&& h.phase == Phase::GameOverMenu
            &&& h == settled(g, dt, requested)
            &&& h.pacman == g.pacman
            &&& h.ghosts.len() == g.ghosts.len()
            &&& forall|k: int|
                0 <= k < g.ghosts.len() ==> (#[trigger] h.ghosts[k]).position
                    == g.ghosts[k].position || h.ghosts[k].position == g.ghosts[k].spawn_position
        }),
{
    let before = g.with_request(requested).power_ticked(dt).timers_ticked(dt).power_pellets_eaten();
    lemma_with_request_wf(g, requested);
    lemma_power_ticked_wf(g.with_request(requested), dt);
    lemma_timers_ticked_wf(g.with_request(requested).power_ticked(dt), dt);
    lemma_power_pellets_eaten_wf(g.with_request(requested).power_ticked(dt).timers_ticked(dt));
    lemma_collided_keeps(before, 0);
    lemma_collided_wf(before, 0);
    let s = before.collided_from(0);
    lemma_update_wf(g, dt, requested, rolls);
    if s.phase != Phase::GameOverMenu {
        lemma_turned_wf(s);
        lemma_pacman_advanced_wf(s.turned());
    }
    let h = g.update(dt, requested, rolls);
    assert forall|k: int| 0 <= k < g.ghosts.len() implies (#[trigger] h.ghosts[k]).position
        == g.ghosts[k].position || h.ghosts[k].position == g.ghosts[k].spawn_position by {
        assert(before.ghosts[k].position == g.ghosts[k].position);
        assert(before.ghosts[k].spawn_position == g.ghosts[k].spawn_position);
        assert(s.ghosts[k].spawn_position == before.ghosts[k].spawn_position);
    }
}

/// A game is over exactly when no life is left, in every state that `wf`
/// admits; and a tick takes at most one life and gives none.
pub proof fn lemma_lives(g: GameView, dt: nat, requested: Option<Direction>, rolls: Seq<Roll>)
    requires
        g.wf(),
    ensures
        g.lives == 0 <==> g.phase == Phase::GameOverMenu,
        g.update(dt, requested, rolls).lives <= g.lives <= g.update(dt, requested, rolls).lives + 1,
        g.lives == 0 ==> g.update(dt, requested, rolls).pacman == g.pacman,
{
    let before = g.with_request(requested).power_ticked(dt).timers_ticked(dt).power_pellets_eaten();
    lemma_with_request_wf(g, requested);
    lemma_power_ticked_wf(g.with_request(requested), dt);
    lemma_timers_ticked_wf(g.with_request(requested).power_ticked(dt), dt);
    lemma_power_pellets_eaten_wf(g.with_request(requested).power_ticked(dt).timers_ticked(dt));
    lemma_collided_keeps(before, 0);
    lemma_collided_wf(before, 0);
}

/// Power-up symmetry, the start. Eating a power pellet makes every pursuer
/// vulnerable at once and starts the full running time.
pub proof fn lemma_power_pellet_makes_all_vulnerable(g: GameView)
    requires
        g.reaches_power_pellet(),
    ensures
        g.power_pellets_eaten().power_pellet_active,
        g.power_pellets_eaten().power_pellet_timer == POWER_PELLET_DURATION,
        g.power_pellets_eaten().ghosts.len() == g.ghosts.len(),
        forall|i: int|
            0 <= i < g.ghosts.len() ==> (#[trigger] g.power_pellets_eaten().ghosts[i]).is_vulnerable,
        g.power_pellets_eaten().power_pellets.len() < g.power_pellets.len(),
{
    let keep = out_of_reach(g.pacman_centre(), POWER_PELLET_REACH as int);
    lemma_filter_drops(g.power_pellets, keep);
}

/// Power-up symmetry, the end. When the running time of a power pellet is
/// up, every pursuer stops being vulnerable at once; until then, the time
/// left goes down by exactly the time that passes.
pub proof fn lemma_power_pellet_runs_out(g: GameView, dt: nat)
    requires
        g.wf(),
        g.power_pellet_active,
    ensures
        dt >= g.power_pellet_timer ==> !g.power_ticked(dt).power_pellet_active && forall|i: int|
            0 <= i < g.ghosts.len() ==> !(#[trigger] g.power_ticked(dt).ghosts[i]).is_vulnerable,
        dt < g.power_pellet_timer ==> g.power_ticked(dt).power_pellet_active && g.power_ticked(
            dt,
        ).power_pellet_timer == g.power_pellet_timer - dt && g.power_ticked(dt).ghosts == g.ghosts,
{
}

/// A filter keeps no more than there is, everything if everything passes,
/// and less if something fails.
pub proof fn lemma_filter_drops<A>(s: Seq<A>, keep: spec_fn(A) -> bool)
    ensures
        s.filter(keep).len() <= s.len(),
        (forall|i: int| 0 <= i < s.len() ==> keep(#[trigger] s[i])) ==> s.filter(keep) == s,
        (exists|i: int| 0 <= i < s.len() && !keep(#[trigger] s[i])) ==> s.filter(keep).len()
            < s.len(),
        forall|i: int| 0 <= i < s.filter(keep).len() ==> keep(#[trigger] s.filter(keep)[i]),
    decreases s.len(),
{
    reveal(Seq::filter);
    if s.len() > 0 {
        let front = s.drop_last();
        lemma_filter_drops(front, keep);
        if forall|i: int| 0 <= i < s.len() ==> keep(#[trigger] s[i]) {
            assert forall|i: int| 0 <= i < front.len() implies keep(#[trigger] front[i]) by {
                assert(front[i] == s[i]);
            }
            assert(keep(s.last()));
            assert(front.push(s.last()) =~= s);
        }
        if exists|i: int| 0 <= i < s.len() && !keep(#[trigger] s[i]) {
            let i = choose|i: int| 0 <= i < s.len() && !keep(#[trigger] s[i]);
            if i < front.len() {
                assert(front[i] == s[i]);
            }
        }
    }
}

/// Pickup idempotence. Once the dots in reach are eaten none is left in
/// reach, so eating again changes nothing: no dot is paid for twice.
pub proof fn lemma_dots_eaten_once(g: GameView)
    ensures
        forall|i: int|
            0 <= i < g.dots_eaten().dots.len() ==> !g.pacman_centre().within(
                #[trigger] g.dots_eaten().dots[i],
                DOT_REACH as int,
            ),
        g.dots_eaten().dots_eaten().dots == g.dots_eaten().dots,
        g.dots_eaten().dots_eaten().score == g.dots_eaten().score,
        g.dots_eaten().dots_eaten() == g.dots_eaten(),
{
    let keep = out_of_reach(g.pacman_centre(), DOT_REACH as int);
    lemma_filter_drops(g.dots, keep);
    lemma_filter_drops(g.dots.filter(keep), keep);
}

/// What a tick is given: the time since the last one, the direction asked for
/// since then, and what chance decides for the pursuers.
pub struct Tick {
    pub dt: nat,
    pub requested: Option<Direction>,
    pub rolls: Seq<Roll>,
}

/// The state after the ticks of `ticks`, one after the other, from `g`.
pub open spec fn run(g: GameView, ticks: Seq<Tick>) -> GameView
    decreases ticks.len(),
{
    if ticks.len() == 0 {
        g
    } else {
        run(g, ticks.drop_last()).update(
            ticks.last().dt,
            ticks.last().requested,
            ticks.last().rolls,
        )
    }
}

/// The time that passes in `ticks`.
pub open spec fn total_dt(ticks: Seq<Tick>) -> nat
    decreases ticks.len(),
{
    if ticks.len() == 0 {
        0
    } else {
        total_dt(ticks.drop_last()) + ticks.last().dt
    }
}

/// Wall containment over a whole game. However many ticks pass and whatever
/// they are given, the state stays one that `wf` admits, so the player's
/// hitbox never touches a wall; and if no pursuer's hitbox touches a wall at
/// first, here or on its spawn point, none ever does.
pub proof fn lemma_run_wf(g: GameView, ticks: Seq<Tick>)
    requires
        g.wf(),
    ensures
        run(g, ticks).wf(),
        g.ghosts_clear() ==> run(g, ticks).ghosts_clear(),
    decreases ticks.len(),
{
    if ticks.len() > 0 {
        lemma_run_wf(g, ticks.drop_last());
        lemma_update_wf(
            run(g, ticks.drop_last()),
            ticks.last().dt,
            ticks.last().requested,
            ticks.last().rolls,
        );
    }
}

/// Grid-turn gating over a whole game. As long as every tick begins with the
/// player away from the centre of a cell, whatever direction is asked for, the
/// player moves as it did at first or stands still.
pub proof fn lemma_run_turn_needs_center(g: GameView, ticks: Seq<Tick>)
    requires
        g.wf(),
        forall|k: int|
            0 <= k < ticks.len() ==> !(#[trigger] run(g, ticks.take(k))).pacman.is_at_grid_center(),
    ensures
        run(g, ticks).current_direction == g.current_direction || run(
            g,
            ticks,
        ).current_direction is None,
    decreases ticks.len(),
{
    if ticks.len() > 0 {
        let front = ticks.drop_last();
        assert(front =~= ticks.take(ticks.len() - 1));
        assert forall|k: int| 0 <= k < front.len() implies !(#[trigger] run(
            g,
            front.take(k),
        )).pacman.is_at_grid_center() by {
            assert(front.take(k) =~= ticks.take(k));
        }
        lemma_run_turn_needs_center(g, front);
        lemma_run_wf(g, front);
        lemma_turn_needs_center(
            run(g, front),
            ticks.last().dt,
            ticks.last().requested,
            ticks.last().rolls,
        );
    }
}

/// What a tick does to the power pellets and their running time. No power
/// pellet ever comes back. In a tick that eats one, the full time starts to
/// run. In any other tick the time left goes down by the time that passes,
/// and when none is left the time is up.
pub proof fn lemma_update_power(
    g: GameView,
    dt: nat,
    requested: Option<Direction>,
    rolls: Seq<Roll>,
)
    requires
        g.wf(),
    ensures
        ({
            let h = g.update(dt, requested, rolls);
            &&& h.power_pellets.len() <= g.power_pellets.len()
            &&& h.power_pellets.len() < g.power_pellets.len() ==> h.power_pellet_active
                && h.power_pellet_timer == POWER_PELLET_DURATION
            &&& h.power_pellets.len() == g.power_pellets.len() ==> h.power_pellet_active == (
            g.power_pellet_active && dt < g.power_pellet_timer) && h.power_pellet_timer == (if dt
                < g.power_pellet_timer {
                g.power_pellet_timer - dt
            } else {
                0
            })
        }),
{
    let a = g.with_request(requested);
    lemma_with_request_wf(g, requested);
    let b = a.power_ticked(dt);
    lemma_power_ticked_wf(a, dt);
    let c = b.timers_ticked(dt);
    lemma_timers_ticked_wf(b, dt);
    let d = c.power_pellets_eaten();
    lemma_power_pellets_eaten_wf(c);
    lemma_filter_drops(
        c.power_pellets,
        out_of_reach(c.pacman_centre(), POWER_PELLET_REACH as int),
    );
    lemma_collided_keeps(d, 0);
}

/// Power-up symmetry over a whole game. From a state in which a power
/// pellet's time is running, through ticks in which no further power pellet
/// is eaten: as long as less time has passed than was left, the time is still
/// running, with exactly that much less left; once that much has passed, the
/// time is up and no pursuer is vulnerable, not one.
pub proof fn lemma_run_power_window(g: GameView, ticks: Seq<Tick>)
    requires
        g.wf(),
        g.power_pellet_active,
        run(g, ticks).power_pellets.len() == g.power_pellets.len(),
    ensures
        total_dt(ticks) < g.power_pellet_timer ==> run(g, ticks).power_pellet_active && run(
            g,
            ticks,
        ).power_pellet_timer == g.power_pellet_timer - total_dt(ticks),
        total_dt(ticks) >= g.power_pellet_timer ==> !run(g, ticks).power_pellet_active
            && forall|i: int|
            0 <= i < run(g, ticks).ghosts.len() ==> !(#[trigger] run(g, ticks).ghosts[i]).is_vulnerable,
    decreases ticks.len(),
{
    lemma_run_wf(g, ticks);
    if ticks.len() > 0 {
        let front = ticks.drop_last();
        let last = ticks.last();
        lemma_run_power_pellets(g, front);
        lemma_run_wf(g, front);
        lemma_update_power(run(g, front), last.dt, last.requested, last.rolls);
        lemma_run_power_window(g, front);
    }
}

/// No run of ticks brings a power pellet back.
pub proof fn lemma_run_power_pellets(g: GameView, ticks: Seq<Tick>)
    requires
        g.wf(),
    ensures
        run(g, ticks).power_pellets.len() <= g.power_pellets.len(),
    decreases ticks.len(),
{
    if ticks.len() > 0 {
        let front = ticks.drop_last();
        let last = ticks.last();
        lemma_run_power_pellets(g, front);
        lemma_run_wf(g, front);
        lemma_update_power(run(g, front), last.dt, last.requested, last.rolls);
    }
}

/// Pickup idempotence over two ticks. A tick that ends with the player where
/// the tick before left it eats no dot: what was in reach there is gone.
pub proof fn lemma_second_tick_eats_no_dot(g: GameView, first: Tick, second: Tick)
    requires
        g.wf(),
        run(g, seq![first, second]).pacman == run(g, seq![first]).pacman,
    ensures
        run(g, seq![first, second]).dots == run(g, seq![first]).dots,
{
    let one = seq![first];
    let two = seq![first, second];
    assert(one.drop_last() =~= Seq::<Tick>::empty());
    assert(two.drop_last() =~= one);
    assert(run(g, one.drop_last()) == g);
    let h = g.update(first.dt, first.requested, first.rolls);
    assert(run(g, one) == h);
    assert(run(g, two) == h.update(second.dt, second.requested, second.rolls));
    lemma_update_wf(g, first.dt, first.requested, first.rolls);
    lemma_prepared_wf(g, first.dt, first.requested);
    lemma_prepared_keeps_dots(g, first.dt, first.requested);
    lemma_prepared_keeps_dots(h, second.dt, second.requested);
    let ready = g.prepared(first.dt, first.requested);
    if ready.phase != Phase::GameOverMenu {
        lemma_dots_eaten_once(ready.ghosts_advanced(first.rolls));
    }
}

/// The first part of a tick eats no dot.
pub proof fn lemma_prepared_keeps_dots(g: GameView, dt: nat, requested: Option<Direction>)
    requires
        g.wf(),
    ensures
        g.prepared(dt, requested).dots == g.dots,
        g.phase == Phase::GameOverMenu ==> g.prepared(dt, requested).phase == Phase::GameOverMenu,
{
    let a = g.with_request(requested);
    lemma_with_request_wf(g, requested);
    let b = a.power_ticked(dt);
    lemma_power_ticked_wf(a, dt);
    let c = b.timers_ticked(dt);
    lemma_timers_ticked_wf(b, dt);
    let d = c.power_pellets_eaten();
    lemma_power_pellets_eaten_wf(c);
    lemma_collided_keeps(d, 0);
    lemma_collided_wf(d, 0);
}

/// What can be done to a game from outside: a tick, or a new game.
pub enum Step {
    Tick(Tick),
    Reset,
}

/// The state after the steps of `steps`, one after the other, from `g`.
pub open spec fn play(g: GameView, steps: Seq<Step>) -> GameView
    decreases steps.len(),
{
    if steps.len() == 0 {
        g
    } else {
        let before = play(g, steps.drop_last());
        match steps.last() {
            Step::Tick(tick) => before.update(tick.dt, tick.requested, tick.rolls),
            Step::Reset => GameView::start(before.maze),
        }
    }
}

/// A tick leaves the maze as it is.
pub proof fn lemma_update_keeps_maze(
    g: GameView,
    dt: nat,
    requested: Option<Direction>,
    rolls: Seq<Roll>,
)
    requires
        g.wf(),
    ensures
        g.update(dt, requested, rolls).maze == g.maze,
{
    let before = g.with_request(requested).power_ticked(dt).timers_ticked(dt).power_pellets_eaten();
    lemma_with_request_wf(g, requested);
    lemma_power_ticked_wf(g.with_request(requested), dt);
    lemma_timers_ticked_wf(g.with_request(requested).power_ticked(dt), dt);
    lemma_power_pellets_eaten_wf(g.with_request(requested).power_ticked(dt).timers_ticked(dt));
    lemma_collided_keeps(before, 0);
}

/// Wall containment through ticks and new games. On a maze whose spawn points
/// are clear of the walls, from a state in which every hitbox is, every
/// hitbox stays clear of the walls whatever is done from outside.
pub proof fn lemma_play_contained(g: GameView, steps: Seq<Step>)
    requires
        g.wf(),
        g.ghosts_clear(),
        g.maze.ghost_spawns_clear(),
    ensures
        play(g, steps).wf(),
        play(g, steps).ghosts_clear(),
        play(g, steps).maze == g.maze,
    decreases steps.len(),
{
    if steps.len() > 0 {
        lemma_play_contained(g, steps.drop_last());
        let before = play(g, steps.drop_last());
        match steps.last() {
            Step::Tick(tick) => {
                lemma_update_wf(before, tick.dt, tick.requested, tick.rolls);
                lemma_update_keeps_maze(before, tick.dt, tick.requested, tick.rolls);
            },
            Step::Reset => {
                lemma_start_wf(before.maze);
            },
        }
    }
}

/// Wall containment from the grid on. In a game on the maze of a grid that
/// marks starts for the pursuers, or whose middle cell is no wall, no hitbox
/// ever touches a wall, whatever is done from outside.
pub proof fn lemma_game_contained(rows: Seq<Seq<char>>, steps: Seq<Step>)
    requires
        load_error(rows) is None,
        marked(rows, GHOST, rows.len() as int).len() > 0 || !holds(rows, middle_cell(rows), WALL),
    ensures
        play(GameView::start(maze_of(rows)), steps).wf(),
        play(GameView::start(maze_of(rows)), steps).ghosts_clear(),
{
    lemma_maze_of_wf(rows);
    lemma_ghost_spawns_clear(rows);
    lemma_start_wf(maze_of(rows));
    lemma_play_contained(GameView::start(maze_of(rows)), steps);
}

/// No dot comes back and no point is lost. After a tick the dots are those
/// of before, or those of them that are out of the player's reach where it
/// stands now; and the score is no lower.
pub proof fn lemma_update_dots(
    g: GameView,
    dt: nat,
    requested: Option<Direction>,
    rolls: Seq<Roll>,
)
    requires
        g.wf(),
    ensures
        ({
            let h = g.update(dt, requested, rolls);
            &&& h.dots == g.dots || h.dots == g.dots.filter(
                out_of_reach(h.pacman_centre(), DOT_REACH as int),
            )
            &&& h.dots.len() <= g.dots.len()
            &&& h.score >= g.score
        }),
{
    lemma_prepared_keeps_dots(g, dt, requested);
    lemma_prepared_score(g, dt, requested);
    let ready = g.prepared(dt, requested);
    lemma_filter_drops(g.dots, out_of_reach(ready.pacman_centre(), DOT_REACH as int));
}

/// Settling collisions loses no point.
pub proof fn lemma_collided_score(g: GameView, i: int)
    requires
        g.wf(),
    ensures
        g.collided_from(i).score >= g.score,
    decreases g.ghosts.len() - i,
{
    if g.lives == 0 || i < 0 || i >= g.ghosts.len() {
    } else if !g.touches(g.ghosts[i]) {
        lemma_collided_score(g, i + 1);
    } else if g.ghosts[i].is_vulnerable {
        let next = GameView {
            ghosts: g.ghosts.update(i, g.ghosts[i].reset()),
            score: award(g.score, GHOST_POINTS as nat),
            ..g
        };
        assert(next.wf());
        lemma_collided_score(next, i + 1);
    } else {
    }
}

/// The first part of a tick loses no point.
pub proof fn lemma_prepared_score(g: GameView, dt: nat, requested: Option<Direction>)
    requires
        g.wf(),
    ensures
        g.prepared(dt, requested).score >= g.score,
{
    let a = g.with_request(requested);
    lemma_with_request_wf(g, requested);
    let b = a.power_ticked(dt);
    lemma_power_ticked_wf(a, dt);
    let c = b.timers_ticked(dt);
    lemma_timers_ticked_wf(b, dt);
    let d = c.power_pellets_eaten();
    lemma_power_pellets_eaten_wf(c);
    lemma_collided_score(d, 0);
}

/// Pickup idempotence for power pellets. Once the power pellets in reach are
/// eaten none is left in reach, so eating again changes nothing.
pub proof fn lemma_power_pellets_eaten_once(g: GameView)
    ensures
        !g.power_pellets_eaten().reaches_power_pellet(),
        g.power_pellets_eaten().power_pellets_eaten() == g.power_pellets_eaten(),
{
    let keep = out_of_reach(g.pacman_centre(), POWER_PELLET_REACH as int);
    lemma_filter_drops(g.power_pellets, keep);
    let h = g.power_pellets_eaten();
    assert(h.pacman_centre() == g.pacman_centre());
    if h.reaches_power_pellet() {
        let i = choose|i: int|
            0 <= i < h.power_pellets.len() && h.pacman_centre().within(
                #[trigger] h.power_pellets[i],
                POWER_PELLET_REACH as int,
            );
        if g.reaches_power_pellet() {
            assert(keep(g.power_pellets.filter(keep)[i]));
        } else {
            assert(h == g);
        }
    }
}

/// A tick neither adds nor removes a pursuer, and leaves each its colour and
/// its spawn point.
pub proof fn lemma_update_keeps_pursuers(
    g: GameView,
    dt: nat,
    requested: Option<Direction>,
    rolls: Seq<Roll>,
)
    requires
        g.wf(),
    ensures
        g.update(dt, requested, rolls).ghosts.len() == g.ghosts.len(),
        forall|i: int|
            0 <= i < g.ghosts.len() ==> (#[trigger] g.update(
                dt,
                requested,
                rolls,
            ).ghosts[i]).spawn_position == g.ghosts[i].spawn_position && g.update(
                dt,
                requested,
                rolls,
            ).ghosts[i].color == g.ghosts[i].color,
{
    let a = g.with_request(requested);
    lemma_with_request_wf(g, requested);
    let b = a.power_ticked(dt);
    lemma_power_ticked_wf(a, dt);
    let c = b.timers_ticked(dt);
    lemma_timers_ticked_wf(b, dt);
    let d = c.power_pellets_eaten();
    lemma_power_pellets_eaten_wf(c);
    lemma_collided_keeps(d, 0);
    lemma_collided_wf(d, 0);
    let e = d.collided_from(0);
    let h = g.update(dt, requested, rolls);
    lemma_prepared_wf(g, dt, requested);
    let ready = g.prepared(dt, requested);
    assert forall|i: int| 0 <= i < g.ghosts.len() implies (#[trigger] h.ghosts[i]).spawn_position
        == g.ghosts[i].spawn_position && h.ghosts[i].color == g.ghosts[i].color by {
        assert(d.ghosts[i].spawn_position == g.ghosts[i].spawn_position);
        assert(d.ghosts[i].color == g.ghosts[i].color);
        assert(e.ghosts[i].spawn_position == d.ghosts[i].spawn_position);
        assert(ready.ghosts[i] == e.ghosts[i]);
        if ready.phase != Phase::GameOverMenu {
            assert(ready.ghosts[i].wf());
            lemma_step_wf(ready.ghosts[i], ready.maze, ready.pacman, roll_at(rolls, i));
        }
    }
}

} // verus!
