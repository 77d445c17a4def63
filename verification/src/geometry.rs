//! Lengths, directions, points and rectangles on the maze grid.

use vstd::prelude::*;

verus! {

/// Number of length steps in one world unit.
pub const UNIT: i64 = 4;

/// Side of one maze cell.
pub const CELL_SIZE: i64 = 120;

/// Side of the player's hitbox.
pub const PACMAN_SIZE: i64 = 100;

/// Side of a pursuer's hitbox.
pub const GHOST_SIZE: i64 = 100;

/// Diameter of a dot.
pub const DOT_SIZE: i64 = 24;

/// Diameter of a power pellet.
pub const POWER_PELLET_SIZE: i64 = 60;

/// Distance the player covers in one tick.
pub const MOVEMENT_SPEED: i64 = 4;

/// Distance a pursuer covers in one tick.
pub const GHOST_SPEED: i64 = 2;

/// Distance a vulnerable pursuer covers in one tick.
pub const VULNERABLE_GHOST_SPEED: i64 = 1;

/// Gap between a cell's edge and a hitbox centred in it.
pub const INSET: i64 = 10;

/// The world reaches this many cells from the origin in every direction.
pub const WORLD_CELLS: i64 = 1_000_000;

/// Smallest coordinate a hitbox corner may have; a cell-centred coordinate.
pub const WORLD_MIN: i64 = INSET - WORLD_CELLS * CELL_SIZE;

/// Largest coordinate a hitbox corner may have; a cell-centred coordinate.
pub const WORLD_MAX: i64 = INSET + WORLD_CELLS * CELL_SIZE;

/// The constants agree with one another: both hitboxes sit centred in a cell
/// with `INSET` to spare on every side, the speeds are whole steps of which
/// the vulnerable one is half the other, and the world's bounds are
/// cell-centred coordinates.
pub proof fn lemma_constants_agree()
    ensures
        PACMAN_SIZE + 2 * INSET == CELL_SIZE,
        GHOST_SIZE + 2 * INSET == CELL_SIZE,
        2 * VULNERABLE_GHOST_SPEED == GHOST_SPEED,
        MOVEMENT_SPEED == UNIT,
        CELL_SIZE % MOVEMENT_SPEED == 0,
        axis_aligned(WORLD_MIN as int),
        axis_aligned(WORLD_MAX as int),
{
}

/// The four ways an entity can move, in the order in which they are tried.
#[derive(Clone, Copy, PartialEq, Eq, Debug, Structural)]
pub enum Direction {
    Up,
    Down,
    Left,
    Right,
}

/// A point of the plane with unbounded coordinates.
pub struct Pos {
    pub x: int,
    pub y: int,
}

/// An axis-aligned rectangle with unbounded coordinates: corner and extent.
pub struct Area {
    pub x: int,
    pub y: int,
    pub w: int,
    pub h: int,
}

/// A point in machine integers.
#[derive(Clone, Copy, PartialEq, Eq, Debug, Structural)]
pub struct Point {
    pub x: i64,
    pub y: i64,
}

/// An axis-aligned rectangle in machine integers.
#[derive(Clone, Copy, PartialEq, Eq, Debug, Structural)]
pub struct Rect {
    pub x: i64,
    pub y: i64,
    pub w: i64,
    pub h: i64,
}

impl View for Point {
    type V = Pos;

    open spec fn view(&self) -> Pos {
        Pos { x: self.x as int, y: self.y as int }
    }
}

impl View for Rect {
    type V = Area;

    open spec fn view(&self) -> Area {
        Area { x: self.x as int, y: self.y as int, w: self.w as int, h: self.h as int }
    }
}

impl Area {
    /// Two rectangles overlap when they share at least one point; rectangles
    /// that only touch along an edge or at a corner do overlap.
    pub open spec fn overlaps(self, other: Area) -> bool {
        &&& self.x <= other.x + other.w
        &&& self.x + self.w >= other.x
        &&& self.y <= other.y + other.h
        &&& self.y + self.h >= other.y
    }

    /// Whether the point lies in the rectangle, edges included.
    pub open spec fn contains(self, p: Pos) -> bool {
        &&& self.x <= p.x <= self.x + self.w
        &&& self.y <= p.y <= self.y + self.h
    }

    /// The corner from which the rectangle extends.
    pub open spec fn origin(self) -> Pos {
        Pos { x: self.x, y: self.y }
    }

    /// The rectangle moved by `speed` along `direction`.
    pub open spec fn shifted(self, direction: Direction, speed: int) -> Area {
        let step = direction.step(speed);
        Area { x: self.x + step.x, y: self.y + step.y, w: self.w, h: self.h }
    }
}

impl Direction {
    /// The displacement of `speed` along this direction; y grows downwards.
    pub open spec fn step(self, speed: int) -> Pos {
        match self {
            Direction::Up => Pos { x: 0, y: -speed },
            Direction::Down => Pos { x: 0, y: speed },
            Direction::Left => Pos { x: -speed, y: 0 },
            Direction::Right => Pos { x: speed, y: 0 },
        }
    }
}

impl Pos {
    /// The square hitbox of side `size` whose corner is this point.
    pub open spec fn hitbox(self, size: int) -> Area {
        Area { x: self.x, y: self.y, w: size, h: size }
    }

    /// The point moved by `speed` along `direction`.
    pub open spec fn moved(self, direction: Direction, speed: int) -> Pos {
        let step = direction.step(speed);
        Pos { x: self.x + step.x, y: self.y + step.y }
    }

    /// The centre of the hitbox of side `size` whose corner is this point.
    pub open spec fn centre(self, size: int) -> Pos {
        Pos { x: self.x + size / 2, y: self.y + size / 2 }
    }

    /// Squared straight-line distance between two points.
    pub open spec fn dist2(self, other: Pos) -> int {
        (self.x - other.x) * (self.x - other.x) + (self.y - other.y) * (self.y - other.y)
    }

    /// Whether the two points are less than `radius` apart.
    pub open spec fn within(self, other: Pos, radius: int) -> bool {
        radius > 0 && self.dist2(other) < radius * radius
    }

    /// Whether a hitbox corner at this point lies inside the world.
    pub open spec fn in_world(self) -> bool {
        &&& WORLD_MIN <= self.x <= WORLD_MAX
        &&& WORLD_MIN <= self.y <= WORLD_MAX
    }
}

/// Distance from the cell-centred coordinate at or below `v` up to `v`.
pub open spec fn axis_offset(v: int) -> int {
    (v - INSET) % (CELL_SIZE as int)
}

/// Whether `v` is a cell-centred coordinate: the corner coordinate of a hitbox
/// that sits in the middle of a cell.
pub open spec fn axis_aligned(v: int) -> bool {
    axis_offset(v) == 0
}

/// Whether `v` is less than one world unit away from a cell-centred coordinate.
pub open spec fn axis_centred(v: int) -> bool {
    axis_offset(v) < UNIT || axis_offset(v) > CELL_SIZE - UNIT
}

/// The cell-centred coordinate nearest to `v`; half way between two of them,
/// the one farther from `INSET`.
pub open spec fn axis_snapped(v: int) -> int {
    let g = v - INSET;
    if g >= 0 {
        (g + CELL_SIZE / 2) / (CELL_SIZE as int) * CELL_SIZE + INSET
    } else {
        INSET - (CELL_SIZE / 2 - g) / (CELL_SIZE as int) * CELL_SIZE
    }
}

/// Snapping lands on a cell-centred coordinate at most half a cell away,
/// leaves cell-centred coordinates alone and never leaves the world.
pub proof fn lemma_axis_snapped(v: int)
    ensures
        axis_aligned(axis_snapped(v)),
        -CELL_SIZE / 2 <= axis_snapped(v) - v <= CELL_SIZE / 2,
        axis_aligned(v) ==> axis_snapped(v) == v,
        WORLD_MIN <= v <= WORLD_MAX ==> WORLD_MIN <= axis_snapped(v) <= WORLD_MAX,
{
}

impl Pos {
    /// Whether a hitbox with its corner here sits within one world unit of the
    /// middle of a cell on both axes.
    pub open spec fn is_at_grid_center(self) -> bool {
        axis_centred(self.x) && axis_centred(self.y)
    }

    /// Whether a hitbox with its corner here sits exactly in the middle of a cell.
    pub open spec fn aligned(self) -> bool {
        axis_aligned(self.x) && axis_aligned(self.y)
    }

    /// The corner of the nearest hitbox that sits exactly in the middle of a cell.
    pub open spec fn snapped(self) -> Pos {
        Pos { x: axis_snapped(self.x), y: axis_snapped(self.y) }
    }
}

/// A multiple of `CELL_SIZE` above every `i64`: `CELL_SIZE` times 2^57.
const LIFT: i128 = 17_293_822_569_102_704_640;

fn offset_on_axis(v: i64) -> (r: i64)
    ensures
        r == axis_offset(v as int),
{
    // Lifted above zero, the remainder is the same and `%` takes no sign.
    let lifted: i128 = v as i128 - INSET as i128 + LIFT;
    (lifted % CELL_SIZE as i128) as i64
}

fn snap_on_axis(v: i64) -> (r: i64)
    requires
        WORLD_MIN <= v <= WORLD_MAX,
    ensures
        r == axis_snapped(v as int),
{
    let g: i64 = v - INSET;
    if g >= 0 {
        (g + CELL_SIZE / 2) / CELL_SIZE * CELL_SIZE + INSET
    } else {
        INSET - (CELL_SIZE / 2 - g) / CELL_SIZE * CELL_SIZE
    }
}

impl Rect {
    /// The rectangle of width `w` and height `h` that extends from `(x, y)`.
    pub fn new(x: i64, y: i64, w: i64, h: i64) -> (r: Rect)
        ensures
            r == (Rect { x, y, w, h }),
    {
        Rect { x, y, w, h }
    }

    /// The rectangle moved by `speed` along `direction`, unless its corner would
    /// leave the world.
    pub fn shifted(&self, direction: Direction, speed: i64) -> (r: Option<Rect>)
        ensures
            match r {
                Some(c) => c@ == self@.shifted(direction, speed as int) && c@.origin().in_world(),
                None => !self@.shifted(direction, speed as int).origin().in_world(),
            },
    {
        let s: i128 = speed as i128;
        let (dx, dy): (i128, i128) = match direction {
            Direction::Up => (0, -s),
            Direction::Down => (0, s),
            Direction::Left => (-s, 0),
            Direction::Right => (s, 0),
        };
        let x: i128 = self.x as i128 + dx;
        let y: i128 = self.y as i128 + dy;
        if WORLD_MIN as i128 <= x && x <= WORLD_MAX as i128 && WORLD_MIN as i128 <= y && y
            <= WORLD_MAX as i128 {
            Some(Rect { x: x as i64, y: y as i64, w: self.w, h: self.h })
        } else {
            None
        }
    }

    /// Whether the two rectangles share a point, edges included.
    pub fn overlaps(&self, other: &Rect) -> (b: bool)
        ensures
            b == self@.overlaps(other@),
    {
        let left: i128 = self.x as i128;
        let right: i128 = self.x as i128 + self.w as i128;
        let top: i128 = self.y as i128;
        let bottom: i128 = self.y as i128 + self.h as i128;
        let other_left: i128 = other.x as i128;
        let other_right: i128 = other.x as i128 + other.w as i128;
        let other_top: i128 = other.y as i128;
        let other_bottom: i128 = other.y as i128 + other.h as i128;
        left <= other_right && right >= other_left && top <= other_bottom && bottom >= other_top
    }
}

impl Point {
    /// The point `(x, y)`.
    pub fn new(x: i64, y: i64) -> (p: Point)
        ensures
            p == (Point { x, y }),
    {
        Point { x, y }
    }

    /// Whether a hitbox with its corner here sits within one world unit of the
    /// middle of a cell on both axes. Turns are allowed only there.
    pub fn is_at_grid_center(&self) -> (b: bool)
        ensures
            b == self@.is_at_grid_center(),
    {
        let rx: i64 = offset_on_axis(self.x);
        let ry: i64 = offset_on_axis(self.y);
        (rx < UNIT || rx > CELL_SIZE - UNIT) && (ry < UNIT || ry > CELL_SIZE - UNIT)
    }

    /// The corner of the nearest hitbox that sits exactly in the middle of a cell.
    pub fn snap_to_grid(&self) -> (p: Point)
        requires
            self@.in_world(),
        ensures
            p@ == self@.snapped(),
            p@.aligned(),
            p@.in_world(),
    {
        proof {
            lemma_axis_snapped(self.x as int);
            lemma_axis_snapped(self.y as int);
        }
        Point { x: snap_on_axis(self.x), y: snap_on_axis(self.y) }
    }

    /// The square of side `size` whose corner is this point.
    pub fn hitbox(&self, size: i64) -> (r: Rect)
        ensures
            r@ == self@.hitbox(size as int),
    {
        Rect { x: self.x, y: self.y, w: size, h: size }
    }

    /// Whether the two points are less than `radius` apart.
    pub fn within(&self, other: &Point, radius: i64) -> (b: bool)
        ensures
            b == self@.within(other@, radius as int),
    {
        let dx: i128 = self.x as i128 - other.x as i128;
        let dy: i128 = self.y as i128 - other.y as i128;
        let r: i128 = radius as i128;
        if r <= 0 || dx >= r || dx <= -r || dy >= r || dy <= -r {
            proof {
                lemma_far_on_one_axis(self@, other@, radius as int);
            }
            return false;
        }
        assert(0 <= dx * dx <= r * r && 0 <= dy * dy <= r * r && r * r
            <= 0x3fff_ffff_ffff_ffff_0000_0000_0000_0001) by (nonlinear_arith)
            requires
                -r < dx < r,
                -r < dy < r,
                0 < r <= 0x7fff_ffff_ffff_ffff,
        ;
        dx * dx + dy * dy < r * r
    }
}

/// Two points that are at least `radius` apart along one axis are not within
/// `radius` of each other.
pub proof fn lemma_far_on_one_axis(a: Pos, b: Pos, radius: int)
    requires
        radius <= 0 || a.x - b.x >= radius || a.x - b.x <= -radius || a.y - b.y >= radius || a.y
            - b.y <= -radius,
    ensures
        !a.within(b, radius),
{
    if radius > 0 {
        let dx = a.x - b.x;
        let dy = a.y - b.y;
        assert(dx * dx >= 0 && dy * dy >= 0) by (nonlinear_arith);
        assert((dx >= radius || dx <= -radius) ==> dx * dx >= radius * radius) by (nonlinear_arith)
            requires
                radius > 0,
        ;
        assert((dy >= radius || dy <= -radius) ==> dy * dy >= radius * radius) by (nonlinear_arith)
            requires
                radius > 0,
        ;
    }
}

} // verus!
