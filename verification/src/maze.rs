//! The maze: walls, dots, power pellets and spawn points read from a grid of
//! characters, and the occupancy queries that movement relies on.

use crate::geometry::{
    Area, Direction, Point, Pos, Rect, CELL_SIZE, GHOST_SIZE, INSET, PACMAN_SIZE, WORLD_CELLS,
};
use vstd::prelude::*;
use vstd::std_specs::iter::IteratorSpec;

verus! {

/// Marks a wall cell.
pub const WALL: char = 'W';

/// Marks a cell that holds a dot.
pub const DOT: char = '.';

/// Marks a cell that holds a power pellet.
pub const POWER_PELLET: char = 'o';

/// Marks the cell in which the player starts.
pub const PACMAN: char = 'P';

/// Marks a cell in which a pursuer starts.
pub const GHOST: char = 'G';

/// Number of pursuers placed in the middle of a maze that marks no start for them.
pub const DEFAULT_GHOSTS: usize = 3;

/// A cell of the grid by column and row.
pub struct Cell {
    pub col: int,
    pub row: int,
}

impl Cell {
    /// The square that the cell covers.
    pub open spec fn area(self) -> Area {
        Area {
            x: self.col * CELL_SIZE,
            y: self.row * CELL_SIZE,
            w: CELL_SIZE as int,
            h: CELL_SIZE as int,
        }
    }

    /// The middle of the cell, where a dot or a power pellet lies.
    pub open spec fn middle(self) -> Pos {
        Pos { x: self.col * CELL_SIZE + CELL_SIZE / 2, y: self.row * CELL_SIZE + CELL_SIZE / 2 }
    }

    /// The corner of a hitbox centred in the cell.
    pub open spec fn seat(self) -> Pos {
        Pos { x: self.col * CELL_SIZE + INSET, y: self.row * CELL_SIZE + INSET }
    }
}

/// The cells among the first `n` of row number `r` that hold `mark`, left to right.
pub open spec fn marked_in_row(row: Seq<char>, r: int, mark: char, n: int) -> Seq<Cell>
    decreases n,
{
    if n <= 0 {
        Seq::empty()
    } else {
        let before = marked_in_row(row, r, mark, n - 1);
        if row[n - 1] == mark {
            before.push(Cell { col: n - 1, row: r })
        } else {
            before
        }
    }
}

/// The cells of the first `n` rows that hold `mark`, in reading order.
pub open spec fn marked(rows: Seq<Seq<char>>, mark: char, n: int) -> Seq<Cell>
    decreases n,
{
    if n <= 0 {
        Seq::empty()
    } else {
        marked(rows, mark, n - 1) + marked_in_row(
            rows[n - 1],
            n - 1,
            mark,
            rows[n - 1].len() as int,
        )
    }
}

/// Length of the longest of the first `n` rows.
pub open spec fn widest(rows: Seq<Seq<char>>, n: int) -> int
    decreases n,
{
    if n <= 0 {
        0
    } else if rows[n - 1].len() > widest(rows, n - 1) {
        rows[n - 1].len() as int
    } else {
        widest(rows, n - 1)
    }
}

/// Whether the grid has no more rows and no longer rows than the world has cells.
pub open spec fn fits(rows: Seq<Seq<char>>) -> bool {
    &&& rows.len() <= WORLD_CELLS
    &&& forall|r: int| 0 <= r < rows.len() ==> (#[trigger] rows[r]).len() <= WORLD_CELLS
}

/// The squares that the cells cover.
pub open spec fn areas(cells: Seq<Cell>) -> Seq<Area> {
    cells.map_values(|c: Cell| c.area())
}

/// The middles of the cells.
pub open spec fn middles(cells: Seq<Cell>) -> Seq<Pos> {
    cells.map_values(|c: Cell| c.middle())
}

/// The corners of the hitboxes centred in the cells.
pub open spec fn seats(cells: Seq<Cell>) -> Seq<Pos> {
    cells.map_values(|c: Cell| c.seat())
}

/// The rectangles of a list, each in unbounded integers.
pub open spec fn rect_views(rects: Seq<Rect>) -> Seq<Area> {
    rects.map_values(|r: Rect| r@)
}

/// The points of a list, each in unbounded integers.
pub open spec fn point_views(points: Seq<Point>) -> Seq<Pos> {
    points.map_values(|p: Point| p@)
}

/// The rows of a grid as sequences of characters.
pub open spec fn grid_rows(grid: Seq<&str>) -> Seq<Seq<char>> {
    grid.map_values(|row: &str| row@)
}

/// Why a grid is not a maze.
#[derive(Clone, Copy, PartialEq, Eq, Debug, Structural)]
pub enum MazeError {
    /// The grid has no rows.
    EmptyGrid,
    /// The grid has more rows, or a longer row, than the world has cells.
    TooLarge,
    /// No cell marks where the player starts.
    NoPlayerSpawn,
}

/// What a maze is, in unbounded integers.
pub struct MazeView {
    pub walls: Seq<Area>,
    pub dots: Seq<Pos>,
    pub power_pellets: Seq<Pos>,
    pub pacman_spawn: Pos,
    pub ghost_spawns: Seq<Pos>,
    pub width: int,
    pub height: int,
}

impl Area {
    /// Whether the rectangle is exactly one cell of the world's grid, at a
    /// non-negative column and row.
    pub open spec fn is_cell(self) -> bool {
        &&& self.w == CELL_SIZE
        &&& self.h == CELL_SIZE
        &&& self.x % (CELL_SIZE as int) == 0
        &&& self.y % (CELL_SIZE as int) == 0
        &&& 0 <= self.x < WORLD_CELLS * CELL_SIZE
        &&& 0 <= self.y < WORLD_CELLS * CELL_SIZE
    }
}

impl MazeView {
    /// Whether `rect` overlaps any wall.
    pub open spec fn is_blocked(self, rect: Area) -> bool {
        exists|i: int| 0 <= i < self.walls.len() && (#[trigger] self.walls[i]).overlaps(rect)
    }

    /// Where `rect` gets to by `speed` along `direction`: nowhere if that would
    /// touch a wall or leave the world.
    pub open spec fn try_move(self, rect: Area, direction: Direction, speed: int) -> Option<Area> {
        let candidate = rect.shifted(direction, speed);
        if candidate.origin().in_world() && !self.is_blocked(candidate) {
            Some(candidate)
        } else {
            None
        }
    }

    /// Whether a hitbox of side `size` with its corner at `p` lies in the world
    /// and touches no wall.
    pub open spec fn is_clear(self, p: Pos, size: int) -> bool {
        p.in_world() && !self.is_blocked(p.hitbox(size))
    }

    /// Whether no wall holds any of `points`.
    pub open spec fn free_of_walls(self, points: Seq<Pos>) -> bool {
        forall|i: int, j: int|
            0 <= i < points.len() && 0 <= j < self.walls.len() ==> !(#[trigger] self.walls[j]).contains(
                #[trigger] points[i],
            )
    }

    /// Whether a hitbox of side `GHOST_SIZE` on any pursuer's spawn point is
    /// in the world and touches no wall.
    pub open spec fn ghost_spawns_clear(self) -> bool {
        forall|i: int|
            0 <= i < self.ghost_spawns.len() ==> self.is_clear(
                #[trigger] self.ghost_spawns[i],
                GHOST_SIZE as int,
            )
    }

    /// Every wall is a cell of the grid, no dot or power pellet lies in a
    /// wall, the maze has at least one cell each way, every spawn point
    /// centres a hitbox in a cell, and the player's spawn point touches no wall.
    pub open spec fn wf(self) -> bool {
        &&& forall|i: int| 0 <= i < self.walls.len() ==> (#[trigger] self.walls[i]).is_cell()
        &&& self.free_of_walls(self.dots)
        &&& self.free_of_walls(self.power_pellets)
        &&& 1 <= self.width <= WORLD_CELLS
        &&& 1 <= self.height <= WORLD_CELLS
        &&& self.pacman_spawn.aligned()
        &&& self.is_clear(self.pacman_spawn, PACMAN_SIZE as int)
        &&& self.ghost_spawns.len() >= 1
        &&& forall|i: int|
            0 <= i < self.ghost_spawns.len() ==> (#[trigger] self.ghost_spawns[i]).aligned()
                && self.ghost_spawns[i].in_world()
    }
}

/// The cell in the middle of a grid, where pursuers start that have no start marked.
pub open spec fn middle_cell(rows: Seq<Seq<char>>) -> Cell {
    Cell { col: widest(rows, rows.len() as int) / 2, row: rows.len() as int / 2 }
}

/// Where the pursuers of a grid start: one in each marked cell, or
/// `DEFAULT_GHOSTS` in the middle cell if none is marked.
pub open spec fn ghost_seats(rows: Seq<Seq<char>>) -> Seq<Pos> {
    let cells = marked(rows, GHOST, rows.len() as int);
    if cells.len() > 0 {
        seats(cells)
    } else {
        Seq::new(DEFAULT_GHOSTS as nat, |i: int| middle_cell(rows).seat())
    }
}

/// The maze that a grid with a player's start describes.
pub open spec fn maze_of(rows: Seq<Seq<char>>) -> MazeView {
    let n = rows.len() as int;
    MazeView {
        walls: areas(marked(rows, WALL, n)),
        dots: middles(marked(rows, DOT, n)),
        power_pellets: middles(marked(rows, POWER_PELLET, n)),
        pacman_spawn: marked(rows, PACMAN, n).last().seat(),
        ghost_spawns: ghost_seats(rows),
        width: widest(rows, n),
        height: n,
    }
}

/// Why a grid is refused, if it is.
pub open spec fn load_error(rows: Seq<Seq<char>>) -> Option<MazeError> {
    if rows.len() == 0 {
        Some(MazeError::EmptyGrid)
    } else if !fits(rows) {
        Some(MazeError::TooLarge)
    } else if marked(rows, PACMAN, rows.len() as int).len() == 0 {
        Some(MazeError::NoPlayerSpawn)
    } else {
        None
    }
}

/// The cells that hold `mark` in the rows before row `r` and in the first
/// `col` columns of row `r`, in reading order.
pub open spec fn scanned(rows: Seq<Seq<char>>, mark: char, r: int, col: int) -> Seq<Cell> {
    marked(rows, mark, r) + marked_in_row(rows[r], r, mark, col)
}

/// Whether `c` is a cell of the grid that holds `mark`.
pub open spec fn holds(rows: Seq<Seq<char>>, c: Cell, mark: char) -> bool {
    &&& 0 <= c.row < rows.len()
    &&& 0 <= c.col < rows[c.row].len()
    &&& rows[c.row][c.col] == mark
}

/// Every cell that `marked_in_row` lists lies in its row, before column `n`,
/// and holds the mark.
pub proof fn lemma_marked_in_row(rows: Seq<Seq<char>>, r: int, mark: char, n: int)
    requires
        0 <= r < rows.len(),
        0 <= n <= rows[r].len(),
    ensures
        forall|i: int|
            0 <= i < marked_in_row(rows[r], r, mark, n).len() ==> holds(
                rows,
                #[trigger] marked_in_row(rows[r], r, mark, n)[i],
                mark,
            ) && marked_in_row(rows[r], r, mark, n)[i].row == r && marked_in_row(
                rows[r],
                r,
                mark,
                n,
            )[i].col < n,
    decreases n,
{
    if n > 0 {
        lemma_marked_in_row(rows, r, mark, n - 1);
        let before = marked_in_row(rows[r], r, mark, n - 1);
        let now = marked_in_row(rows[r], r, mark, n);
        assert forall|i: int| 0 <= i < now.len() implies holds(rows, #[trigger] now[i], mark)
            && now[i].row == r && now[i].col < n by {
            if i < before.len() {
                assert(now[i] == before[i]);
            }
        }
    }
}

/// Every cell that `marked` lists lies in the grid, before row `n`, and holds
/// the mark.
pub proof fn lemma_marked(rows: Seq<Seq<char>>, mark: char, n: int)
    requires
        0 <= n <= rows.len(),
    ensures
        forall|i: int|
            0 <= i < marked(rows, mark, n).len() ==> holds(
                rows,
                #[trigger] marked(rows, mark, n)[i],
                mark,
            ) && marked(rows, mark, n)[i].row < n,
    decreases n,
{
    if n > 0 {
        lemma_marked(rows, mark, n - 1);
        lemma_marked_in_row(rows, n - 1, mark, rows[n - 1].len() as int);
        let before = marked(rows, mark, n - 1);
        let row = marked_in_row(rows[n - 1], n - 1, mark, rows[n - 1].len() as int);
        let now = marked(rows, mark, n);
        assert forall|i: int| 0 <= i < now.len() implies holds(rows, #[trigger] now[i], mark)
            && now[i].row < n by {
            if i < before.len() {
                assert(now[i] == before[i]);
            } else {
                assert(now[i] == row[i - before.len()]);
            }
        }
    }
}

impl Cell {
    /// Whether this cell is read before `other`: in a row above, or in the
    /// same row further left.
    pub open spec fn before(self, other: Cell) -> bool {
        self.row < other.row || (self.row == other.row && self.col < other.col)
    }
}

/// `marked` lists every cell of the first `n` rows that holds the mark.
pub proof fn lemma_marked_complete(rows: Seq<Seq<char>>, mark: char, n: int, c: Cell)
    requires
        0 <= n <= rows.len(),
        holds(rows, c, mark),
        c.row < n,
    ensures
        marked(rows, mark, n).contains(c),
    decreases n,
{
    let row = marked_in_row(rows[n - 1], n - 1, mark, rows[n - 1].len() as int);
    let above = marked(rows, mark, n - 1);
    if c.row < n - 1 {
        lemma_marked_complete(rows, mark, n - 1, c);
        let i = choose|i: int| 0 <= i < above.len() && above[i] == c;
        assert(marked(rows, mark, n)[i] == c);
    } else {
        lemma_marked_in_row_complete(rows[c.row], c.row, mark, rows[c.row].len() as int, c.col);
        let i = choose|i: int| 0 <= i < row.len() && row[i] == c;
        assert(marked(rows, mark, n)[above.len() + i] == c);
    }
}

/// `marked_in_row` lists every cell among the first `n` that holds the mark.
pub proof fn lemma_marked_in_row_complete(row: Seq<char>, r: int, mark: char, n: int, col: int)
    requires
        0 <= col < n <= row.len(),
        row[col] == mark,
    ensures
        marked_in_row(row, r, mark, n).contains(Cell { col, row: r }),
    decreases n,
{
    let now = marked_in_row(row, r, mark, n);
    if col < n - 1 {
        lemma_marked_in_row_complete(row, r, mark, n - 1, col);
        let before = marked_in_row(row, r, mark, n - 1);
        let i = choose|i: int| 0 <= i < before.len() && before[i] == (Cell { col, row: r });
        assert(now[i] == (Cell { col, row: r }));
    } else {
        assert(now[now.len() - 1] == (Cell { col, row: r }));
    }
}

/// `marked` lists its cells in reading order, so none twice.
pub proof fn lemma_marked_ordered(rows: Seq<Seq<char>>, mark: char, n: int)
    requires
        0 <= n <= rows.len(),
    ensures
        forall|i: int, j: int|
            0 <= i < j < marked(rows, mark, n).len() ==> (#[trigger] marked(rows, mark, n)[i]).before(
                #[trigger] marked(rows, mark, n)[j],
            ),
    decreases n,
{
    if n > 0 {
        lemma_marked_ordered(rows, mark, n - 1);
        lemma_marked(rows, mark, n - 1);
        let width = rows[n - 1].len() as int;
        lemma_marked_in_row(rows, n - 1, mark, width);
        lemma_marked_in_row_ordered(rows[n - 1], n - 1, mark, width);
        let above = marked(rows, mark, n - 1);
        let row = marked_in_row(rows[n - 1], n - 1, mark, width);
        let now = marked(rows, mark, n);
        assert forall|i: int, j: int| 0 <= i < j < now.len() implies (#[trigger] now[i]).before(
            #[trigger] now[j],
        ) by {
            if j < above.len() {
                assert(now[i] == above[i] && now[j] == above[j]);
            } else if i < above.len() {
                assert(now[i] == above[i] && now[j] == row[j - above.len()]);
            } else {
                assert(now[i] == row[i - above.len()] && now[j] == row[j - above.len()]);
            }
        }
    }
}

/// `marked_in_row` lists its cells from left to right.
pub proof fn lemma_marked_in_row_ordered(row: Seq<char>, r: int, mark: char, n: int)
    requires
        0 <= n <= row.len(),
    ensures
        forall|i: int|
            0 <= i < marked_in_row(row, r, mark, n).len() ==> (#[trigger] marked_in_row(
                row,
                r,
                mark,
                n,
            )[i]).row == r && 0 <= marked_in_row(row, r, mark, n)[i].col < n,
        forall|i: int, j: int|
            0 <= i < j < marked_in_row(row, r, mark, n).len() ==> (#[trigger] marked_in_row(
                row,
                r,
                mark,
                n,
            )[i]).before(#[trigger] marked_in_row(row, r, mark, n)[j]),
    decreases n,
{
    if n > 0 {
        lemma_marked_in_row_ordered(row, r, mark, n - 1);
        let before = marked_in_row(row, r, mark, n - 1);
        let now = marked_in_row(row, r, mark, n);
        assert forall|i: int| 0 <= i < now.len() implies (#[trigger] now[i]).row == r && 0
            <= now[i].col < n by {
            if i < before.len() {
                assert(now[i] == before[i]);
            }
        }
        assert forall|i: int, j: int| 0 <= i < j < now.len() implies (#[trigger] now[i]).before(
            #[trigger] now[j],
        ) by {
            assert(now[i] == before[i]);
            if j < before.len() {
                assert(now[j] == before[j]);
            }
        }
    }
}

/// Reading one more character adds its cell to the scan if it holds the mark
/// and changes nothing otherwise.
pub proof fn lemma_scan_step(rows: Seq<Seq<char>>, mark: char, r: int, col: int)
    requires
        0 <= r < rows.len(),
        0 <= col < rows[r].len(),
    ensures
        scanned(rows, mark, r, col + 1) == if rows[r][col] == mark {
            scanned(rows, mark, r, col).push(Cell { col, row: r })
        } else {
            scanned(rows, mark, r, col)
        },
{
    assert(scanned(rows, mark, r, col + 1) =~= if rows[r][col] == mark {
        scanned(rows, mark, r, col).push(Cell { col, row: r })
    } else {
        scanned(rows, mark, r, col)
    });
}

/// A scan that has read a whole row has found what `marked` lists up to the
/// next row, which is also where the scan of the next row starts.
pub proof fn lemma_scan_row(rows: Seq<Seq<char>>, mark: char, r: int)
    requires
        0 <= r < rows.len(),
    ensures
        scanned(rows, mark, r, rows[r].len() as int) == marked(rows, mark, r + 1),
        scanned(rows, mark, r + 1, 0) == marked(rows, mark, r + 1),
        scanned(rows, mark, 0, 0) == marked(rows, mark, 0),
{
    assert(scanned(rows, mark, r + 1, 0) =~= marked(rows, mark, r + 1));
    assert(scanned(rows, mark, 0, 0) =~= marked(rows, mark, 0));
}

/// A cell touches the hitbox centred in a cell only if it is that cell, and
/// holds the middle of a cell only if it is that cell.
pub proof fn lemma_cell_meets_own_only(wall: Cell, other: Cell)
    requires
        wall.area().overlaps(other.seat().hitbox(PACMAN_SIZE as int)) || wall.area().overlaps(
            other.seat().hitbox(GHOST_SIZE as int),
        ) || wall.area().contains(other.middle()),
    ensures
        wall == other,
{
}

/// A maze: immutable once loaded.
pub struct Maze {
    walls: Vec<Rect>,
    dots: Vec<Point>,
    power_pellets: Vec<Point>,
    pacman_spawn: Point,
    ghost_spawns: Vec<Point>,
    width: i64,
    height: i64,
}

impl View for Maze {
    type V = MazeView;

    closed spec fn view(&self) -> MazeView {
        MazeView {
            walls: rect_views(self.walls@),
            dots: point_views(self.dots@),
            power_pellets: point_views(self.power_pellets@),
            pacman_spawn: self.pacman_spawn@,
            ghost_spawns: point_views(self.ghost_spawns@),
            width: self.width as int,
            height: self.height as int,
        }
    }
}

/// Whether what has been collected is what the scan has found when it stands
/// at column `col` of row `r`.
spec fn collected(
    rows: Seq<Seq<char>>,
    r: int,
    col: int,
    walls: Seq<Rect>,
    dots: Seq<Point>,
    power_pellets: Seq<Point>,
    ghost_spawns: Seq<Point>,
    pacman_spawn: Option<Point>,
) -> bool {
    &&& rect_views(walls) == areas(scanned(rows, WALL, r, col))
    &&& point_views(dots) == middles(scanned(rows, DOT, r, col))
    &&& point_views(power_pellets) == middles(scanned(rows, POWER_PELLET, r, col))
    &&& point_views(ghost_spawns) == seats(scanned(rows, GHOST, r, col))
    &&& match pacman_spawn {
        Some(p) => scanned(rows, PACMAN, r, col).len() > 0 && p@ == scanned(
            rows,
            PACMAN,
            r,
            col,
        ).last().seat(),
        None => scanned(rows, PACMAN, r, col).len() == 0,
    }
}

/// The maze of a grid that fits the world and marks the player's start is
/// well formed.
pub proof fn lemma_maze_of_wf(rows: Seq<Seq<char>>)
    requires
        load_error(rows) is None,
    ensures
        maze_of(rows).wf(),
{
    let n = rows.len() as int;
    let m = maze_of(rows);
    lemma_marked(rows, WALL, n);
    lemma_marked(rows, PACMAN, n);
    lemma_marked(rows, GHOST, n);
    lemma_marked(rows, DOT, n);
    lemma_marked(rows, POWER_PELLET, n);
    lemma_widest(rows, n);
    let dots = marked(rows, DOT, n);
    let power_pellets = marked(rows, POWER_PELLET, n);
    assert forall|i: int, j: int|
        0 <= i < m.dots.len() && 0 <= j < m.walls.len() implies !(#[trigger] m.walls[j]).contains(
        #[trigger] m.dots[i],
    ) by {
        assert(holds(rows, marked(rows, WALL, n)[j], WALL));
        assert(holds(rows, dots[i], DOT));
        if marked(rows, WALL, n)[j].area().contains(dots[i].middle()) {
            lemma_cell_meets_own_only(marked(rows, WALL, n)[j], dots[i]);
        }
    }
    assert forall|i: int, j: int|
        0 <= i < m.power_pellets.len() && 0 <= j < m.walls.len() implies !(
    #[trigger] m.walls[j]).contains(#[trigger] m.power_pellets[i]) by {
        assert(holds(rows, marked(rows, WALL, n)[j], WALL));
        assert(holds(rows, power_pellets[i], POWER_PELLET));
        if marked(rows, WALL, n)[j].area().contains(power_pellets[i].middle()) {
            lemma_cell_meets_own_only(marked(rows, WALL, n)[j], power_pellets[i]);
        }
    }
    let walls = marked(rows, WALL, n);
    let start = marked(rows, PACMAN, n).last();
    assert(holds(rows, start, PACMAN));
    assert forall|i: int| 0 <= i < m.walls.len() implies (#[trigger] m.walls[i]).is_cell() by {
        assert(holds(rows, walls[i], WALL));
        assert(m.walls[i] == walls[i].area());
    }
    assert forall|i: int| 0 <= i < m.walls.len() implies !(#[trigger] m.walls[i]).overlaps(
        m.pacman_spawn.hitbox(PACMAN_SIZE as int),
    ) by {
        assert(holds(rows, walls[i], WALL));
        assert(m.walls[i] == walls[i].area());
        if walls[i].area().overlaps(start.seat().hitbox(PACMAN_SIZE as int)) {
            lemma_cell_meets_own_only(walls[i], start);
        }
    }
    let ghosts = marked(rows, GHOST, n);
    assert forall|i: int| 0 <= i < m.ghost_spawns.len() implies (#[trigger] m.ghost_spawns[i]).aligned()
        && m.ghost_spawns[i].in_world() by {
        if ghosts.len() > 0 {
            assert(holds(rows, ghosts[i], GHOST));
            assert(m.ghost_spawns[i] == ghosts[i].seat());
        } else {
            assert(m.ghost_spawns[i] == middle_cell(rows).seat());
        }
    }
    assert(holds(rows, start, PACMAN));
    assert(rows[start.row].len() <= widest(rows, n));
}

/// Where a grid marks starts for the pursuers, or where its middle cell is no
/// wall, no pursuer starts with its hitbox on a wall.
pub proof fn lemma_ghost_spawns_clear(rows: Seq<Seq<char>>)
    requires
        load_error(rows) is None,
        marked(rows, GHOST, rows.len() as int).len() > 0 || !holds(rows, middle_cell(rows), WALL),
    ensures
        maze_of(rows).ghost_spawns_clear(),
{
    let n = rows.len() as int;
    let m = maze_of(rows);
    lemma_maze_of_wf(rows);
    lemma_marked(rows, WALL, n);
    lemma_marked(rows, GHOST, n);
    let walls = marked(rows, WALL, n);
    let ghosts = marked(rows, GHOST, n);
    assert forall|i: int| 0 <= i < m.ghost_spawns.len() implies m.is_clear(
        #[trigger] m.ghost_spawns[i],
        GHOST_SIZE as int,
    ) by {
        let cell = if ghosts.len() > 0 {
            ghosts[i]
        } else {
            middle_cell(rows)
        };
        assert(m.ghost_spawns[i] == cell.seat());
        assert(m.ghost_spawns[i].in_world());
        if ghosts.len() > 0 {
            assert(holds(rows, ghosts[i], GHOST));
        }
        assert forall|j: int| 0 <= j < m.walls.len() implies !(#[trigger] m.walls[j]).overlaps(
            cell.seat().hitbox(GHOST_SIZE as int),
        ) by {
            assert(holds(rows, walls[j], WALL));
            assert(m.walls[j] == walls[j].area());
            if walls[j].area().overlaps(cell.seat().hitbox(GHOST_SIZE as int)) {
                lemma_cell_meets_own_only(walls[j], cell);
            }
        }
    }
}

/// No row among the first `n` is longer than `widest` says, and in a grid
/// that fits the world `widest` stays within the world.
pub proof fn lemma_widest(rows: Seq<Seq<char>>, n: int)
    requires
        0 <= n <= rows.len(),
    ensures
        0 <= widest(rows, n),
        forall|r: int| 0 <= r < n ==> (#[trigger] rows[r]).len() <= widest(rows, n),
        fits(rows) ==> widest(rows, n) <= WORLD_CELLS,
    decreases n,
{
    if n > 0 {
        lemma_widest(rows, n - 1);
    }
}

impl Maze {
    /// A maze that exists is well formed.
    #[verifier::type_invariant]
    pub open spec fn inv(&self) -> bool {
        self@.wf()
    }

    /// The walls, in reading order.
    pub fn walls(&self) -> (walls: &Vec<Rect>)
        ensures
            rect_views(walls@) == self@.walls,
    {
        &self.walls
    }

    /// Where the dots lie when a game starts, in reading order.
    pub fn dots(&self) -> (dots: &Vec<Point>)
        ensures
            point_views(dots@) == self@.dots,
    {
        &self.dots
    }

    /// Where the power pellets lie when a game starts, in reading order.
    pub fn power_pellets(&self) -> (power_pellets: &Vec<Point>)
        ensures
            point_views(power_pellets@) == self@.power_pellets,
    {
        &self.power_pellets
    }

    /// The hitbox corner from which the player starts.
    pub fn pacman_spawn(&self) -> (p: Point)
        ensures
            p@ == self@.pacman_spawn,
    {
        self.pacman_spawn
    }

    /// The hitbox corners from which the pursuers start, one for each.
    pub fn ghost_spawns(&self) -> (ghost_spawns: &Vec<Point>)
        ensures
            point_views(ghost_spawns@) == self@.ghost_spawns,
    {
        &self.ghost_spawns
    }

    /// Number of columns: the length of the longest row.
    pub fn width(&self) -> (w: i64)
        ensures
            w == self@.width,
    {
        self.width
    }

    /// Number of rows.
    pub fn height(&self) -> (h: i64)
        ensures
            h == self@.height,
    {
        self.height
    }

    /// Whether `rect` overlaps any wall. Nothing else decides whether an
    /// entity may occupy a place.
    pub fn is_blocked(&self, rect: &Rect) -> (b: bool)
        ensures
            b == self@.is_blocked(rect@),
    {
        let mut i: usize = 0;
        while i < self.walls.len()
            invariant
                i <= self.walls.len(),
                forall|k: int| 0 <= k < i ==> !(#[trigger] self@.walls[k]).overlaps(rect@),
            decreases self.walls.len() - i,
        {
            if self.walls[i].overlaps(rect) {
                assert(self@.walls[i as int].overlaps(rect@));
                return true;
            }
            i += 1;
        }
        false
    }

    /// The rectangle that `rect` gets to by `speed` along `direction`, or
    /// nothing if it would overlap a wall there or leave the world. A caller
    /// that gets nothing leaves the entity where it is.
    pub fn try_move(&self, rect: &Rect, direction: Direction, speed: i64) -> (r: Option<Rect>)
        ensures
            match r {
                Some(c) => self@.try_move(rect@, direction, speed as int) == Some(c@),
                None => self@.try_move(rect@, direction, speed as int) is None,
            },
    {
        match rect.shifted(direction, speed) {
            Some(candidate) => {
                if self.is_blocked(&candidate) {
                    None
                } else {
                    Some(candidate)
                }
            },
            None => None,
        }
    }

    /// Reads a maze from the rows of a grid, one character per cell: `W` is a
    /// wall, `.` a dot, `o` a power pellet, `P` the player's start and `G` a
    /// pursuer's start; every other character, and every cell that a short row
    /// leaves out, is open floor. Of several `P` the last one in reading order
    /// counts. Without any `G` the pursuers start in the middle cell.
    pub fn load(grid: &[&str]) -> (r: Result<Maze, MazeError>)
        ensures
            match r {
                Ok(m) => load_error(grid_rows(grid@)) is None && m@ == maze_of(grid_rows(grid@))
                    && m@.wf(),
                Err(e) => load_error(grid_rows(grid@)) == Some(e),
            },
    {
        broadcast use vstd::string::group_string_axioms;

        let ghost rows = grid_rows(grid@);
        if grid.len() == 0 {
            return Err(MazeError::EmptyGrid);
        }
        if grid.len() > WORLD_CELLS as usize {
            return Err(MazeError::TooLarge);
        }
        let mut walls: Vec<Rect> = Vec::new();
        let mut dots: Vec<Point> = Vec::new();
        let mut power_pellets: Vec<Point> = Vec::new();
        let mut ghost_spawns: Vec<Point> = Vec::new();
        let mut pacman_spawn: Option<Point> = None;
        let mut width: usize = 0;
        let mut r: usize = 0;
        proof {
            lemma_scan_row(rows, WALL, 0);
            lemma_scan_row(rows, DOT, 0);
            lemma_scan_row(rows, POWER_PELLET, 0);
            lemma_scan_row(rows, GHOST, 0);
            lemma_scan_row(rows, PACMAN, 0);
            assert(rect_views(walls@) =~= areas(marked(rows, WALL, 0)));
            assert(point_views(dots@) =~= middles(marked(rows, DOT, 0)));
            assert(point_views(power_pellets@) =~= middles(marked(rows, POWER_PELLET, 0)));
            assert(point_views(ghost_spawns@) =~= seats(marked(rows, GHOST, 0)));
        }
        while r < grid.len()
            invariant
                rows == grid_rows(grid@),
                0 < grid.len() <= WORLD_CELLS,
                r <= grid.len(),
                width == widest(rows, r as int),
                width <= WORLD_CELLS,
                forall|k: int| 0 <= k < r ==> (#[trigger] rows[k]).len() <= WORLD_CELLS,
                collected(
                    rows,
                    r as int,
                    0,
                    walls@,
                    dots@,
                    power_pellets@,
                    ghost_spawns@,
                    pacman_spawn,
                ),
            decreases grid.len() - r,
        {
            let row: &str = grid[r];
            assert(row@ == rows[r as int]);
            let mut it = row.chars();
            let mut col: usize = 0;
            loop
                invariant
                    rows == grid_rows(grid@),
                    r < grid.len() <= WORLD_CELLS,
                    row@ == rows[r as int],
                    col <= row@.len(),
                    col <= WORLD_CELLS,
                    it.remaining() == row@.skip(col as int),
                    it.obeys_prophetic_iter_laws(),
                    collected(
                        rows,
                        r as int,
                        col as int,
                        walls@,
                        dots@,
                        power_pellets@,
                        ghost_spawns@,
                        pacman_spawn,
                    ),
                ensures
                    col == row@.len(),
                decreases row@.len() - col,
            {
                let next: Option<char> = it.next();
                match next {
                    None => {
                        break ;
                    },
                    Some(c) => {
                        assert(c == rows[r as int][col as int]);
                        if col >= WORLD_CELLS as usize {
                            return Err(MazeError::TooLarge);
                        }
                        proof {
                            lemma_scan_step(rows, WALL, r as int, col as int);
                            lemma_scan_step(rows, DOT, r as int, col as int);
                            lemma_scan_step(rows, POWER_PELLET, r as int, col as int);
                            lemma_scan_step(rows, GHOST, r as int, col as int);
                            lemma_scan_step(rows, PACMAN, r as int, col as int);
                        }
                        let ghost cell = Cell { col: col as int, row: r as int };
                        let x: i64 = col as i64 * CELL_SIZE;
                        let y: i64 = r as i64 * CELL_SIZE;
                        if c == WALL {
                            let wall = Rect { x, y, w: CELL_SIZE, h: CELL_SIZE };
                            let ghost before = walls@;
                            walls.push(wall);
                            assert(wall@ == cell.area());
                            assert(rect_views(walls@) =~= rect_views(before).push(wall@));
                            assert(areas(scanned(rows, WALL, r as int, col as int).push(cell))
                                =~= areas(scanned(rows, WALL, r as int, col as int)).push(
                                cell.area(),
                            ));
                        } else if c == DOT {
                            let dot = Point { x: x + CELL_SIZE / 2, y: y + CELL_SIZE / 2 };
                            let ghost before = dots@;
                            dots.push(dot);
                            assert(dot@ == cell.middle());
                            assert(point_views(dots@) =~= point_views(before).push(dot@));
                            assert(middles(scanned(rows, DOT, r as int, col as int).push(cell))
                                =~= middles(scanned(rows, DOT, r as int, col as int)).push(
                                cell.middle(),
                            ));
                        } else if c == POWER_PELLET {
                            let pellet = Point { x: x + CELL_SIZE / 2, y: y + CELL_SIZE / 2 };
                            let ghost before = power_pellets@;
                            power_pellets.push(pellet);
                            assert(pellet@ == cell.middle());
                            assert(point_views(power_pellets@) =~= point_views(before).push(
                                pellet@,
                            ));
                            assert(middles(
                                scanned(rows, POWER_PELLET, r as int, col as int).push(cell),
                            ) =~= middles(
                                scanned(rows, POWER_PELLET, r as int, col as int),
                            ).push(cell.middle()));
                        } else if c == GHOST {
                            let seat = Point { x: x + INSET, y: y + INSET };
                            let ghost before = ghost_spawns@;
                            ghost_spawns.push(seat);
                            assert(seat@ == cell.seat());
                            assert(point_views(ghost_spawns@) =~= point_views(before).push(
                                seat@,
                            ));
                            assert(seats(scanned(rows, GHOST, r as int, col as int).push(cell))
                                =~= seats(scanned(rows, GHOST, r as int, col as int)).push(
                                cell.seat(),
                            ));
                        } else if c == PACMAN {
                            let seat = Point { x: x + INSET, y: y + INSET };
                            pacman_spawn = Some(seat);
                            assert(seat@ == cell.seat());
                        }
                        col += 1;
                    },
                }
            }
            proof {
                lemma_scan_row(rows, WALL, r as int);
                lemma_scan_row(rows, DOT, r as int);
                lemma_scan_row(rows, POWER_PELLET, r as int);
                lemma_scan_row(rows, GHOST, r as int);
                lemma_scan_row(rows, PACMAN, r as int);
            }
            if col > width {
                width = col;
            }
            r += 1;
        }
        proof {
            lemma_scan_row(rows, WALL, rows.len() - 1);
            lemma_scan_row(rows, DOT, rows.len() - 1);
            lemma_scan_row(rows, POWER_PELLET, rows.len() - 1);
            lemma_scan_row(rows, GHOST, rows.len() - 1);
            lemma_scan_row(rows, PACMAN, rows.len() - 1);
            assert(fits(rows));
        }
        match pacman_spawn {
            None => Err(MazeError::NoPlayerSpawn),
            Some(seat) => {
                if ghost_spawns.len() == 0 {
                    let middle = Point {
                        x: (width as i64 / 2) * CELL_SIZE + INSET,
                        y: (grid.len() as i64 / 2) * CELL_SIZE + INSET,
                    };
                    assert(middle@ == middle_cell(rows).seat());
                    let mut k: usize = 0;
                    while k < DEFAULT_GHOSTS
                        invariant
                            k <= DEFAULT_GHOSTS,
                            ghost_spawns.len() == k,
                            forall|i: int| 0 <= i < k ==> ghost_spawns[i] == middle,
                        decreases DEFAULT_GHOSTS - k,
                    {
                        ghost_spawns.push(middle);
                        k += 1;
                    }
                    assert(point_views(ghost_spawns@) =~= ghost_seats(rows));
                }
                proof {
                    lemma_maze_of_wf(rows);
                    assert(maze_of(rows) == (MazeView {
                        walls: rect_views(walls@),
                        dots: point_views(dots@),
                        power_pellets: point_views(power_pellets@),
                        pacman_spawn: seat@,
                        ghost_spawns: point_views(ghost_spawns@),
                        width: width as int,
                        height: grid.len() as int,
                    }));
                }
                Ok(
                    Maze {
                        walls,
                        dots,
                        power_pellets,
                        pacman_spawn: seat,
                        ghost_spawns,
                        width: width as i64,
                        height: grid.len() as i64,
                    },
                )
            },
        }
    }
}

} // verus!
