use vstd::prelude::*;
use crate::dice::roll_below;

verus! {

/// What a map tile is.
#[derive(Clone, Copy, Debug, PartialEq, Eq, Structural)]
pub enum TileType {
    Wall,
    Floor,
    Empty,
}

fn set_tile(grid: &mut Vec<Vec<TileType>>, x: usize, y: usize, t: TileType)
    requires
        x < old(grid)@.len(),
        y < old(grid)@[x as int]@.len(),
    ensures
        cells(final(grid)@) == cells(old(grid)@).update(x as int, cells(old(grid)@)[x as int].update(y as int, t)),
        final(grid)@.len() == old(grid)@.len(),
        forall|w: int, h: int| is_rect(cells(old(grid)@), w, h) ==> is_rect(cells(final(grid)@), w, h),
{
    grid[x].set(y, t);
    assert(cells(grid@) =~= cells(old(grid)@).update(x as int, cells(old(grid)@)[x as int].update(y as int, t)));
    assert forall|w: int, h: int| is_rect(cells(old(grid)@), w, h) implies is_rect(cells(grid@), w, h) by {
        assert forall|i: int| 0 <= i < w implies (#[trigger] cells(grid@)[i]).len() == h by {
            assert(cells(old(grid)@)[i].len() == h);
        }
    }
}

fn tile(grid: &Vec<Vec<TileType>>, x: usize, y: usize) -> (t: TileType)
    requires
        x < grid@.len(),
        y < grid@[x as int]@.len(),
    ensures
        t == at(cells(grid@), x as int, y as int),
{
    grid[x][y]
}

/// A rectangular grid's tile lies in its column.
pub(crate) proof fn lemma_rect_index(g: Seq<Vec<TileType>>, w: int, h: int, x: int)
    requires
        is_rect(cells(g), w, h),
        0 <= x < w,
    ensures
        g[x]@.len() == h,
        cells(g)[x] == g[x]@,
        g.len() == w,
{
    assert(cells(g)[x].len() == h);
}

/// The tiles of a grid, column by column (`g[x][y]`).
pub open spec fn cells(g: Seq<Vec<TileType>>) -> Seq<Seq<TileType>> {
    g.map_values(|r: Vec<TileType>| r@)
}

/// A `w` by `h` grid.
pub open spec fn is_rect(g: Seq<Seq<TileType>>, w: int, h: int) -> bool {
    &&& g.len() == w
    &&& forall|x: int| 0 <= x < w ==> (#[trigger] g[x]).len() == h
}

/// The tile at `(x, y)`, `Empty` outside the grid.
pub open spec fn at(g: Seq<Seq<TileType>>, x: int, y: int) -> TileType {
    if 0 <= x < g.len() && 0 <= y < g[x].len() {
        g[x][y]
    } else {
        TileType::Empty
    }
}

/// A floor that the wall builder looks at: it only visits the tiles left of
/// the last column and below the last row.
pub open spec fn visited_floor(g: Seq<Seq<TileType>>, w: int, h: int, x: int, y: int) -> bool {
    0 <= x < w - 1 && 0 <= y < h - 1 && at(g, x, y) == TileType::Floor
}

/// Whether a visited floor touches `(x, y)` on one of its four sides.
pub open spec fn next_to_visited_floor(g: Seq<Seq<TileType>>, w: int, h: int, x: int, y: int) -> bool {
    visited_floor(g, w, h, x, y - 1) || visited_floor(g, w, h, x, y + 1) || visited_floor(g, w, h, x - 1, y)
        || visited_floor(g, w, h, x + 1, y)
}

/// The tile after walls are built: an empty tile that touches a visited
/// floor becomes wall; every other tile stays.
pub open spec fn walled_tile(g: Seq<Seq<TileType>>, w: int, h: int, x: int, y: int) -> TileType {
    if at(g, x, y) == TileType::Empty && next_to_visited_floor(g, w, h, x, y) {
        TileType::Wall
    } else {
        at(g, x, y)
    }
}

/// The floor at `(fx, fy)` has been visited before `(x, y)` in the builder's
/// column-by-column order.
pub open spec fn visited_before(g: Seq<Seq<TileType>>, w: int, h: int, fx: int, fy: int, x: int, y: int) -> bool {
    visited_floor(g, w, h, fx, fy) && (fx < x || (fx == x && fy < y))
}

/// The tile once the builder has visited every floor before `(x, y)`.
pub open spec fn walled_so_far(g: Seq<Seq<TileType>>, w: int, h: int, i: int, j: int, x: int, y: int) -> TileType {
    if at(g, i, j) == TileType::Empty && (visited_before(g, w, h, i, j - 1, x, y) || visited_before(g, w, h, i, j + 1, x, y)
        || visited_before(g, w, h, i - 1, j, x, y) || visited_before(g, w, h, i + 1, j, x, y)) {
        TileType::Wall
    } else {
        at(g, i, j)
    }
}

/// Surrounds the floors with walls: every empty tile next to a floor (of
/// the tiles before the last column and row) becomes wall.
pub fn create_walls(grid: &mut Vec<Vec<TileType>>, w: usize, h: usize)
    requires
        w >= 1,
        h >= 1,
        is_rect(cells(old(grid)@), w as int, h as int),
        forall|y: int| 0 <= y < h - 1 ==> at(cells(old(grid)@), 0, y) != TileType::Floor,
        forall|x: int| 0 <= x < w - 1 ==> at(cells(old(grid)@), x, 0) != TileType::Floor,
    ensures
        is_rect(cells(final(grid)@), w as int, h as int),
        forall|x: int, y: int| 0 <= x < w && 0 <= y < h ==> #[trigger] at(cells(final(grid)@), x, y)
            == walled_tile(cells(old(grid)@), w as int, h as int, x, y),
{
    let ghost g0 = cells(old(grid)@);
    let mut x: usize = 0;
    while x < w - 1
        invariant
            w >= 1,
            h >= 1,
            0 <= x <= w - 1,
            is_rect(g0, w as int, h as int),
            is_rect(cells(grid@), w as int, h as int),
            forall|yy: int| 0 <= yy < h - 1 ==> at(g0, 0, yy) != TileType::Floor,
            forall|xx: int| 0 <= xx < w - 1 ==> at(g0, xx, 0) != TileType::Floor,
            forall|i: int, j: int| 0 <= i < w && 0 <= j < h ==> #[trigger] at(cells(grid@), i, j)
                == walled_so_far(g0, w as int, h as int, i, j, x as int, 0),
        decreases w - 1 - x,
    {
        let mut y: usize = 0;
        while y < h - 1
            invariant
                w >= 1,
                h >= 1,
                0 <= x < w - 1,
                0 <= y <= h - 1,
                is_rect(g0, w as int, h as int),
                is_rect(cells(grid@), w as int, h as int),
                forall|yy: int| 0 <= yy < h - 1 ==> at(g0, 0, yy) != TileType::Floor,
                forall|xx: int| 0 <= xx < w - 1 ==> at(g0, xx, 0) != TileType::Floor,
                forall|i: int, j: int| 0 <= i < w && 0 <= j < h ==> #[trigger] at(cells(grid@), i, j)
                    == walled_so_far(g0, w as int, h as int, i, j, x as int, y as int),
            decreases h - 1 - y,
        {
            assert(at(cells(grid@), x as int, y as int) == walled_so_far(g0, w as int, h as int, x as int, y as int, x as int, y as int));
            proof {
                lemma_rect_index(grid@, w as int, h as int, x as int);
            }
            if tile(grid, x, y) == TileType::Floor {
                assert(at(g0, x as int, y as int) == TileType::Floor);
                assert(x > 0 && y > 0);
                proof {
                    lemma_rect_index(grid@, w as int, h as int, (x + 1) as int);
                    lemma_rect_index(grid@, w as int, h as int, (x - 1) as int);
                }
                if tile(grid, x, y + 1) == TileType::Empty {
                    set_tile(grid, x, y + 1, TileType::Wall);
                }
                proof {
                    lemma_rect_index(grid@, w as int, h as int, x as int);
                    lemma_rect_index(grid@, w as int, h as int, (x + 1) as int);
                    lemma_rect_index(grid@, w as int, h as int, (x - 1) as int);
                }
                if tile(grid, x, y - 1) == TileType::Empty {
                    set_tile(grid, x, y - 1, TileType::Wall);
                }
                proof {
                    lemma_rect_index(grid@, w as int, h as int, x as int);
                    lemma_rect_index(grid@, w as int, h as int, (x + 1) as int);
                    lemma_rect_index(grid@, w as int, h as int, (x - 1) as int);
                }
                if tile(grid, x + 1, y) == TileType::Empty {
                    set_tile(grid, x + 1, y, TileType::Wall);
                }
                proof {
                    lemma_rect_index(grid@, w as int, h as int, (x - 1) as int);
                }
                if tile(grid, x - 1, y) == TileType::Empty {
                    set_tile(grid, x - 1, y, TileType::Wall);
                }
            }
            proof {
                assert forall|i: int, j: int| 0 <= i < w && 0 <= j < h implies #[trigger] at(cells(grid@), i, j)
                    == walled_so_far(g0, w as int, h as int, i, j, x as int, y + 1) by {
                }
            }
            y = y + 1;
        }
        proof {
            assert forall|i: int, j: int| 0 <= i < w && 0 <= j < h implies #[trigger] at(cells(grid@), i, j)
                == walled_so_far(g0, w as int, h as int, i, j, x + 1, 0) by {
                assert(walled_so_far(g0, w as int, h as int, i, j, x as int, (h - 1) as int) == walled_so_far(g0, w as int, h as int, i, j, x + 1, 0));
            }
        }
        x = x + 1;
    }
    proof {
        assert forall|i: int, j: int| 0 <= i < w && 0 <= j < h implies #[trigger] at(cells(grid@), i, j)
            == walled_tile(g0, w as int, h as int, i, j) by {
            assert(walled_so_far(g0, w as int, h as int, i, j, (w - 1) as int, 0) == walled_tile(g0, w as int, h as int, i, j));
        }
    }
}

/// A wall the cleaner turns into floor: floors on all its sides that lie in
/// the grid. The tiles to its left and below have already been cleaned
/// (`f`); the tiles to its right and above have not (`g`).
pub open spec fn lone_wall(g: Seq<Seq<TileType>>, f: Seq<Seq<TileType>>, x: int, y: int) -> bool {
    &&& at(g, x, y) == TileType::Wall
    &&& x >= 1 ==> at(f, x - 1, y) == TileType::Floor
    &&& y >= 1 ==> at(f, x, y - 1) == TileType::Floor
    &&& at(g, x + 1, y) == TileType::Floor
    &&& at(g, x, y + 1) == TileType::Floor
}

/// The cleaner visits `(i, j)` before `(x, y)`.
pub open spec fn cleaned_before(w: int, h: int, i: int, j: int, x: int, y: int) -> bool {
    0 <= i < w - 1 && 0 <= j < h - 1 && (i < x || (i == x && j < y))
}

/// Removes lone walls: visiting the tiles left of the last column and below
/// the last row column by column, a wall with floor on all its sides inside
/// the grid becomes floor (what was cleaned already counts).
pub fn remove_single_walls(grid: &mut Vec<Vec<TileType>>, w: usize, h: usize)
    requires
        w >= 1,
        h >= 1,
        is_rect(cells(old(grid)@), w as int, h as int),
    ensures
        is_rect(cells(final(grid)@), w as int, h as int),
        forall|x: int, y: int| 0 <= x < w - 1 && 0 <= y < h - 1 ==> #[trigger] at(cells(final(grid)@), x, y)
            == (if lone_wall(cells(old(grid)@), cells(final(grid)@), x, y) { TileType::Floor } else { at(cells(old(grid)@), x, y) }),
        forall|x: int, y: int| 0 <= x < w && 0 <= y < h && (x == w - 1 || y == h - 1) ==> #[trigger] at(cells(final(grid)@), x, y)
            == at(cells(old(grid)@), x, y),
{
    let ghost g0 = cells(old(grid)@);
    let mut x: usize = 0;
    while x < w - 1
        invariant
            w >= 1,
            h >= 1,
            0 <= x <= w - 1,
            is_rect(g0, w as int, h as int),
            is_rect(cells(grid@), w as int, h as int),
            forall|i: int, j: int| 0 <= i < w && 0 <= j < h && cleaned_before(w as int, h as int, i, j, x as int, 0)
                ==> #[trigger] at(cells(grid@), i, j) == (if lone_wall(g0, cells(grid@), i, j) { TileType::Floor } else { at(g0, i, j) }),
            forall|i: int, j: int| 0 <= i < w && 0 <= j < h && !cleaned_before(w as int, h as int, i, j, x as int, 0)
                ==> #[trigger] at(cells(grid@), i, j) == at(g0, i, j),
        decreases w - 1 - x,
    {
        let mut y: usize = 0;
        while y < h - 1
            invariant
                w >= 1,
                h >= 1,
                0 <= x < w - 1,
                0 <= y <= h - 1,
                is_rect(g0, w as int, h as int),
                is_rect(cells(grid@), w as int, h as int),
                forall|i: int, j: int| 0 <= i < w && 0 <= j < h && cleaned_before(w as int, h as int, i, j, x as int, y as int)
                    ==> #[trigger] at(cells(grid@), i, j) == (if lone_wall(g0, cells(grid@), i, j) { TileType::Floor } else { at(g0, i, j) }),
                forall|i: int, j: int| 0 <= i < w && 0 <= j < h && !cleaned_before(w as int, h as int, i, j, x as int, y as int)
                    ==> #[trigger] at(cells(grid@), i, j) == at(g0, i, j),
            decreases h - 1 - y,
        {
            proof {
                lemma_rect_index(grid@, w as int, h as int, x as int);
                lemma_rect_index(grid@, w as int, h as int, (x + 1) as int);
                if x > 0 {
                    lemma_rect_index(grid@, w as int, h as int, (x - 1) as int);
                }
            }
            let ghost before = cells(grid@);
            if tile(grid, x, y) == TileType::Wall {
                let mut all_floors = true;
                if x >= 1 && tile(grid, x - 1, y) != TileType::Floor {
                    all_floors = false;
                }
                if tile(grid, x + 1, y) != TileType::Floor {
                    all_floors = false;
                }
                if y >= 1 && tile(grid, x, y - 1) != TileType::Floor {
                    all_floors = false;
                }
                if tile(grid, x, y + 1) != TileType::Floor {
                    all_floors = false;
                }
                assert(all_floors == lone_wall(g0, before, x as int, y as int));
                if all_floors {
                    set_tile(grid, x, y, TileType::Floor);
                }
            }
            proof {
                let after = cells(grid@);
                assert forall|i: int, j: int| 0 <= i < w && 0 <= j < h && (i != x || j != y) implies
                    #[trigger] at(after, i, j) == at(before, i, j) by {}
                assert forall|i: int, j: int| 0 <= i < w && 0 <= j < h && cleaned_before(w as int, h as int, i, j, x as int, y + 1)
                    implies #[trigger] at(after, i, j) == (if lone_wall(g0, after, i, j) { TileType::Floor } else { at(g0, i, j) }) by {
                    if i != x || j != y {
                        assert(lone_wall(g0, after, i, j) == lone_wall(g0, before, i, j));
                    } else {
                        assert(lone_wall(g0, after, i, j) == lone_wall(g0, before, i, j));
                    }
                }
            }
            y = y + 1;
        }
        proof {
            assert forall|i: int, j: int| 0 <= i < w && 0 <= j < h implies
                #[trigger] cleaned_before(w as int, h as int, i, j, x as int, (h - 1) as int) == cleaned_before(w as int, h as int, i, j, x + 1, 0) by {}
        }
        x = x + 1;
    }
    proof {
        assert forall|i: int, j: int| 0 <= i < w - 1 && 0 <= j < h - 1 implies #[trigger] cleaned_before(w as int, h as int, i, j, (w - 1) as int, 0) by {}
    }
}

/// Number of floor tiles in a column.
pub open spec fn column_floors(r: Seq<TileType>) -> nat
    decreases r.len(),
{
    if r.len() == 0 {
        0
    } else {
        column_floors(r.drop_last()) + if r.last() == TileType::Floor { 1nat } else { 0nat }
    }
}

/// Number of floor tiles in a grid.
pub open spec fn grid_floors(g: Seq<Seq<TileType>>) -> nat
    decreases g.len(),
{
    if g.len() == 0 {
        0
    } else {
        grid_floors(g.drop_last()) + column_floors(g.last())
    }
}

proof fn lemma_column_floors_bound(r: Seq<TileType>)
    ensures
        column_floors(r) <= r.len(),
    decreases r.len(),
{
    if r.len() > 0 {
        lemma_column_floors_bound(r.drop_last());
    }
}

proof fn lemma_grid_floors_bound(g: Seq<Seq<TileType>>, w: int, h: int)
    requires
        is_rect(g, w, h),
        h >= 0,
    ensures
        grid_floors(g) <= w * h,
    decreases g.len(),
{
    if g.len() > 0 {
        let d = g.drop_last();
        assert(is_rect(d, w - 1, h)) by {
            assert forall|x: int| 0 <= x < w - 1 implies (#[trigger] d[x]).len() == h by {
                assert(d[x] == g[x]);
            }
        }
        lemma_grid_floors_bound(d, w - 1, h);
        lemma_column_floors_bound(g.last());
        assert(g.last() == g[w - 1]);
        assert((w - 1) * h + h == w * h) by (nonlinear_arith);
    }
}

/// Counts the floor tiles of a grid.
pub fn number_of_floors(grid: &Vec<Vec<TileType>>, w: usize, h: usize) -> (n: usize)
    requires
        is_rect(cells(grid@), w as int, h as int),
        w * h <= usize::MAX,
    ensures
        n == grid_floors(cells(grid@)),
        n <= w * h,
{
    let ghost g = cells(grid@);
    let mut n: usize = 0;
    let mut x: usize = 0;
    while x < w
        invariant
            0 <= x <= w,
            w * h <= usize::MAX,
            g == cells(grid@),
            is_rect(g, w as int, h as int),
            n == grid_floors(g.take(x as int)),
        decreases w - x,
    {
        proof {
            lemma_rect_index(grid@, w as int, h as int, x as int);
        }
        let mut c: usize = 0;
        let mut y: usize = 0;
        while y < h
            invariant
                0 <= x < w,
                0 <= y <= h,
                w * h <= usize::MAX,
                g == cells(grid@),
                is_rect(g, w as int, h as int),
                grid@[x as int]@.len() == h,
                g[x as int] == grid@[x as int]@,
                n == grid_floors(g.take(x as int)),
                c == column_floors(g[x as int].take(y as int)),
                c <= y,
            decreases h - y,
        {
            assert(g[x as int].take(y + 1).drop_last() =~= g[x as int].take(y as int));
            if grid[x][y] == TileType::Floor {
                c = c + 1;
            }
            y = y + 1;
        }
        assert(g[x as int].take(h as int) =~= g[x as int]);
        assert(g.take(x + 1).drop_last() =~= g.take(x as int));
        proof {
            let t = g.take(x + 1);
            assert(is_rect(t, x + 1, h as int)) by {
                assert forall|i: int| 0 <= i < x + 1 implies (#[trigger] t[i]).len() == h by {
                    assert(t[i] == g[i]);
                }
            }
            lemma_grid_floors_bound(t, x + 1, h as int);
            assert((x + 1) * h <= w * h) by (nonlinear_arith)
                requires
                    x + 1 <= w,
                    h >= 0,
            ;
        }
        n = n + c;
        x = x + 1;
    }
    assert(g.take(w as int) =~= g);
    proof {
        lemma_grid_floors_bound(g, w as int, h as int);
    }
    n
}

// ---------------------------------------------------------------------
// The level generator
// ---------------------------------------------------------------------

/// Where a walker heads: down `(0, -1)`, left `(-1, 0)`, up `(0, 1)` or
/// right `(1, 0)`.
#[derive(Clone, Copy, Debug, PartialEq, Eq, Structural)]
pub enum Direction {
    Down,
    Left,
    Up,
    Right,
}

/// A digger of floors: where it stands and where it heads.
#[derive(Clone, Copy, Debug)]
pub struct Walker {
    pub dir: Direction,
    pub pos: (usize, usize),
}

/// Digs a level: walkers wander over the grid turning the tiles they stand
/// on to floor, until enough of the grid is floor; walls then surround the
/// floors. Chances are in percent.
pub struct LevelGenerator {
    pub grid: Vec<Vec<TileType>>,
    pub room_height: usize,
    pub room_width: usize,
    pub walkers: Vec<Walker>,
    pub chance_walker_change_dir: u32,
    pub chance_walker_spawn: u32,
    pub chance_walker_destroy: u32,
    pub max_walkers: usize,
    pub percent_to_fill: u32,
}

/// The direction a roll in `0..4` picks.
pub open spec fn direction_for(roll: u32) -> Direction {
    if roll == 0 {
        Direction::Down
    } else if roll == 1 {
        Direction::Left
    } else if roll == 2 {
        Direction::Up
    } else {
        Direction::Right
    }
}

/// One step of a walker on one axis, kept to `[1, max]`.
pub open spec fn clamp_step(p: int, d: int, max: int) -> int {
    if p + d < 1 {
        1
    } else if p + d > max {
        max
    } else {
        p + d
    }
}

/// Where a walker stands after a step, kept off the border of a `w` by `h`
/// grid.
pub open spec fn stepped(wk: Walker, w: int, h: int) -> (int, int) {
    let (dx, dy) = match wk.dir {
        Direction::Down => (0int, -1int),
        Direction::Left => (-1int, 0int),
        Direction::Up => (0int, 1int),
        Direction::Right => (1int, 0int),
    };
    (clamp_step(wk.pos.0 as int, dx, w - 2), clamp_step(wk.pos.1 as int, dy, h - 2))
}

/// A walker stands inside the grid, off its first column and row.
pub open spec fn walker_in(wk: Walker, w: int, h: int) -> bool {
    1 <= wk.pos.0 < w && 1 <= wk.pos.1 < h
}

/// The grid only gained floors, and none on the first column or row.
pub open spec fn dug_from(g0: Seq<Seq<TileType>>, g: Seq<Seq<TileType>>, w: int, h: int) -> bool {
    forall|x: int, y: int|
        0 <= x < w && 0 <= y < h ==> #[trigger] at(g, x, y) == at(g0, x, y) || (at(g, x, y) == TileType::Floor
            && x >= 1 && y >= 1)
}

/// The grid only gained floors, all of them within the first `bw` columns
/// and `bh` rows but off the first column and row.
pub open spec fn dug_within(g0: Seq<Seq<TileType>>, g: Seq<Seq<TileType>>, w: int, h: int, bw: int, bh: int) -> bool {
    forall|x: int, y: int|
        0 <= x < w && 0 <= y < h ==> #[trigger] at(g, x, y) == at(g0, x, y) || (at(g, x, y) == TileType::Floor
            && 1 <= x < bw && 1 <= y < bh)
}

/// Some tile of the grid is floor.
pub open spec fn has_floor(g: Seq<Seq<TileType>>) -> bool {
    exists|x: int, y: int| #[trigger] at(g, x, y) == TileType::Floor
}

/// The tiles after lone walls are removed from `g`: left of the last
/// column and below the last row, a wall with floor on all its sides inside
/// the grid (what was cleaned already counts) becomes floor.
pub open spec fn cleaned(g: Seq<Seq<TileType>>, f: Seq<Seq<TileType>>, w: int, h: int) -> bool {
    &&& forall|x: int, y: int| 0 <= x < w - 1 && 0 <= y < h - 1 ==> #[trigger] at(f, x, y)
            == (if lone_wall(g, f, x, y) { TileType::Floor } else { at(g, x, y) })
    &&& forall|x: int, y: int| 0 <= x < w && 0 <= y < h && (x == w - 1 || y == h - 1) ==> #[trigger] at(f, x, y)
            == at(g, x, y)
}

/// The stages of a level: `g1` dug from an empty grid (floors, none on the
/// first column or row, at least one), `g2` with walls built around them,
/// `g3` with lone walls removed.
pub open spec fn level_stages(g1: Seq<Seq<TileType>>, g2: Seq<Seq<TileType>>, g3: Seq<Seq<TileType>>, w: int, h: int) -> bool {
    &&& is_rect(g1, w, h)
    &&& is_rect(g2, w, h)
    &&& is_rect(g3, w, h)
    &&& forall|x: int, y: int| 0 <= x < w && 0 <= y < h ==> #[trigger] at(g1, x, y) == TileType::Empty
            || (at(g1, x, y) == TileType::Floor && x >= 1 && y >= 1)
    &&& has_floor(g1)
    &&& forall|x: int, y: int| 0 <= x < w && 0 <= y < h ==> #[trigger] at(g2, x, y) == walled_tile(g1, w, h, x, y)
    &&& cleaned(g2, g3, w, h)
}

/// The digging stopped where it should: after `rounds` rounds (at least
/// one, at most 100000), with more than `pct` percent of the room floor
/// unless the rounds ran out.
pub open spec fn filled_enough(g: Seq<Seq<TileType>>, w: int, h: int, pct: int, rounds: int) -> bool {
    &&& 1 <= rounds <= 100000
    &&& grid_floors(g) * 100 > pct * (w * h) || rounds == 100000
}

/// No floor lies on the border of the room.
pub open spec fn floors_inside(g: Seq<Seq<TileType>>, w: int, h: int) -> bool {
    forall|x: int, y: int|
        0 <= x < w && 0 <= y < h && #[trigger] at(g, x, y) == TileType::Floor ==> 1 <= x <= w - 2 && 1 <= y <= h - 2
}

/// A `w` by `h` grid of empty tiles.
pub open spec fn empty_grid(w: int, h: int) -> Seq<Seq<TileType>> {
    Seq::new(w as nat, |x: int| Seq::new(h as nat, |y: int| TileType::Empty))
}

/// The walkers `ws` are the walkers `ws_old` and one more, in the middle of
/// the room (rounded up).
pub open spec fn started(ws: Seq<Walker>, ws_old: Seq<Walker>, w: int, h: int) -> bool {
    &&& ws.len() == ws_old.len() + 1
    &&& ws.drop_last() == ws_old
    &&& ws.last().pos.0 == (w + 1) / 2
    &&& ws.last().pos.1 == (h + 1) / 2
}

/// A grid that the generator can give, starting with the walkers `ws_old`
/// and the settings `c`: the last stage of some stages of a level, whose
/// floors some rounds of digging (`rounds` of them, until more than `pct`
/// percent of the room was floor) dug from an empty grid with those walkers
/// and one more in the middle; no floor is dug on the border when `inside`
/// holds.
pub open spec fn generated(
    g: Seq<Seq<TileType>>,
    w: int,
    h: int,
    pct: int,
    rounds: int,
    inside: bool,
    ws_old: Seq<Walker>,
    c: (u32, u32, u32, usize),
) -> bool {
    exists|g1: Seq<Seq<TileType>>, g2: Seq<Seq<TileType>>, ws_start: Seq<Walker>, ws1: Seq<Walker>, rs: Seq<RoundRolls>|
        #![trigger level_stages(g1, g2, g, w, h), digging_run(empty_grid(w, h), ws_start, g1, ws1, rounds, rs, c, pct, w, h)]
        level_stages(g1, g2, g, w, h) && filled_enough(g1, w, h, pct, rounds) && (inside ==> floors_inside(g1, w, h))
            && started(ws_start, ws_old, w, h) && digging_run(empty_grid(w, h), ws_start, g1, ws1, rounds, rs, c, pct, w, h)
}

/// The direction for a roll in `0..4`.
pub fn direction_for_roll(roll: u32) -> (d: Direction)
    ensures
        d == direction_for(roll),
{
    if roll == 0 {
        Direction::Down
    } else if roll == 1 {
        Direction::Left
    } else if roll == 2 {
        Direction::Up
    } else {
        Direction::Right
    }
}

/// A direction drawn at random, each of the four alike.
pub fn random_direction() -> (d: Direction)
    ensures
        exists|roll: u32| roll < 4 && d == direction_for(roll),
{
    let roll = roll_below(4);
    direction_for_roll(roll)
}

/// Moves a walker one step, keeping it off the border.
fn step_walker(wk: Walker, w: usize, h: usize) -> (r: Walker)
    requires
        w >= 3,
        h >= 3,
        wk.pos.0 < w,
        wk.pos.1 < h,
    ensures
        r.dir == wk.dir,
        (r.pos.0 as int, r.pos.1 as int) == stepped(wk, w as int, h as int),
        walker_in(r, w as int - 1, h as int - 1),
{
    let (x, y) = wk.pos;
    let (nx, ny): (usize, usize) = match wk.dir {
        Direction::Down => (x, if y >= 1 { y - 1 } else { 0 }),
        Direction::Left => (if x >= 1 { x - 1 } else { 0 }, y),
        Direction::Up => (x, y + 1),
        Direction::Right => (x + 1, y),
    };
    let cx = if nx < 1 { 1 } else if nx > w - 2 { w - 2 } else { nx };
    let cy = if ny < 1 { 1 } else if ny > h - 2 { h - 2 } else { ny };
    Walker { dir: wk.dir, pos: (cx, cy) }
}

/// The dice of one round of digging, one of each per walker: a roll in
/// `0..100` for dying, one for turning and one for spawning a new walker,
/// and a roll in `0..4` for the direction it turns to and for that of the
/// walker it spawns.
pub struct RoundRolls {
    pub destroy: Vec<u32>,
    pub turn: Vec<u32>,
    pub turn_dir: Vec<u32>,
    pub spawn: Vec<u32>,
    pub spawn_dir: Vec<u32>,
}

/// The dice hold one roll of each kind for each of `n` walkers.
pub open spec fn dice_for(r: RoundRolls, n: int) -> bool {
    &&& r.destroy@.len() == n
    &&& r.turn@.len() == n
    &&& r.turn_dir@.len() == n
    &&& r.spawn@.len() == n
    &&& r.spawn_dir@.len() == n
}

/// The dice hold one roll of each kind for each of `n` walkers, each roll in
/// its range.
pub open spec fn round_dice(r: RoundRolls, n: int) -> bool {
    &&& dice_for(r, n)
    &&& forall|i: int| 0 <= i < n ==> #[trigger] r.destroy@[i] < 100 && r.turn@[i] < 100 && r.spawn@[i] < 100
        && r.turn_dir@[i] < 4 && r.spawn_dir@[i] < 4
}

/// Some walker stands on tile `(x, y)`.
pub open spec fn stands_on(ws: Seq<Walker>, x: int, y: int) -> bool {
    exists|k: int| 0 <= k < ws.len() && (#[trigger] ws[k]).pos.0 == x && ws[k].pos.1 == y
}

/// The grid once every walker turned the tile it stands on to floor.
pub open spec fn dug(g: Seq<Seq<TileType>>, ws: Seq<Walker>) -> Seq<Seq<TileType>> {
    Seq::new(
        g.len(),
        |x: int|
            Seq::new(
                g[x].len(),
                |y: int|
                    if stands_on(ws, x, y) {
                        TileType::Floor
                    } else {
                        g[x][y]
                    },
            ),
    )
}

/// Walker `i` is the first of `n` whose roll comes under `chance`.
pub open spec fn dies_first(rolls: Seq<u32>, chance: u32, n: int, i: int) -> bool {
    &&& 0 <= i < n
    &&& rolls[i] < chance
    &&& forall|j: int| 0 <= j < i ==> rolls[j] >= chance
}

/// The walkers after one may die: the first whose roll comes under the
/// chance, as long as more than one is left.
pub open spec fn after_destroy(ws: Seq<Walker>, rolls: Seq<u32>, chance: u32) -> Seq<Walker> {
    if ws.len() > 1 && exists|i: int| dies_first(rolls, chance, ws.len() as int, i) {
        ws.remove(choose|i: int| dies_first(rolls, chance, ws.len() as int, i))
    } else {
        ws
    }
}

/// The walkers after each whose roll comes under the chance turns to the
/// direction of its direction roll.
pub open spec fn turned(ws: Seq<Walker>, rolls: Seq<u32>, dirs: Seq<u32>, chance: u32) -> Seq<Walker> {
    Seq::new(
        ws.len(),
        |k: int|
            if rolls[k] < chance {
                Walker { dir: direction_for(dirs[k]), pos: ws[k].pos }
            } else {
                ws[k]
            },
    )
}

/// The walkers after the first `k` of `ws` had their chance to spawn: one
/// whose roll comes under the chance adds a walker on its tile, heading the
/// way of its direction roll, while fewer than `max` walkers there are.
pub open spec fn spawned(ws: Seq<Walker>, rolls: Seq<u32>, dirs: Seq<u32>, chance: u32, max: usize, k: nat) -> Seq<Walker>
    decreases k,
{
    if k == 0 {
        ws
    } else {
        let prev = spawned(ws, rolls, dirs, chance, max, (k - 1) as nat);
        if rolls[k - 1] < chance && prev.len() < max {
            prev.push(Walker { dir: direction_for(dirs[k - 1]), pos: ws[k - 1].pos })
        } else {
            prev
        }
    }
}

/// The walkers after each took a step (see `stepped`).
pub open spec fn stepped_all(ws: Seq<Walker>, w: int, h: int) -> Seq<Walker> {
    Seq::new(
        ws.len(),
        |k: int| Walker { dir: ws[k].dir, pos: (stepped(ws[k], w, h).0 as usize, stepped(ws[k], w, h).1 as usize) },
    )
}

/// The walkers after a round on the dice `r`, with the chances to turn, to
/// spawn and to die and the most walkers `c`: one may die, each may turn,
/// each of those there are may spawn another, and all take a step.
pub open spec fn round_walkers(ws: Seq<Walker>, r: RoundRolls, c: (u32, u32, u32, usize), w: int, h: int) -> Seq<Walker> {
    let a = after_destroy(ws, r.destroy@, c.2);
    let b = turned(a, r.turn@, r.turn_dir@, c.0);
    stepped_all(spawned(b, r.spawn@, r.spawn_dir@, c.1, c.3, b.len()), w, h)
}

/// The grid and walkers after rounds of digging on the dice `rs`, one round
/// after the other, from the grid `g` and walkers `ws`.
pub open spec fn run_rounds(
    g: Seq<Seq<TileType>>,
    ws: Seq<Walker>,
    rs: Seq<RoundRolls>,
    c: (u32, u32, u32, usize),
    w: int,
    h: int,
) -> (Seq<Seq<TileType>>, Seq<Walker>)
    decreases rs.len(),
{
    if rs.len() == 0 {
        (g, ws)
    } else {
        let (g1, ws1) = run_rounds(g, ws, rs.drop_last(), c, w, h);
        (dug(g1, ws1), round_walkers(ws1, rs.last(), c, w, h))
    }
}

/// More than `pct` percent of the `w` by `h` grid is floor.
pub open spec fn filled(g: Seq<Seq<TileType>>, w: int, h: int, pct: int) -> bool {
    grid_floors(g) * 100 > pct * (w * h)
}

/// `g` and `ws` are what digging from `g0` and `ws0` gives: `rounds`
/// rounds, each on dice drawn for the walkers there were, the grid not yet
/// filled after any but the last, and filled after the last unless the
/// 100000 rounds ran out.
pub open spec fn digging_run(
    g0: Seq<Seq<TileType>>,
    ws0: Seq<Walker>,
    g: Seq<Seq<TileType>>,
    ws: Seq<Walker>,
    rounds: int,
    rs: Seq<RoundRolls>,
    c: (u32, u32, u32, usize),
    pct: int,
    w: int,
    h: int,
) -> bool {
    &&& rs.len() == rounds
    &&& run_rounds(g0, ws0, rs, c, w, h) == (g, ws)
    &&& forall|i: int| 0 <= i < rs.len() ==> round_dice(#[trigger] rs[i], run_rounds(g0, ws0, rs.take(i), c, w, h).1.len() as int)
    &&& forall|i: int| 1 <= i < rs.len() ==> !filled(#[trigger] run_rounds(g0, ws0, rs.take(i), c, w, h).0, w, h, pct)
    &&& filled(g, w, h, pct) || rounds == 100000
}

/// Spawning keeps the walkers there were in front, adds walkers only while
/// fewer than `max` there are, and puts them on tiles of walkers there were.
proof fn lemma_spawned(ws: Seq<Walker>, rolls: Seq<u32>, dirs: Seq<u32>, chance: u32, max: usize, k: nat, w: int, h: int)
    requires
        k <= ws.len(),
        forall|j: int| 0 <= j < ws.len() ==> walker_in(#[trigger] ws[j], w, h),
    ensures
        spawned(ws, rolls, dirs, chance, max, k).len() >= ws.len(),
        spawned(ws, rolls, dirs, chance, max, k).len() <= (if ws.len() > max { ws.len() as int } else { max as int }),
        forall|j: int| 0 <= j < ws.len() ==> #[trigger] spawned(ws, rolls, dirs, chance, max, k)[j] == ws[j],
        forall|j: int| 0 <= j < spawned(ws, rolls, dirs, chance, max, k).len() ==> walker_in(
            #[trigger] spawned(ws, rolls, dirs, chance, max, k)[j],
            w,
            h,
        ),
    decreases k,
{
    if k > 0 {
        lemma_spawned(ws, rolls, dirs, chance, max, (k - 1) as nat, w, h);
        let prev = spawned(ws, rolls, dirs, chance, max, (k - 1) as nat);
        let cur = spawned(ws, rolls, dirs, chance, max, k);
        if rolls[k - 1] < chance && prev.len() < max {
            assert(cur == prev.push(Walker { dir: direction_for(dirs[k - 1]), pos: ws[k - 1].pos }));
            assert forall|j: int| 0 <= j < cur.len() implies walker_in(#[trigger] cur[j], w, h) by {
                if j < prev.len() {
                    assert(cur[j] == prev[j]);
                } else {
                    assert(walker_in(ws[k - 1], w, h));
                }
            }
            assert forall|j: int| 0 <= j < ws.len() implies #[trigger] cur[j] == ws[j] by {
                assert(cur[j] == prev[j]);
            }
        }
    }
}

/// A round keeps every walker off the border, keeps at least one walker when
/// there was one, and adds walkers only while fewer than the most there are.
proof fn lemma_round_walkers(ws: Seq<Walker>, r: RoundRolls, c: (u32, u32, u32, usize), w: int, h: int)
    requires
        3 <= w <= usize::MAX,
        3 <= h <= usize::MAX,
        dice_for(r, ws.len() as int),
        forall|j: int| 0 <= j < ws.len() ==> walker_in(#[trigger] ws[j], w, h),
    ensures
        forall|j: int| 0 <= j < round_walkers(ws, r, c, w, h).len() ==> walker_in(
            #[trigger] round_walkers(ws, r, c, w, h)[j],
            w - 1,
            h - 1,
        ),
        ws.len() > 0 ==> round_walkers(ws, r, c, w, h).len() > 0,
        round_walkers(ws, r, c, w, h).len() <= (if ws.len() > c.3 { ws.len() as int } else { c.3 as int }),
{
    let a = after_destroy(ws, r.destroy@, c.2);
    let b = turned(a, r.turn@, r.turn_dir@, c.0);
    assert(a.len() <= ws.len());
    assert forall|j: int| 0 <= j < a.len() implies walker_in(#[trigger] a[j], w, h) by {
        if ws.len() > 1 && exists|i: int| dies_first(r.destroy@, c.2, ws.len() as int, i) {
            let i = choose|i: int| dies_first(r.destroy@, c.2, ws.len() as int, i);
            if j < i {
                assert(a[j] == ws[j]);
            } else {
                assert(a[j] == ws[j + 1]);
            }
        }
    }
    assert forall|j: int| 0 <= j < b.len() implies walker_in(#[trigger] b[j], w, h) by {
        assert(walker_in(a[j], w, h));
    }
    lemma_spawned(b, r.spawn@, r.spawn_dir@, c.1, c.3, b.len(), w, h);
    let d = spawned(b, r.spawn@, r.spawn_dir@, c.1, c.3, b.len());
    let e = stepped_all(d, w, h);
    assert forall|j: int| 0 <= j < e.len() implies walker_in(#[trigger] e[j], w - 1, h - 1) by {
        assert(walker_in(d[j], w, h));
        let p = stepped(d[j], w, h);
        assert(1 <= p.0 <= w - 2 && 1 <= p.1 <= h - 2);
        assert(e[j].pos.0 as int == p.0 && e[j].pos.1 as int == p.1);
    }
}

/// Digging keeps the grid's shape, adds floors only where walkers stand,
/// and makes the tile of every walker floor.
proof fn lemma_dug(g0: Seq<Seq<TileType>>, g: Seq<Seq<TileType>>, ws: Seq<Walker>, w: int, h: int, lw: int, lh: int)
    requires
        is_rect(g, w, h),
        dug_within(g0, g, w, h, lw, lh),
        forall|j: int| 0 <= j < ws.len() ==> walker_in(#[trigger] ws[j], lw, lh),
        lw <= w,
        lh <= h,
    ensures
        is_rect(dug(g, ws), w, h),
        dug_within(g0, dug(g, ws), w, h, lw, lh),
        ws.len() > 0 ==> has_floor(dug(g, ws)),
{
    let d = dug(g, ws);
    assert forall|x: int| 0 <= x < w implies (#[trigger] d[x]).len() == h by {}
    assert forall|x: int, y: int| 0 <= x < w && 0 <= y < h implies #[trigger] at(d, x, y) == at(g0, x, y) || (at(d, x, y)
        == TileType::Floor && 1 <= x < lw && 1 <= y < lh) by {
        if stands_on(ws, x, y) {
            let k = choose|k: int| 0 <= k < ws.len() && (#[trigger] ws[k]).pos.0 == x && ws[k].pos.1 == y;
            assert(walker_in(ws[k], lw, lh));
        } else {
            assert(at(d, x, y) == at(g, x, y));
        }
    }
    if ws.len() > 0 {
        let p = ws[0].pos;
        assert(walker_in(ws[0], lw, lh));
        assert(stands_on(ws, p.0 as int, p.1 as int));
        assert(at(d, p.0 as int, p.1 as int) == TileType::Floor);
    }
}

/// Draws the dice of a round for `n` walkers.
fn draw_round_rolls(n: usize) -> (r: RoundRolls)
    ensures
        round_dice(r, n as int),
{
    let mut r = RoundRolls { destroy: Vec::new(), turn: Vec::new(), turn_dir: Vec::new(), spawn: Vec::new(), spawn_dir: Vec::new() };
    let mut i: usize = 0;
    while i < n
        invariant
            i <= n,
            dice_for(r, i as int),
            forall|k: int| 0 <= k < i ==> r.destroy@[k] < 100,
            forall|k: int| 0 <= k < i ==> r.turn@[k] < 100,
            forall|k: int| 0 <= k < i ==> r.spawn@[k] < 100,
            forall|k: int| 0 <= k < i ==> r.turn_dir@[k] < 4,
            forall|k: int| 0 <= k < i ==> r.spawn_dir@[k] < 4,
        decreases n - i,
    {
        r.destroy.push(roll_below(100));
        r.turn.push(roll_below(100));
        r.turn_dir.push(roll_below(4));
        r.spawn.push(roll_below(100));
        r.spawn_dir.push(roll_below(4));
        i = i + 1;
    }
    r
}

impl LevelGenerator {
    /// A generator for a room of no size yet, with no walkers: walkers turn
    /// with a chance of 50%, spawn and die with 5%, are at most 10, and the
    /// room is dug until more than 20% of it is floor.
    pub fn new() -> (g: LevelGenerator)
        ensures
            g.grid@.len() == 0,
            g.room_height == 0,
            g.room_width == 0,
            g.walkers@.len() == 0,
            g.chance_walker_change_dir == 50,
            g.chance_walker_spawn == 5,
            g.chance_walker_destroy == 5,
            g.max_walkers == 10,
            g.percent_to_fill == 20,
    {
        LevelGenerator {
            grid: Vec::new(),
            room_height: 0,
            room_width: 0,
            walkers: Vec::new(),
            chance_walker_change_dir: 50,
            chance_walker_spawn: 5,
            chance_walker_destroy: 5,
            max_walkers: 10,
            percent_to_fill: 20,
        }
    }

    /// Makes an empty grid of the room's size and puts a first walker, with
    /// a random direction, at the middle of the room (rounded up).
    pub fn setup(&mut self)
        requires
            old(self).room_width >= 2,
            old(self).room_height >= 2,
        ensures
            is_rect(cells(final(self).grid@), old(self).room_width as int, old(self).room_height as int),
            forall|x: int, y: int|
                0 <= x < old(self).room_width && 0 <= y < old(self).room_height ==> #[trigger] at(
                    cells(final(self).grid@),
                    x,
                    y,
                ) == TileType::Empty,
            final(self).walkers@.len() == old(self).walkers@.len() + 1,
            final(self).walkers@.drop_last() == old(self).walkers@,
            final(self).walkers@.last().pos.0 == (old(self).room_width + 1) / 2,
            final(self).walkers@.last().pos.1 == (old(self).room_height + 1) / 2,
            final(self).room_width == old(self).room_width,
            final(self).room_height == old(self).room_height,
            final(self).max_walkers == old(self).max_walkers,
            final(self).chance_walker_change_dir == old(self).chance_walker_change_dir,
            final(self).chance_walker_spawn == old(self).chance_walker_spawn,
            final(self).chance_walker_destroy == old(self).chance_walker_destroy,
            final(self).percent_to_fill == old(self).percent_to_fill,
    {
        let w = self.room_width;
        let h = self.room_height;
        let mut grid: Vec<Vec<TileType>> = Vec::new();
        let mut x: usize = 0;
        while x < w
            invariant
                0 <= x <= w,
                grid@.len() == x,
                forall|i: int| 0 <= i < x ==> (#[trigger] grid@[i])@.len() == h,
                forall|i: int, j: int| 0 <= i < x && 0 <= j < h ==> grid@[i]@[j] == TileType::Empty,
            decreases w - x,
        {
            let mut col: Vec<TileType> = Vec::new();
            let mut y: usize = 0;
            while y < h
                invariant
                    0 <= y <= h,
                    col@.len() == y,
                    forall|j: int| 0 <= j < y ==> col@[j] == TileType::Empty,
                decreases h - y,
            {
                col.push(TileType::Empty);
                y = y + 1;
            }
            grid.push(col);
            x = x + 1;
        }
        self.grid = grid;
        let ghost g = cells(self.grid@);
        assert(is_rect(g, w as int, h as int)) by {
            assert forall|i: int| 0 <= i < w implies (#[trigger] g[i]).len() == h by {
                assert(g[i] == self.grid@[i]@);
            }
        }
        assert forall|i: int, j: int| 0 <= i < w && 0 <= j < h implies #[trigger] at(g, i, j) == TileType::Empty by {
            assert(g[i] == self.grid@[i]@);
        }
        let dir = random_direction();
        self.walkers.push(Walker { dir, pos: (w / 2 + w % 2, h / 2 + h % 2) });
    }

    /// The settings of the generator that the rounds of digging read: the
    /// chances to turn, to spawn and to die, and the most walkers.
    pub open spec fn dig_settings(&self) -> (u32, u32, u32, usize) {
        (self.chance_walker_change_dir, self.chance_walker_spawn, self.chance_walker_destroy, self.max_walkers)
    }

    /// Everything of the generator but its grid and walkers.
    pub open spec fn settings(&self) -> (usize, usize, u32, u32, u32, usize, u32) {
        (
            self.room_width,
            self.room_height,
            self.chance_walker_change_dir,
            self.chance_walker_spawn,
            self.chance_walker_destroy,
            self.max_walkers,
            self.percent_to_fill,
        )
    }

    /// One round of digging on the dice `rolls`: every walker turns its
    /// tile to floor; then the first walker whose roll comes under the
    /// chance to die dies, when more than one is left; each walker whose
    /// roll comes under the chance to turn takes the direction of its
    /// direction roll; each of those there are whose roll comes under the
    /// chance to spawn adds a walker on its tile, heading the way of its
    /// direction roll, while fewer than `max_walkers` there are; and all take
    /// a step, kept off the border.
    pub fn dig_round(&mut self, rolls: &RoundRolls)
        requires
            old(self).room_width >= 3,
            old(self).room_height >= 3,
            is_rect(cells(old(self).grid@), old(self).room_width as int, old(self).room_height as int),
            forall|k: int| 0 <= k < old(self).walkers@.len() ==> walker_in(
                #[trigger] old(self).walkers@[k],
                old(self).room_width as int,
                old(self).room_height as int,
            ),
            dice_for(*rolls, old(self).walkers@.len() as int),
        ensures
            cells(final(self).grid@) == dug(cells(old(self).grid@), old(self).walkers@),
            final(self).walkers@ == round_walkers(
                old(self).walkers@,
                *rolls,
                old(self).dig_settings(),
                old(self).room_width as int,
                old(self).room_height as int,
            ),
            final(self).settings() == old(self).settings(),
    {
        let w = self.room_width;
        let h = self.room_height;
        let ghost s0 = self.settings();
        let ghost c = self.dig_settings();
        let ghost g0 = cells(self.grid@);
        let ghost ws0 = self.walkers@;
        let n = self.walkers.len();
        // dig where every walker stands
        let mut k: usize = 0;
        while k < n
            invariant
                n == ws0.len(),
                0 <= k <= n,
                self.walkers@ == ws0,
                self.settings() == s0,
                w == s0.0,
                h == s0.1,
                forall|q: int| 0 <= q < n ==> walker_in(#[trigger] ws0[q], w as int, h as int),
                is_rect(g0, w as int, h as int),
                is_rect(cells(self.grid@), w as int, h as int),
                forall|x: int, y: int| 0 <= x < w && 0 <= y < h ==> #[trigger] cells(self.grid@)[x][y] == (if stands_on(
                    ws0.take(k as int),
                    x,
                    y,
                ) {
                    TileType::Floor
                } else {
                    g0[x][y]
                }),
            decreases n - k,
        {
            let wk = self.walkers[k];
            assert(walker_in(ws0[k as int], w as int, h as int));
            let ghost before = cells(self.grid@);
            proof {
                lemma_rect_index(self.grid@, w as int, h as int, wk.pos.0 as int);
            }
            set_tile(&mut self.grid, wk.pos.0, wk.pos.1, TileType::Floor);
            proof {
                let after = cells(self.grid@);
                let t1 = ws0.take(k as int);
                let t2 = ws0.take(k as int + 1);
                assert forall|x: int, y: int| 0 <= x < w && 0 <= y < h implies #[trigger] after[x][y] == (if stands_on(t2, x, y) {
                    TileType::Floor
                } else {
                    g0[x][y]
                }) by {
                    assert(t2[k as int] == ws0[k as int]);
                    if x == wk.pos.0 && y == wk.pos.1 {
                        assert(stands_on(t2, x, y));
                    } else {
                        assert(after[x][y] == before[x][y]);
                        if stands_on(t1, x, y) {
                            let j = choose|j: int| 0 <= j < t1.len() && (#[trigger] t1[j]).pos.0 == x && t1[j].pos.1 == y;
                            assert(t2[j] == t1[j]);
                            assert(stands_on(t2, x, y));
                        }
                        if stands_on(t2, x, y) {
                            let j = choose|j: int| 0 <= j < t2.len() && (#[trigger] t2[j]).pos.0 == x && t2[j].pos.1 == y;
                            assert(j != k);
                            assert(t1[j] == t2[j]);
                            assert(stands_on(t1, x, y));
                        }
                    }
                }
            }
            k = k + 1;
        }
        proof {
            assert(ws0.take(n as int) =~= ws0);
            let gd = dug(g0, ws0);
            let g1 = cells(self.grid@);
            assert forall|x: int| 0 <= x < g1.len() implies g1[x] =~= gd[x] by {
                assert forall|y: int| 0 <= y < g1[x].len() implies g1[x][y] == gd[x][y] by {
                    assert(g0[x].len() == h);
                    assert(g1[x][y] == g1[x][y]);
                }
            }
            assert(g1 =~= gd);
        }
        let ghost gd = cells(self.grid@);
        // one walker may die
        let mut i: usize = 0;
        while i < n
            invariant_except_break
                self.walkers@ == ws0,
            invariant
                n == ws0.len(),
                0 <= i <= n,
                self.settings() == s0,
                c == self.dig_settings(),
                cells(self.grid@) == gd,
                dice_for(*rolls, n as int),
                n > 1 ==> forall|j: int| 0 <= j < i ==> rolls.destroy@[j] >= c.2,
            ensures
                self.settings() == s0,
                cells(self.grid@) == gd,
                self.walkers@ == after_destroy(ws0, rolls.destroy@, c.2),
            decreases n - i,
        {
            if rolls.destroy[i] < self.chance_walker_destroy && self.walkers.len() > 1 {
                self.walkers.remove(i);
                proof {
                    assert(dies_first(rolls.destroy@, c.2, n as int, i as int));
                    let j = choose|j: int| dies_first(rolls.destroy@, c.2, n as int, j);
                    if j < i {
                        assert(rolls.destroy@[j] >= c.2);
                    }
                    if j > i {
                        assert(rolls.destroy@[i as int] >= c.2);
                    }
                    assert(j == i);
                }
                break;
            }
            i = i + 1;
        }
        proof {
            if n > 1 && exists|j: int| dies_first(rolls.destroy@, c.2, n as int, j) {
                if self.walkers@ == ws0 {
                    let j = choose|j: int| dies_first(rolls.destroy@, c.2, n as int, j);
                    assert(rolls.destroy@[j] < c.2);
                }
            }
        }
        let ghost a = self.walkers@;
        // walkers may turn
        let mut i: usize = 0;
        while i < self.walkers.len()
            invariant
                a.len() <= n,
                self.walkers@.len() == a.len(),
                0 <= i <= a.len(),
                self.settings() == s0,
                c == self.dig_settings(),
                cells(self.grid@) == gd,
                dice_for(*rolls, n as int),
                forall|q: int| 0 <= q < a.len() ==> #[trigger] self.walkers@[q] == (if q < i {
                    turned(a, rolls.turn@, rolls.turn_dir@, c.0)[q]
                } else {
                    a[q]
                }),
            decreases a.len() - i,
        {
            if rolls.turn[i] < self.chance_walker_change_dir {
                let wk = self.walkers[i];
                let dir = direction_for_roll(rolls.turn_dir[i]);
                self.walkers.set(i, Walker { dir, pos: wk.pos });
            }
            i = i + 1;
        }
        let ghost b = turned(a, rolls.turn@, rolls.turn_dir@, c.0);
        assert(self.walkers@ =~= b);
        // walkers may spawn new ones
        let nb = self.walkers.len();
        let mut i: usize = 0;
        while i < nb
            invariant
                nb == b.len(),
                nb <= n,
                0 <= i <= nb,
                self.settings() == s0,
                c == self.dig_settings(),
                cells(self.grid@) == gd,
                dice_for(*rolls, n as int),
                forall|q: int| 0 <= q < b.len() ==> walker_in(#[trigger] b[q], w as int, h as int),
                self.walkers@ == spawned(b, rolls.spawn@, rolls.spawn_dir@, c.1, c.3, i as nat),
            decreases nb - i,
        {
            proof {
                lemma_spawned(b, rolls.spawn@, rolls.spawn_dir@, c.1, c.3, i as nat, w as int, h as int);
            }
            if rolls.spawn[i] < self.chance_walker_spawn && self.walkers.len() < self.max_walkers {
                let pos = self.walkers[i].pos;
                let dir = direction_for_roll(rolls.spawn_dir[i]);
                self.walkers.push(Walker { dir, pos });
            }
            i = i + 1;
        }
        let ghost d = self.walkers@;
        proof {
            lemma_spawned(b, rolls.spawn@, rolls.spawn_dir@, c.1, c.3, nb as nat, w as int, h as int);
        }
        // every walker steps
        let mut i: usize = 0;
        while i < self.walkers.len()
            invariant
                self.walkers@.len() == d.len(),
                0 <= i <= d.len(),
                w >= 3,
                h >= 3,
                self.settings() == s0,
                w == s0.0,
                h == s0.1,
                cells(self.grid@) == gd,
                forall|q: int| 0 <= q < d.len() ==> walker_in(#[trigger] d[q], w as int, h as int),
                forall|q: int| 0 <= q < d.len() ==> #[trigger] self.walkers@[q] == (if q < i {
                    stepped_all(d, w as int, h as int)[q]
                } else {
                    d[q]
                }),
            decreases d.len() - i,
        {
            let wk = self.walkers[i];
            assert(walker_in(d[i as int], w as int, h as int));
            let moved = step_walker(wk, w, h);
            self.walkers.set(i, moved);
            i = i + 1;
        }
        assert(self.walkers@ =~= stepped_all(d, w as int, h as int));
    }

    /// Digs floors: rounds of `dig_round`, each on dice drawn for the
    /// walkers there are, until more than `percent_to_fill` percent of the
    /// grid is floor, or for 100000 rounds. Returns how many rounds ran.
    pub fn create_floors(&mut self) -> (rounds: u32)
        requires
            old(self).room_width >= 3,
            old(self).room_height >= 3,
            old(self).room_width * old(self).room_height <= usize::MAX,
            is_rect(cells(old(self).grid@), old(self).room_width as int, old(self).room_height as int),
            forall|k: int| 0 <= k < old(self).walkers@.len() ==> walker_in(
                #[trigger] old(self).walkers@[k],
                old(self).room_width as int,
                old(self).room_height as int,
            ),
        ensures
            is_rect(cells(final(self).grid@), old(self).room_width as int, old(self).room_height as int),
            dug_from(cells(old(self).grid@), cells(final(self).grid@), old(self).room_width as int, old(self).room_height as int),
            forall|k: int| 0 <= k < final(self).walkers@.len() ==> walker_in(
                #[trigger] final(self).walkers@[k],
                old(self).room_width as int - 1,
                old(self).room_height as int - 1,
            ),
            old(self).walkers@.len() > 0 ==> final(self).walkers@.len() > 0 && has_floor(cells(final(self).grid@)),
            final(self).walkers@.len() <= (if old(self).walkers@.len() > old(self).max_walkers {
                old(self).walkers@.len() as int
            } else {
                old(self).max_walkers as int
            }),
            final(self).room_width == old(self).room_width,
            final(self).room_height == old(self).room_height,
            1 <= rounds <= 100000,
            grid_floors(cells(final(self).grid@)) * 100 > old(self).percent_to_fill * (old(self).room_width
                * old(self).room_height) || rounds == 100000,
            (forall|k: int| 0 <= k < old(self).walkers@.len() ==> walker_in(
                #[trigger] old(self).walkers@[k],
                old(self).room_width as int - 1,
                old(self).room_height as int - 1,
            )) ==> dug_within(
                cells(old(self).grid@),
                cells(final(self).grid@),
                old(self).room_width as int,
                old(self).room_height as int,
                old(self).room_width as int - 1,
                old(self).room_height as int - 1,
            ),
            final(self).percent_to_fill == old(self).percent_to_fill,
            final(self).max_walkers == old(self).max_walkers,
            final(self).chance_walker_change_dir == old(self).chance_walker_change_dir,
            final(self).chance_walker_spawn == old(self).chance_walker_spawn,
            final(self).chance_walker_destroy == old(self).chance_walker_destroy,
            exists|rs: Seq<RoundRolls>| #[trigger] digging_run(
                cells(old(self).grid@),
                old(self).walkers@,
                cells(final(self).grid@),
                final(self).walkers@,
                rounds as int,
                rs,
                old(self).dig_settings(),
                old(self).percent_to_fill as int,
                old(self).room_width as int,
                old(self).room_height as int,
            ),
    {
        let w = self.room_width;
        let h = self.room_height;
        let ghost g0 = cells(self.grid@);
        let ghost n0 = self.walkers@.len();
        let ghost cap: int = if n0 > self.max_walkers { n0 as int } else { self.max_walkers as int };
        let ghost inner0: bool = forall|k: int| 0 <= k < self.walkers@.len() ==> walker_in(
            #[trigger] self.walkers@[k],
            w as int - 1,
            h as int - 1,
        );
        let ghost lw: int = if inner0 { w as int - 1 } else { w as int };
        let ghost lh: int = if inner0 { h as int - 1 } else { h as int };
        let ghost conf = (
            self.chance_walker_change_dir,
            self.chance_walker_spawn,
            self.chance_walker_destroy,
            self.max_walkers,
            self.percent_to_fill,
        );
        let ghost c = self.dig_settings();
        let ghost ws0 = self.walkers@;
        let mut iterations: u32 = 0;
        let ghost mut rs: Seq<RoundRolls> = Seq::empty();
        loop
            invariant_except_break
                iterations < 100000,
                iterations > 0 ==> !filled(cells(self.grid@), w as int, h as int, conf.4 as int),
            invariant
                self.digging(g0, w, h, lw, lh, n0, cap, conf),
                c == self.dig_settings(),
                iterations > 0 ==> forall|k: int| 0 <= k < self.walkers@.len() ==> walker_in(
                    #[trigger] self.walkers@[k],
                    w as int - 1,
                    h as int - 1,
                ),
                n0 > 0 && iterations > 0 ==> has_floor(cells(self.grid@)),
                rs.len() == iterations,
                run_rounds(g0, ws0, rs, c, w as int, h as int) == (cells(self.grid@), self.walkers@),
                forall|i: int| 0 <= i < rs.len() ==> round_dice(#[trigger] rs[i], run_rounds(g0, ws0, rs.take(i), c, w as int, h as int).1.len() as int),
                forall|i: int| 1 <= i < rs.len() ==> !filled(#[trigger] run_rounds(g0, ws0, rs.take(i), c, w as int, h as int).0, w as int, h as int, conf.4 as int),
            ensures
                self.digging(g0, w, h, lw, lh, n0, cap, conf),
                forall|k: int| 0 <= k < self.walkers@.len() ==> walker_in(
                    #[trigger] self.walkers@[k],
                    w as int - 1,
                    h as int - 1,
                ),
                n0 > 0 ==> has_floor(cells(self.grid@)),
                1 <= iterations <= 100000,
                digging_run(g0, ws0, cells(self.grid@), self.walkers@, iterations as int, rs, c, conf.4 as int, w as int, h as int),
            decreases 100000 - iterations,
        {
            let n = self.walkers.len();
            let rolls = draw_round_rolls(n);
            let ghost gb = cells(self.grid@);
            let ghost wsb = self.walkers@;
            self.dig_round(&rolls);
            proof {
                lemma_dug(g0, gb, wsb, w as int, h as int, lw, lh);
                lemma_round_walkers(wsb, rolls, c, w as int, h as int);
                let ws1 = self.walkers@;
                assert forall|k: int| 0 <= k < ws1.len() implies walker_in(#[trigger] ws1[k], lw, lh) by {
                    assert(walker_in(ws1[k], w as int - 1, h as int - 1));
                }
                let rs2 = rs.push(rolls);
                assert(rs2.drop_last() =~= rs);
                assert(rs2.last() == rolls);
                assert forall|i: int| 0 <= i < rs2.len() implies round_dice(#[trigger] rs2[i], run_rounds(g0, ws0, rs2.take(i), c, w as int, h as int).1.len() as int) by {
                    if i < rs.len() {
                        assert(rs2.take(i) =~= rs.take(i));
                        assert(rs2[i] == rs[i]);
                    } else {
                        assert(rs2.take(i) =~= rs);
                    }
                }
                assert forall|i: int| 1 <= i < rs2.len() implies !filled(#[trigger] run_rounds(g0, ws0, rs2.take(i), c, w as int, h as int).0, w as int, h as int, conf.4 as int) by {
                    if i < rs.len() {
                        assert(rs2.take(i) =~= rs.take(i));
                    } else {
                        assert(rs2.take(i) =~= rs);
                    }
                }
                rs = rs2;
            }
            // enough floor yet?
            let floors = number_of_floors(&self.grid, w, h);
            iterations = iterations + 1;
            assert((self.percent_to_fill as u128) * ((w as u128) * (h as u128)) <= 0xffff_ffff * 0xffff_ffff_ffff_ffff) by (nonlinear_arith)
                requires
                    w * h <= 0xffff_ffff_ffff_ffff,
                    self.percent_to_fill <= 0xffff_ffff,
            ;
            if (floors as u128) * 100 > (self.percent_to_fill as u128) * ((w as u128) * (h as u128)) {
                break;
            }
            if iterations >= 100000 {
                break;
            }
        }
        proof {
            assert(dug_from(g0, cells(self.grid@), w as int, h as int));
        }
        iterations
    }

    /// Generates the level (without placing its sprites): an empty grid
    /// and a first walker, floors dug, walls built around them, lone walls
    /// removed. Returns how many rounds the digging took. In a room of four
    /// tiles or more each way whose walkers stand off its border, no floor is
    /// dug on the border.
    pub fn start(&mut self) -> (rounds: u32)
        requires
            old(self).room_width >= 3,
            old(self).room_height >= 3,
            old(self).room_width * old(self).room_height <= usize::MAX,
            forall|k: int| 0 <= k < old(self).walkers@.len() ==> walker_in(
                #[trigger] old(self).walkers@[k],
                old(self).room_width as int,
                old(self).room_height as int,
            ),
        ensures
            generated(
                cells(final(self).grid@),
                old(self).room_width as int,
                old(self).room_height as int,
                old(self).percent_to_fill as int,
                rounds as int,
                old(self).room_width >= 4 && old(self).room_height >= 4 && forall|k: int|
                    0 <= k < old(self).walkers@.len() ==> walker_in(
                        #[trigger] old(self).walkers@[k],
                        old(self).room_width as int - 1,
                        old(self).room_height as int - 1,
                    ),
                old(self).walkers@,
                old(self).dig_settings(),
            ),
            final(self).room_width == old(self).room_width,
            final(self).room_height == old(self).room_height,
    {
        let w = self.room_width;
        let h = self.room_height;
        let ghost ws0 = self.walkers@;
        let ghost inside: bool = w >= 4 && h >= 4 && forall|k: int| 0 <= k < ws0.len() ==> walker_in(
            #[trigger] ws0[k],
            w as int - 1,
            h as int - 1,
        );
        self.setup();
        let ghost g0 = cells(self.grid@);
        proof {
            assert forall|k: int| 0 <= k < self.walkers@.len() implies walker_in(#[trigger] self.walkers@[k], w as int, h as int) by {
                if k == self.walkers@.len() - 1 {
                    assert(self.walkers@[k] == self.walkers@.last());
                } else {
                    assert(self.walkers@[k] == self.walkers@.drop_last()[k]);
                    assert(self.walkers@.drop_last()[k] == ws0[k]);
                }
            }
        }
        proof {
            if inside {
                assert forall|k: int| 0 <= k < self.walkers@.len() implies walker_in(#[trigger] self.walkers@[k], w as int - 1, h as int - 1) by {
                    if k == self.walkers@.len() - 1 {
                        assert(self.walkers@[k] == self.walkers@.last());
                    } else {
                        assert(self.walkers@[k] == self.walkers@.drop_last()[k]);
                        assert(self.walkers@.drop_last()[k] == ws0[k]);
                    }
                }
            }
        }
        let ghost ws_start = self.walkers@;
        proof {
            assert(g0 =~= empty_grid(w as int, h as int)) by {
                assert forall|x: int| 0 <= x < w implies g0[x] =~= empty_grid(w as int, h as int)[x] by {
                    assert forall|y: int| 0 <= y < h implies g0[x][y] == TileType::Empty by {
                        assert(at(g0, x, y) == TileType::Empty);
                    }
                }
            }
        }
        let rounds = self.create_floors();
        let ghost g1 = cells(self.grid@);
        let ghost ws1 = self.walkers@;
        proof {
            if inside {
                assert forall|x: int, y: int| 0 <= x < w && 0 <= y < h && #[trigger] at(g1, x, y) == TileType::Floor implies 1 <= x <= w - 2
                    && 1 <= y <= h - 2 by {
                    assert(at(g0, x, y) == TileType::Empty);
                }
            }
        }
        proof {
            assert forall|y: int| 0 <= y < h - 1 implies at(g1, 0, y) != TileType::Floor by {
                assert(at(g1, 0, y) == at(g0, 0, y) || (at(g1, 0, y) == TileType::Floor && 0 >= 1));
            }
            assert forall|x: int| 0 <= x < w - 1 implies at(g1, x, 0) != TileType::Floor by {
                assert(at(g1, x, 0) == at(g0, x, 0) || (at(g1, x, 0) == TileType::Floor && 0 >= 1));
            }
        }
        create_walls(&mut self.grid, w, h);
        let ghost g2 = cells(self.grid@);
        remove_single_walls(&mut self.grid, w, h);
        proof {
            let g3 = cells(self.grid@);
            assert forall|x: int, y: int| 0 <= x < w && 0 <= y < h implies #[trigger] at(g1, x, y) == TileType::Empty
                || (at(g1, x, y) == TileType::Floor && x >= 1 && y >= 1) by {
                assert(at(g1, x, y) == at(g0, x, y) || (at(g1, x, y) == TileType::Floor && x >= 1 && y >= 1));
            }
            assert(level_stages(g1, g2, g3, w as int, h as int));
            assert(filled_enough(g1, w as int, h as int, self.percent_to_fill as int, rounds as int));
            let rs = choose|rs: Seq<RoundRolls>| #[trigger] digging_run(
                g0,
                ws_start,
                g1,
                ws1,
                rounds as int,
                rs,
                self.dig_settings(),
                self.percent_to_fill as int,
                w as int,
                h as int,
            );
            assert(started(ws_start, ws0, w as int, h as int));
            assert(level_stages(g1, g2, g3, w as int, h as int) && digging_run(
                empty_grid(w as int, h as int),
                ws_start,
                g1,
                ws1,
                rounds as int,
                rs,
                self.dig_settings(),
                self.percent_to_fill as int,
                w as int,
                h as int,
            ));
        }
        rounds
    }

    /// What holds of the generator all along the digging: walkers and
    /// floors keep within `lw` columns and `lh` rows (off the first of each),
    /// and the settings `conf` stay.
    spec fn digging(
        &self,
        g0: Seq<Seq<TileType>>,
        w: usize,
        h: usize,
        lw: int,
        lh: int,
        n0: nat,
        cap: int,
        conf: (u32, u32, u32, usize, u32),
    ) -> bool {
        &&& w == self.room_width
        &&& h == self.room_height
        &&& w >= 3
        &&& h >= 3
        &&& w - 1 <= lw <= w
        &&& h - 1 <= lh <= h
        &&& w * h <= usize::MAX
        &&& is_rect(g0, w as int, h as int)
        &&& is_rect(cells(self.grid@), w as int, h as int)
        &&& dug_within(g0, cells(self.grid@), w as int, h as int, lw, lh)
        &&& forall|k: int| 0 <= k < self.walkers@.len() ==> walker_in(#[trigger] self.walkers@[k], lw, lh)
        &&& n0 > 0 ==> self.walkers@.len() > 0
        &&& self.walkers@.len() <= cap
        &&& self.max_walkers <= cap
        &&& conf == (
            self.chance_walker_change_dir,
            self.chance_walker_spawn,
            self.chance_walker_destroy,
            self.max_walkers,
            self.percent_to_fill,
        )
    }
}

} // verus!
