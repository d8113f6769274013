use vstd::prelude::*;
use crate::gamemap::TileType;
use crate::dice::roll_below;
use crate::mobs::{MobType, random_chapter_mob, chapter_mob_spec, chapter_roll_bound, roll_mobs_for_chapter, mobs_for_chapter_spec};

verus! {

/// What the mob map knows of a tile: its kind and how many mobs stand on
/// it (`SPAWN_MARK` while a mob is due to spawn there).
#[derive(Clone, Copy, Debug, PartialEq, Eq, Structural)]
pub struct MapCell {
    pub tiletype: TileType,
    pub mob_count: i16,
}

/// The mob count of a tile chosen as a spawn point.
pub const SPAWN_MARK: i16 = 0x7fff;

/// The tiles of a room, column by column (`cells[x][y]`), with the mobs
/// standing on them.
pub struct MobMap {
    pub cells: Vec<Vec<MapCell>>,
}

/// The cells of a map as sequences.
pub open spec fn map_cells(c: Seq<Vec<MapCell>>) -> Seq<Seq<MapCell>> {
    c.map_values(|r: Vec<MapCell>| r@)
}

/// The cell of tile `t`, if the map has it.
pub open spec fn cell_at(m: Seq<Seq<MapCell>>, t: (int, int)) -> Option<MapCell> {
    if 0 <= t.0 < m.len() && 0 <= t.1 < m[t.0].len() {
        Some(m[t.0][t.1])
    } else {
        None
    }
}

/// A floor tile with no mob on it.
pub open spec fn free_floor(m: Seq<Seq<MapCell>>, t: (int, int)) -> bool {
    match cell_at(m, t) {
        Some(c) => c.tiletype == TileType::Floor && c.mob_count == 0,
        None => false,
    }
}

impl MobMap {
    /// The map's cells.
    pub open spec fn view_cells(&self) -> Seq<Seq<MapCell>> {
        map_cells(self.cells@)
    }

    /// The cell of tile `t`, if the map has it.
    pub fn get(&self, t: (u16, u16)) -> (c: Option<MapCell>)
        ensures
            c == cell_at(self.view_cells(), (t.0 as int, t.1 as int)),
    {
        let x = t.0 as usize;
        let y = t.1 as usize;
        if x < self.cells.len() && y < self.cells[x].len() {
            Some(self.cells[x][y])
        } else {
            None
        }
    }

    /// Whether tile `t` is a floor with no mob on it.
    pub fn is_free_floor(&self, t: (u16, u16)) -> (b: bool)
        ensures
            b == free_floor(self.view_cells(), (t.0 as int, t.1 as int)),
    {
        match self.get(t) {
            Some(c) => c.tiletype == TileType::Floor && c.mob_count == 0,
            None => false,
        }
    }

    /// Sets the mob count of tile `t`, which the map has.
    fn set_count(&mut self, t: (u16, u16), n: i16)
        requires
            cell_at(old(self).view_cells(), (t.0 as int, t.1 as int)) is Some,
        ensures
            final(self).view_cells() == old(self).view_cells().update(
                t.0 as int,
                old(self).view_cells()[t.0 as int].update(
                    t.1 as int,
                    MapCell { mob_count: n, ..old(self).view_cells()[t.0 as int][t.1 as int] },
                ),
            ),
    {
        let x = t.0 as usize;
        let y = t.1 as usize;
        let mut col = self.cells[x].clone();
        let c = col[y];
        col.set(y, MapCell { tiletype: c.tiletype, mob_count: n });
        let ghost col_v = col@;
        self.cells.set(x, col);
        assert(self.view_cells() =~= old(self).view_cells().update(x as int, col_v));
    }

    /// A mob moves from tile `from` to tile `to`: one mob less on the first,
    /// one more on the second.
    pub fn move_mob(&mut self, from: (u16, u16), to: (u16, u16))
        requires
            cell_at(old(self).view_cells(), (from.0 as int, from.1 as int)) is Some,
            cell_at(old(self).view_cells(), (to.0 as int, to.1 as int)) is Some,
            cell_at(old(self).view_cells(), (to.0 as int, to.1 as int))->Some_0.mob_count < i16::MAX,
            from != to ==> cell_at(old(self).view_cells(), (from.0 as int, from.1 as int))->Some_0.mob_count
                > i16::MIN,
        ensures
            forall|t: (int, int)| #[trigger] cell_at(final(self).view_cells(), t) == (if t == (to.0 as int, to.1 as int)
                && t == (from.0 as int, from.1 as int) {
                cell_at(old(self).view_cells(), t)
            } else if t == (to.0 as int, to.1 as int) {
                Some(MapCell { mob_count: (cell_at(old(self).view_cells(), t)->Some_0.mob_count + 1) as i16, ..cell_at(old(self).view_cells(), t)->Some_0 })
            } else if t == (from.0 as int, from.1 as int) {
                Some(MapCell { mob_count: (cell_at(old(self).view_cells(), t)->Some_0.mob_count - 1) as i16, ..cell_at(old(self).view_cells(), t)->Some_0 })
            } else {
                cell_at(old(self).view_cells(), t)
            }),
    {
        let c = self.get(to).unwrap();
        self.set_count(to, c.mob_count + 1);
        let d = self.get(from).unwrap();
        self.set_count(from, d.mob_count - 1);
    }
}

impl MobMap {
    /// A mob that never moves takes its place on tile `t`: one more mob
    /// counted there.
    pub fn mob_entered_tile(&mut self, t: (u16, u16))
        requires
            cell_at(old(self).view_cells(), (t.0 as int, t.1 as int)) is Some,
            cell_at(old(self).view_cells(), (t.0 as int, t.1 as int))->Some_0.mob_count < i16::MAX,
        ensures
            forall|u: (int, int)| #[trigger] cell_at(final(self).view_cells(), u) == (if u == (t.0 as int, t.1 as int) {
                Some(with_count(cell_at(old(self).view_cells(), u)->Some_0, (cell_at(old(self).view_cells(), u)->Some_0.mob_count + 1) as i16))
            } else {
                cell_at(old(self).view_cells(), u)
            }),
    {
        let c = self.get(t).unwrap();
        self.set_count(t, c.mob_count + 1);
    }

    /// A mob that never moves dies on tile `t`: one mob less counted there.
    pub fn mob_left_tile(&mut self, t: (u16, u16))
        requires
            cell_at(old(self).view_cells(), (t.0 as int, t.1 as int)) is Some,
            cell_at(old(self).view_cells(), (t.0 as int, t.1 as int))->Some_0.mob_count > i16::MIN,
        ensures
            forall|u: (int, int)| #[trigger] cell_at(final(self).view_cells(), u) == (if u == (t.0 as int, t.1 as int) {
                Some(with_count(cell_at(old(self).view_cells(), u)->Some_0, (cell_at(old(self).view_cells(), u)->Some_0.mob_count - 1) as i16))
            } else {
                cell_at(old(self).view_cells(), u)
            }),
    {
        let c = self.get(t).unwrap();
        self.set_count(t, c.mob_count - 1);
    }
}

/// A tile off the border of the room, where mobs may spawn.
pub open spec fn inner_tile(t: (int, int)) -> bool {
    1 <= t.0 <= 30 && 1 <= t.1 <= 30
}

/// A tile that can become a spawn point: an inner floor not chosen yet.
pub open spec fn spawnable(m: Seq<Seq<MapCell>>, t: (int, int)) -> bool {
    &&& inner_tile(t)
    &&& cell_at(m, t) is Some
    &&& cell_at(m, t)->Some_0.tiletype == TileType::Floor
    &&& cell_at(m, t)->Some_0.mob_count != SPAWN_MARK
}

/// A tile chosen as a spawn point.
pub open spec fn marked(m: Seq<Seq<MapCell>>, t: (int, int)) -> bool {
    cell_at(m, t) is Some && cell_at(m, t)->Some_0.mob_count == SPAWN_MARK
}

/// The tiles that became spawn points between `m0` and `m1`.
pub open spec fn newly_marked(m0: Seq<Seq<MapCell>>, m1: Seq<Seq<MapCell>>) -> Set<(int, int)> {
    Set::new(|t: (int, int)| cell_at(m0, t) is Some && !marked(m0, t) && marked(m1, t))
}

/// Tile `t` is `cell` with its mob count set to `n`.
pub open spec fn with_count(c: MapCell, n: i16) -> MapCell {
    MapCell { tiletype: c.tiletype, mob_count: n }
}

/// The distance part of the spawn chance of a tile: its Manhattan distance
/// to the middle of the room, less one.
pub open spec fn spawn_chance(t: (int, int)) -> int {
    (if t.0 >= 16 { t.0 - 16 } else { 16 - t.0 }) + (if t.1 >= 16 { t.1 - 16 } else { 16 - t.1 }) - 1
}

/// Where the spawn pass reaches tile `t`: the inner tiles are scanned
/// column by column, each column from its first row.
pub open spec fn scan_index(t: (int, int)) -> int {
    (t.0 - 1) * 30 + (t.1 - 1)
}

/// The tile the spawn pass reaches at step `k`.
pub open spec fn scan_tile(k: int) -> (int, int) {
    (k / 30 + 1, k % 30 + 1)
}

/// At step `k` of a pass over `m0` with `rolls`, the tile reached can take a
/// spawn and its roll comes under its spawn chance.
pub open spec fn roll_hits(m0: Seq<Seq<MapCell>>, rolls: Seq<u32>, k: int) -> bool {
    spawnable(m0, scan_tile(k)) && rolls[k] < spawn_chance(scan_tile(k))
}

/// How many spawn points a pass over `m0` with `rolls`, placing at most
/// `amount`, has chosen before step `k`.
pub open spec fn marks_before(m0: Seq<Seq<MapCell>>, rolls: Seq<u32>, amount: int, k: nat) -> int
    decreases k,
{
    if k == 0 {
        0
    } else {
        let n = marks_before(m0, rolls, amount, (k - 1) as nat);
        if roll_hits(m0, rolls, k - 1) && n < amount {
            n + 1
        } else {
            n
        }
    }
}

/// Tile `t` becomes a spawn point in a pass over `m0` with `rolls` placing at
/// most `amount`: an inner tile that can take a spawn, whose roll comes under
/// its spawn chance, reached while fewer than `amount` were chosen.
pub open spec fn pass_marks(m0: Seq<Seq<MapCell>>, rolls: Seq<u32>, amount: int, t: (int, int)) -> bool {
    &&& inner_tile(t)
    &&& spawnable(m0, t)
    &&& rolls[scan_index(t)] < spawn_chance(t)
    &&& marks_before(m0, rolls, amount, scan_index(t) as nat) < amount
}

/// The map a pass over `m0` with `rolls`, placing at most `amount`, leaves:
/// the tiles it chooses become spawn points, the others stay.
pub open spec fn pass_map(m0: Seq<Seq<MapCell>>, rolls: Seq<u32>, amount: int) -> Seq<Seq<MapCell>> {
    Seq::new(
        m0.len(),
        |x: int|
            Seq::new(
                m0[x].len(),
                |y: int|
                    if pass_marks(m0, rolls, amount, (x, y)) {
                        with_count(m0[x][y], SPAWN_MARK)
                    } else {
                        m0[x][y]
                    },
            ),
    )
}

/// How many of `amount` mobs a pass over `m0` with `rolls` leaves without a
/// spawn point.
pub open spec fn pass_left(m0: Seq<Seq<MapCell>>, rolls: Seq<u32>, amount: int) -> int {
    amount - marks_before(m0, rolls, amount, 900)
}

/// A pass over `m0` with `rolls` placing at most `amount` leaves the map
/// `m1`, with `left` mobs not placed.
pub open spec fn pass_outcome(m0: Seq<Seq<MapCell>>, m1: Seq<Seq<MapCell>>, rolls: Seq<u32>, amount: int, left: int) -> bool {
    &&& left == pass_left(m0, rolls, amount)
    &&& m1 == pass_map(m0, rolls, amount)
}

/// Rolls for one pass each: 900 of them, each in `0..32`.
pub open spec fn pass_rolls(rs: Seq<Seq<u32>>) -> bool {
    forall|i: int| 0 <= i < rs.len() ==> (#[trigger] rs[i]).len() == 900 && forall|j: int| 0 <= j < 900 ==> rs[i][j] < 32
}

/// The map and the mobs left after passes over `m0` with the rolls `rs`, one
/// pass after the other, starting with `amount` mobs to place.
pub open spec fn run_passes(m0: Seq<Seq<MapCell>>, rs: Seq<Seq<u32>>, amount: int) -> (Seq<Seq<MapCell>>, int)
    decreases rs.len(),
{
    if rs.len() == 0 {
        (m0, amount)
    } else {
        let (m, l) = run_passes(m0, rs.drop_last(), amount);
        (pass_map(m, rs.last(), l), pass_left(m, rs.last(), l))
    }
}

/// `m1` and `left` are what placing `amount` mobs on `m0` gives: passes run
/// one after the other on rolls `rs`, each while mobs were left, and they
/// stop early only once every mob has its spawn point.
pub open spec fn placement_run(m0: Seq<Seq<MapCell>>, m1: Seq<Seq<MapCell>>, amount: int, left: int, rs: Seq<Seq<u32>>) -> bool {
    &&& run_passes(m0, rs, amount) == (m1, left)
    &&& pass_rolls(rs)
    &&& forall|i: int| 0 <= i < rs.len() ==> (#[trigger] run_passes(m0, rs.take(i), amount)).1 > 0
    &&& left > 0 ==> rs.len() == u32::MAX
}

/// The only change from `m0` to `m1` is tiles that could take a spawn, away
/// from the middle of the room, becoming spawn points.
pub open spec fn marks_only(m0: Seq<Seq<MapCell>>, m1: Seq<Seq<MapCell>>) -> bool {
    forall|t: (int, int)| #[trigger] cell_at(m1, t) == cell_at(m0, t) || (spawnable(m0, t) && spawn_chance(t) > 0
        && cell_at(m1, t) == Some(with_count(cell_at(m0, t)->Some_0, SPAWN_MARK)))
}

/// Spawn points chosen over two rounds add up: what the first round chose
/// and what the second chose are apart, and together they are what was
/// chosen from the start.
pub proof fn lemma_passes_add_up(m0: Seq<Seq<MapCell>>, m1: Seq<Seq<MapCell>>, m2: Seq<Seq<MapCell>>)
    requires
        marks_only(m0, m1),
        marks_only(m1, m2),
        newly_marked(m0, m1).finite(),
        newly_marked(m1, m2).finite(),
    ensures
        marks_only(m0, m2),
        newly_marked(m0, m1).disjoint(newly_marked(m1, m2)),
        newly_marked(m0, m2) == newly_marked(m0, m1) + newly_marked(m1, m2),
        newly_marked(m0, m2).finite(),
        newly_marked(m0, m2).len() == newly_marked(m0, m1).len() + newly_marked(m1, m2).len(),
{
    let a = newly_marked(m0, m1);
    let b = newly_marked(m1, m2);
    assert forall|t: (int, int)| #[trigger] cell_at(m2, t) == cell_at(m0, t) || (spawnable(m0, t) && spawn_chance(t) > 0
        && cell_at(m2, t) == Some(with_count(cell_at(m0, t)->Some_0, SPAWN_MARK))) by {
        assert(cell_at(m1, t) == cell_at(m0, t) || (spawnable(m0, t) && spawn_chance(t) > 0
            && cell_at(m1, t) == Some(with_count(cell_at(m0, t)->Some_0, SPAWN_MARK))));
        assert(cell_at(m2, t) == cell_at(m1, t) || (spawnable(m1, t) && spawn_chance(t) > 0
            && cell_at(m2, t) == Some(with_count(cell_at(m1, t)->Some_0, SPAWN_MARK))));
    }
    assert(newly_marked(m0, m2) =~= a + b) by {
        assert forall|t: (int, int)| newly_marked(m0, m2).contains(t) == (a + b).contains(t) by {
            assert(cell_at(m1, t) == cell_at(m0, t) || (spawnable(m0, t) && spawn_chance(t) > 0
                && cell_at(m1, t) == Some(with_count(cell_at(m0, t)->Some_0, SPAWN_MARK))));
            assert(cell_at(m2, t) == cell_at(m1, t) || (spawnable(m1, t) && spawn_chance(t) > 0
                && cell_at(m2, t) == Some(with_count(cell_at(m1, t)->Some_0, SPAWN_MARK))));
        }
    }
    assert(a.disjoint(b));
    vstd::set_lib::lemma_set_disjoint_lens(a, b);
}

/// An inner tile is reached at a step of its own, in `0..900`.
pub proof fn lemma_scan_tile(t: (int, int))
    requires
        inner_tile(t),
    ensures
        0 <= scan_index(t) < 900,
        scan_tile(scan_index(t)) == t,
{
    vstd::arithmetic::div_mod::lemma_fundamental_div_mod_converse(scan_index(t), 30, t.0 - 1, t.1 - 1);
}

impl MobMap {
    /// The map has the first `n` columns, each with `n` rows at least.
    pub open spec fn covers(&self, n: int) -> bool {
        &&& self.view_cells().len() >= n
        &&& forall|x: int| 0 <= x < n ==> (#[trigger] self.view_cells()[x]).len() >= n
    }

    /// Columns and their lengths stay the same.
    pub open spec fn same_shape(&self, other: &MobMap) -> bool {
        &&& self.view_cells().len() == other.view_cells().len()
        &&& forall|x: int| 0 <= x < self.view_cells().len() ==> (#[trigger] self.view_cells()[x]).len()
            == other.view_cells()[x].len()
    }

    /// One pass choosing where the mobs of a level spawn, on the rolls
    /// `rolls` (one per inner tile, in the order the pass reaches them): the
    /// inner tiles are scanned column by column, and a floor tile not chosen
    /// yet becomes a spawn point when its roll comes under its spawn chance
    /// (its distance to the middle of the room less one) while mobs are left
    /// to place. Returns how many are left.
    pub fn mark_spawns(&mut self, amount: u16, rolls: &Vec<u32>) -> (left: u16)
        requires
            old(self).covers(31),
            rolls@.len() == 900,
        ensures
            final(self).same_shape(old(self)),
            pass_outcome(old(self).view_cells(), final(self).view_cells(), rolls@, amount as int, left as int),
            forall|t: (int, int)| #[trigger] cell_at(final(self).view_cells(), t) == (if pass_marks(
                old(self).view_cells(),
                rolls@,
                amount as int,
                t,
            ) {
                Some(with_count(cell_at(old(self).view_cells(), t)->Some_0, SPAWN_MARK))
            } else {
                cell_at(old(self).view_cells(), t)
            }),
            marks_only(old(self).view_cells(), final(self).view_cells()),
            newly_marked(old(self).view_cells(), final(self).view_cells()).finite(),
            newly_marked(old(self).view_cells(), final(self).view_cells()).len() == amount - left,
    {
        let ghost m0 = self.view_cells();
        let ghost rs = rolls@;
        let mut left = amount;
        proof {
            assert(newly_marked(m0, m0) =~= Set::empty());
        }
        let mut x: u16 = 1;
        let mut k: usize = 0;
        while x < 31
            invariant
                1 <= x <= 31,
                k == (x - 1) * 30,
                rolls@ == rs,
                rs.len() == 900,
                left <= amount,
                left == amount - marks_before(m0, rs, amount as int, k as nat),
                self.covers(31),
                self.view_cells().len() == m0.len(),
                forall|c: int| 0 <= c < m0.len() ==> (#[trigger] self.view_cells()[c]).len() == m0[c].len(),
                forall|t: (int, int)| #[trigger] cell_at(self.view_cells(), t) == (if pass_marks(m0, rs, amount as int, t)
                    && scan_index(t) < k {
                    Some(with_count(cell_at(m0, t)->Some_0, SPAWN_MARK))
                } else {
                    cell_at(m0, t)
                }),
                newly_marked(m0, self.view_cells()).finite(),
                newly_marked(m0, self.view_cells()).len() == amount - left,
            decreases 31 - x,
        {
            let mut y: u16 = 1;
            while y < 31
                invariant
                    1 <= x < 31,
                    1 <= y <= 31,
                    k == (x - 1) * 30 + (y - 1),
                    rolls@ == rs,
                    rs.len() == 900,
                    left <= amount,
                    left == amount - marks_before(m0, rs, amount as int, k as nat),
                    self.covers(31),
                    self.view_cells().len() == m0.len(),
                    forall|c: int| 0 <= c < m0.len() ==> (#[trigger] self.view_cells()[c]).len() == m0[c].len(),
                    forall|t: (int, int)| #[trigger] cell_at(self.view_cells(), t) == (if pass_marks(m0, rs, amount as int, t)
                        && scan_index(t) < k {
                        Some(with_count(cell_at(m0, t)->Some_0, SPAWN_MARK))
                    } else {
                        cell_at(m0, t)
                    }),
                    newly_marked(m0, self.view_cells()).finite(),
                    newly_marked(m0, self.view_cells()).len() == amount - left,
                decreases 31 - y,
            {
                let ghost ti = (x as int, y as int);
                let ghost before = self.view_cells();
                proof {
                    lemma_scan_tile(ti);
                }
                let dx: u16 = if x >= 16 { x - 16 } else { 16 - x };
                let dy: u16 = if y >= 16 { y - 16 } else { 16 - y };
                let t = (x, y);
                assert(self.view_cells()[x as int].len() >= 31);
                let c = self.get(t).unwrap();
                assert(cell_at(before, ti) == cell_at(m0, ti));
                let hit = (rolls[k] as u64) + 1 < (dx + dy) as u64 && c.tiletype == TileType::Floor
                    && c.mob_count != SPAWN_MARK;
                assert(hit == (spawnable(m0, ti) && rs[k as int] < spawn_chance(ti)));
                assert(marks_before(m0, rs, amount as int, (k + 1) as nat) == if hit && marks_before(
                    m0,
                    rs,
                    amount as int,
                    k as nat,
                ) < amount {
                    marks_before(m0, rs, amount as int, k as nat) + 1
                } else {
                    marks_before(m0, rs, amount as int, k as nat)
                });
                if hit && left != 0 {
                    self.set_count(t, SPAWN_MARK);
                    left = left - 1;
                    proof {
                        let after = self.view_cells();
                        assert forall|u: (int, int)| #[trigger] cell_at(after, u) == (if pass_marks(m0, rs, amount as int, u)
                            && scan_index(u) < k + 1 {
                            Some(with_count(cell_at(m0, u)->Some_0, SPAWN_MARK))
                        } else {
                            cell_at(m0, u)
                        }) by {
                            if u != ti {
                                assert(cell_at(after, u) == cell_at(before, u));
                                if inner_tile(u) {
                                    lemma_scan_tile(u);
                                }
                            }
                        }
                        assert(newly_marked(m0, after) =~= newly_marked(m0, before).insert(ti)) by {
                            assert forall|u: (int, int)| newly_marked(m0, after).contains(u) == newly_marked(m0, before).insert(ti).contains(u) by {
                                if u != ti {
                                    assert(cell_at(after, u) == cell_at(before, u));
                                }
                            }
                        }
                        assert(!newly_marked(m0, before).contains(ti));
                        assert forall|cc: int| 0 <= cc < m0.len() implies (#[trigger] after[cc]).len() == m0[cc].len() by {
                            assert(after[cc].len() == before[cc].len());
                        }
                    }
                } else {
                    proof {
                        assert forall|u: (int, int)| #[trigger] cell_at(before, u) == (if pass_marks(m0, rs, amount as int, u)
                            && scan_index(u) < k + 1 {
                            Some(with_count(cell_at(m0, u)->Some_0, SPAWN_MARK))
                        } else {
                            cell_at(m0, u)
                        }) by {
                            if u != ti && inner_tile(u) {
                                lemma_scan_tile(u);
                            }
                        }
                    }
                }
                y = y + 1;
                k = k + 1;
            }
            x = x + 1;
        }
        proof {
            let m1 = self.view_cells();
            assert forall|t: (int, int)| #[trigger] cell_at(m1, t) == (if pass_marks(m0, rs, amount as int, t) {
                Some(with_count(cell_at(m0, t)->Some_0, SPAWN_MARK))
            } else {
                cell_at(m0, t)
            }) by {
                if inner_tile(t) {
                    lemma_scan_tile(t);
                }
            }
            assert(marks_only(m0, m1));
            let pm = pass_map(m0, rs, amount as int);
            assert forall|x: int| 0 <= x < m1.len() implies m1[x] =~= pm[x] by {
                assert forall|y: int| 0 <= y < m1[x].len() implies m1[x][y] == pm[x][y] by {
                    assert(cell_at(m1, (x, y)) == cell_at(m1, (x, y)));
                }
            }
            assert(m1 =~= pm);
        }
        left
    }

    /// One pass choosing where the mobs of a level spawn: draws a roll in
    /// `0..32` for each inner tile and marks the spawn points those rolls
    /// give (see `mark_spawns`). Returns how many mobs are left to place.
    pub fn spawn_mobs_location_pass(&mut self, amount: u16) -> (left: u16)
        requires
            old(self).covers(31),
        ensures
            final(self).same_shape(old(self)),
            exists|rolls: Seq<u32>| #[trigger] pass_outcome(old(self).view_cells(), final(self).view_cells(), rolls, amount as int, left as int)
                && rolls.len() == 900 && forall|i: int| 0 <= i < 900 ==> rolls[i] < 32,
            marks_only(old(self).view_cells(), final(self).view_cells()),
            newly_marked(old(self).view_cells(), final(self).view_cells()).finite(),
            newly_marked(old(self).view_cells(), final(self).view_cells()).len() == amount - left,
    {
        let mut rolls: Vec<u32> = Vec::new();
        let mut i: usize = 0;
        while i < 900
            invariant
                i <= 900,
                rolls@.len() == i,
                forall|j: int| 0 <= j < i ==> rolls@[j] < 32,
            decreases 900 - i,
        {
            let r = roll_below(32);
            rolls.push(r);
            i = i + 1;
        }
        let left = self.mark_spawns(amount, &rolls);
        assert(forall|i: int| 0 <= i < 900 ==> rolls@[i] < 32);
        left
    }

    /// Chooses where `amount` mobs spawn: passes over the room, as
    /// `spawn_mobs_location_pass` does, until every mob has its spawn point.
    /// It gives up after `u32::MAX` passes (with a tile left that can take a
    /// spawn, a pass misses it with a chance of at most 31 in 32, so this is
    /// reached in practice only when no such tile is left). Returns how many
    /// mobs are left.
    pub fn place_spawns(&mut self, amount: u16) -> (left: u16)
        requires
            old(self).covers(31),
        ensures
            final(self).same_shape(old(self)),
            left <= amount,
            exists|rs: Seq<Seq<u32>>| #[trigger] placement_run(old(self).view_cells(), final(self).view_cells(), amount as int, left as int, rs),
            marks_only(old(self).view_cells(), final(self).view_cells()),
            newly_marked(old(self).view_cells(), final(self).view_cells()).finite(),
            newly_marked(old(self).view_cells(), final(self).view_cells()).len() == amount - left,
    {
        let ghost m0 = self.view_cells();
        let mut left = amount;
        let mut passes: u32 = 0;
        let ghost mut rs: Seq<Seq<u32>> = Seq::empty();
        proof {
            assert(newly_marked(m0, m0) =~= Set::empty());
            assert(marks_only(m0, m0));
        }
        while left > 0 && passes < u32::MAX
            invariant
                left <= amount,
                self.covers(31),
                self.view_cells().len() == m0.len(),
                forall|c: int| 0 <= c < m0.len() ==> (#[trigger] self.view_cells()[c]).len() == m0[c].len(),
                marks_only(m0, self.view_cells()),
                newly_marked(m0, self.view_cells()).finite(),
                newly_marked(m0, self.view_cells()).len() == amount - left,
                rs.len() == passes,
                pass_rolls(rs),
                run_passes(m0, rs, amount as int) == (self.view_cells(), left as int),
                forall|i: int| 0 <= i < rs.len() ==> (#[trigger] run_passes(m0, rs.take(i), amount as int)).1 > 0,
            decreases u32::MAX - passes,
        {
            let ghost m1 = self.view_cells();
            let ghost l1 = left;
            let l2 = self.spawn_mobs_location_pass(left);
            proof {
                lemma_passes_add_up(m0, m1, self.view_cells());
                assert forall|c: int| 0 <= c < m0.len() implies (#[trigger] self.view_cells()[c]).len() == m0[c].len() by {
                    assert(self.view_cells()[c].len() == m1[c].len());
                }
                let r = choose|r: Seq<u32>| #[trigger] pass_outcome(m1, self.view_cells(), r, l1 as int, l2 as int) && r.len()
                    == 900 && forall|i: int| 0 <= i < 900 ==> r[i] < 32;
                let rs2 = rs.push(r);
                assert(rs2.drop_last() =~= rs);
                assert(rs2.last() == r);
                assert(run_passes(m0, rs2, amount as int) == (self.view_cells(), l2 as int));
                assert forall|i: int| 0 <= i < rs2.len() implies (#[trigger] rs2[i]).len() == 900 && forall|j: int| 0 <= j < 900 ==> rs2[i][j] < 32 by {
                    if i < rs.len() {
                        assert(rs2[i] == rs[i]);
                    }
                }
                assert forall|i: int| 0 <= i < rs2.len() implies (#[trigger] run_passes(m0, rs2.take(i), amount as int)).1 > 0 by {
                    if i < rs.len() {
                        assert(rs2.take(i) =~= rs.take(i));
                    } else {
                        assert(rs2.take(i) =~= rs);
                    }
                }
                rs = rs2;
            }
            left = l2;
            passes = passes + 1;
        }
        proof {
            assert(placement_run(m0, self.view_cells(), amount as int, left as int, rs));
        }
        left
    }

    /// Chooses where the mobs of a level of the given chapter spawn: draws
    /// how many it places (`roll_mobs_for_chapter`) and places them. Returns
    /// that number and how many are left without a spawn point.
    pub fn spawn_mobs_location(&mut self, chapter: u8) -> (r: (u16, u16))
        requires
            old(self).covers(31),
        ensures
            exists|roll: u32| roll < 4 && r.0 == #[trigger] mobs_for_chapter_spec(chapter, roll),
            r.1 <= r.0,
            final(self).same_shape(old(self)),
            exists|rs: Seq<Seq<u32>>| #[trigger] placement_run(old(self).view_cells(), final(self).view_cells(), r.0 as int, r.1 as int, rs),
            marks_only(old(self).view_cells(), final(self).view_cells()),
            newly_marked(old(self).view_cells(), final(self).view_cells()).finite(),
            newly_marked(old(self).view_cells(), final(self).view_cells()).len() == r.0 - r.1,
    {
        let amount = roll_mobs_for_chapter(chapter);
        let left = self.place_spawns(amount);
        (amount, left)
    }

    /// Takes the chosen spawn points, column by column:
    /// each inner tile marked as a spawn point is cleared to no mob and
    /// handed out, in order.
    pub fn take_spawn_points(&mut self) -> (r: Vec<(u16, u16)>)
        requires
            old(self).covers(31),
        ensures
            final(self).same_shape(old(self)),
            forall|a: int, b: int| 0 <= a < b < r@.len() ==> crate::pathfinding::scanned_before(
                (r@[a].0 as int, r@[a].1 as int),
                (r@[b].0 as int, r@[b].1 as int),
            ),
            forall|t: (u16, u16)| #[trigger] r@.contains(t) <==> (inner_tile((t.0 as int, t.1 as int)) && marked(
                old(self).view_cells(),
                (t.0 as int, t.1 as int),
            )),
            forall|t: (int, int)| #[trigger] cell_at(final(self).view_cells(), t) == (if inner_tile(t) && marked(old(self).view_cells(), t) {
                Some(with_count(cell_at(old(self).view_cells(), t)->Some_0, 0))
            } else {
                cell_at(old(self).view_cells(), t)
            }),
    {
        let ghost m0 = self.view_cells();
        let mut r: Vec<(u16, u16)> = Vec::new();
        let mut x: u16 = 1;
        while x < 31
            invariant
                1 <= x <= 31,
                self.covers(31),
                self.view_cells().len() == m0.len(),
                forall|c: int| 0 <= c < m0.len() ==> (#[trigger] self.view_cells()[c]).len() == m0[c].len(),
                forall|a: int, b: int| 0 <= a < b < r@.len() ==> crate::pathfinding::scanned_before(
                    (r@[a].0 as int, r@[a].1 as int),
                    (r@[b].0 as int, r@[b].1 as int),
                ),
                forall|a: int| 0 <= a < r@.len() ==> (#[trigger] r@[a]).0 < x,
                forall|t: (u16, u16)| #[trigger] r@.contains(t) <==> (inner_tile((t.0 as int, t.1 as int)) && t.0 < x && marked(
                    m0,
                    (t.0 as int, t.1 as int),
                )),
                forall|t: (int, int)| #[trigger] cell_at(self.view_cells(), t) == (if inner_tile(t) && t.0 < x && marked(m0, t) {
                    Some(with_count(cell_at(m0, t)->Some_0, 0))
                } else {
                    cell_at(m0, t)
                }),
            decreases 31 - x,
        {
            let mut y: u16 = 1;
            while y < 31
                invariant
                    1 <= x < 31,
                    1 <= y <= 31,
                    self.covers(31),
                    self.view_cells().len() == m0.len(),
                    forall|c: int| 0 <= c < m0.len() ==> (#[trigger] self.view_cells()[c]).len() == m0[c].len(),
                    forall|a: int, b: int| 0 <= a < b < r@.len() ==> crate::pathfinding::scanned_before(
                        (r@[a].0 as int, r@[a].1 as int),
                        (r@[b].0 as int, r@[b].1 as int),
                    ),
                    forall|a: int| 0 <= a < r@.len() ==> (#[trigger] r@[a]).0 < x || ((r@[a]).0 == x && (r@[a]).1 < y),
                    forall|t: (u16, u16)| #[trigger] r@.contains(t) <==> (inner_tile((t.0 as int, t.1 as int)) && (t.0 < x || (t.0 == x && t.1 < y))
                        && marked(m0, (t.0 as int, t.1 as int))),
                    forall|t: (int, int)| #[trigger] cell_at(self.view_cells(), t) == (if inner_tile(t) && (t.0 < x || (t.0 == x && t.1 < y))
                        && marked(m0, t) {
                        Some(with_count(cell_at(m0, t)->Some_0, 0))
                    } else {
                        cell_at(m0, t)
                    }),
                decreases 31 - y,
            {
                let t = (x, y);
                let ghost ti = (x as int, y as int);
                assert(self.view_cells()[x as int].len() >= 31);
                let c = self.get(t).unwrap();
                assert(cell_at(self.view_cells(), ti) == cell_at(m0, ti));
                let ghost r0 = r@;
                let ghost before = self.view_cells();
                if c.mob_count == SPAWN_MARK {
                    self.set_count(t, 0);
                    r.push(t);
                    proof {
                        let after = self.view_cells();
                        assert forall|u: (int, int)| #[trigger] cell_at(after, u) == (if inner_tile(u) && (u.0 < x || (u.0 == x && u.1 < y + 1))
                            && marked(m0, u) {
                            Some(with_count(cell_at(m0, u)->Some_0, 0))
                        } else {
                            cell_at(m0, u)
                        }) by {
                            if u != ti {
                                assert(cell_at(after, u) == cell_at(before, u));
                            }
                        }
                        assert forall|cc: int| 0 <= cc < m0.len() implies (#[trigger] after[cc]).len() == m0[cc].len() by {
                            assert(after[cc].len() == before[cc].len());
                        }
                        assert forall|u: (u16, u16)| #[trigger] r@.contains(u) <==> (inner_tile((u.0 as int, u.1 as int)) && (u.0 < x || (u.0 == x && u.1 < y + 1))
                            && marked(m0, (u.0 as int, u.1 as int))) by {
                            if u == t {
                                assert(r@[r0.len() as int] == t);
                            } else {
                                if r@.contains(u) {
                                    let k = choose|k: int| 0 <= k < r@.len() && r@[k] == u;
                                    assert(k < r0.len());
                                    assert(r0.contains(u));
                                }
                                if r0.contains(u) {
                                    let k = choose|k: int| 0 <= k < r0.len() && r0[k] == u;
                                    assert(r@[k] == u);
                                }
                            }
                        }
                        assert forall|a: int| 0 <= a < r@.len() implies (#[trigger] r@[a]).0 < x || ((r@[a]).0 == x && (r@[a]).1 < y + 1) by {
                            if a < r0.len() {
                                assert(r@[a] == r0[a]);
                            }
                        }
                        assert forall|a: int, b: int| 0 <= a < b < r@.len() implies crate::pathfinding::scanned_before(
                            (r@[a].0 as int, r@[a].1 as int),
                            (r@[b].0 as int, r@[b].1 as int),
                        ) by {
                            assert(r@[a] == r0[a]);
                            if b < r0.len() {
                                assert(r@[b] == r0[b]);
                            }
                        }
                    }
                } else {
                    proof {
                        assert forall|u: (u16, u16)| #[trigger] r@.contains(u) <==> (inner_tile((u.0 as int, u.1 as int)) && (u.0 < x || (u.0 == x && u.1 < y + 1))
                            && marked(m0, (u.0 as int, u.1 as int))) by {
                            if u == t {
                                if r@.contains(u) {
                                    let k = choose|k: int| 0 <= k < r@.len() && r@[k] == u;
                                    assert(r@[k].0 < x || (r@[k].0 == x && r@[k].1 < y));
                                }
                            }
                        }
                    }
                }
                y = y + 1;
            }
            x = x + 1;
        }
        r
    }
}

/// The tiles of a list of spawns.
pub open spec fn spots(r: Seq<((u16, u16), MobType)>) -> Seq<(u16, u16)> {
    r.map_values(|e: ((u16, u16), MobType)| e.0)
}

/// A mob that the chapter's table can give.
pub open spec fn drawn_for(chapter: u8, m: MobType) -> bool {
    exists|roll: u32| roll < chapter_roll_bound(chapter) && m == #[trigger] chapter_mob_spec(chapter, roll)
}

/// The mobs of a level's first spawn: at each chosen spawn point, taken
/// column by column, a mob drawn from the chapter's table.
pub fn first_spawn_mobs(map: &mut MobMap, chapter: u8) -> (r: Vec<((u16, u16), MobType)>)
    requires
        old(map).covers(31),
    ensures
        final(map).same_shape(old(map)),
        forall|t: (int, int)| #[trigger] cell_at(final(map).view_cells(), t) == (if inner_tile(t) && marked(old(map).view_cells(), t) {
            Some(with_count(cell_at(old(map).view_cells(), t)->Some_0, 0))
        } else {
            cell_at(old(map).view_cells(), t)
        }),
        forall|t: (u16, u16)| #[trigger] spots(r@).contains(t) <==> (inner_tile((t.0 as int, t.1 as int))
            && marked(old(map).view_cells(), (t.0 as int, t.1 as int))),
        forall|a: int, b: int| 0 <= a < b < r@.len() ==> crate::pathfinding::scanned_before(
            (spots(r@)[a].0 as int, spots(r@)[a].1 as int),
            (spots(r@)[b].0 as int, spots(r@)[b].1 as int),
        ),
        forall|k: int| 0 <= k < r@.len() ==> drawn_for(chapter, #[trigger] r@[k].1),
{
    let points = map.take_spawn_points();
    let mut r: Vec<((u16, u16), MobType)> = Vec::new();
    let mut i: usize = 0;
    while i < points.len()
        invariant
            0 <= i <= points@.len(),
            r@.len() == i,
            forall|k: int| 0 <= k < i ==> (#[trigger] r@[k]).0 == points@[k],
            forall|k: int| 0 <= k < i ==> drawn_for(chapter, #[trigger] r@[k].1),
        decreases points@.len() - i,
    {
        let m = random_chapter_mob(chapter);
        assert(drawn_for(chapter, m));
        r.push((points[i], m));
        proof {
            assert(r@[i as int].1 == m);
        }
        i = i + 1;
    }
    assert(spots(r@) =~= points@);
    r
}

} // verus!
