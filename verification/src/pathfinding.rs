use vstd::prelude::*;
use crate::gamemap::{TileType, cells, is_rect, at};
use crate::mob_map::{MobMap, free_floor};

verus! {

/// World units per tile.
pub const TILE_SIZE: u32 = 32;

/// Side, in tiles, of the square field of path costs that a search fills.
pub const FIELD_SIZE: usize = 32;

// ---------------------------------------------------------------------
// Distances
// ---------------------------------------------------------------------

/// The integer square root: the largest `r` with `r * r <= n`.
pub open spec fn isqrt(n: nat) -> nat
    decreases n,
{
    if n == 0 {
        0
    } else {
        let r = isqrt((n - 1) as nat);
        if (r + 1) * (r + 1) <= n {
            (r + 1) as nat
        } else {
            r
        }
    }
}

/// `isqrt(n)` squared fits under `n`, and the next number squared does not.
pub proof fn lemma_isqrt(n: nat)
    ensures
        isqrt(n) * isqrt(n) <= n,
        n < (isqrt(n) + 1) * (isqrt(n) + 1),
    decreases n,
{
    if n > 0 {
        lemma_isqrt((n - 1) as nat);
        let r = isqrt((n - 1) as nat);
        assert((r + 1) * (r + 1) < (r + 2) * (r + 2)) by (nonlinear_arith);
        if (r + 1) * (r + 1) <= n {
            assert(isqrt(n) == r + 1);
            assert(n <= (r + 1) * (r + 1));
            let s = isqrt(n);
            assert(s * s <= n);
            assert(n < (s + 1) * (s + 1));
        } else {
            assert(isqrt(n) == r);
            let s = isqrt(n);
            assert(s * s <= n);
            assert(n < (s + 1) * (s + 1));
        }
    } else {
        let s = isqrt(n);
        assert(s == 0);
        assert((s + 1) * (s + 1) == 1) by (nonlinear_arith)
            requires
                s == 0,
        ;
    }
}

/// Only one number squares under `n` with its successor squaring above.
proof fn lemma_isqrt_unique(n: nat, r: nat)
    requires
        r * r <= n,
        n < (r + 1) * (r + 1),
    ensures
        r == isqrt(n),
{
    lemma_isqrt(n);
    let s = isqrt(n);
    if r < s {
        assert((r + 1) * (r + 1) <= s * s) by (nonlinear_arith)
            requires
                r + 1 <= s,
        ;
    } else if s < r {
        assert((s + 1) * (s + 1) <= r * r) by (nonlinear_arith)
            requires
                s + 1 <= r,
        ;
    }
}

/// The integer square root of `n`, by bisection.
fn isqrt_exec(n: u128) -> (r: u128)
    ensures
        r == isqrt(n as nat),
{
    let mut lo: u128 = 0;
    let mut hi: u128 = if n < 0xffff_ffff_ffff_ffff {
        n + 1
    } else {
        0x1_0000_0000_0000_0000
    };
    assert(n < hi * hi) by (nonlinear_arith)
        requires
            (n < 0xffff_ffff_ffff_ffff && hi == n + 1) || (n >= 0xffff_ffff_ffff_ffff && hi
                == 0x1_0000_0000_0000_0000),
            n < 0x1_0000_0000_0000_0000_0000_0000_0000_0000,
    ;
    while hi - lo > 1
        invariant
            lo < hi <= 0x1_0000_0000_0000_0000,
            lo * lo <= n,
            n < hi * hi,
        decreases hi - lo,
    {
        let mid = lo + (hi - lo) / 2;
        assert(mid * mid < 0x1_0000_0000_0000_0000_0000_0000_0000_0000) by (nonlinear_arith)
            requires
                mid < 0x1_0000_0000_0000_0000,
        ;
        if mid * mid <= n {
            lo = mid;
        } else {
            hi = mid;
        }
    }
    proof {
        lemma_isqrt_unique(n as nat, lo as nat);
    }
    lo
}

/// Distance between two world points as the search measures it: the
/// smaller of the Manhattan distance and the Euclidean one rounded down.
pub open spec fn dist(p: (int, int), q: (int, int)) -> int {
    let dx = if p.0 >= q.0 { p.0 - q.0 } else { q.0 - p.0 };
    let dy = if p.1 >= q.1 { p.1 - q.1 } else { q.1 - p.1 };
    let e = isqrt((dx * dx + dy * dy) as nat) as int;
    if dx + dy <= e { dx + dy } else { e }
}

/// A world point as integers.
pub open spec fn pt(p: (u32, u32)) -> (int, int) {
    (p.0 as int, p.1 as int)
}

/// The world point of a tile's corner.
pub open spec fn tile_pos(t: (u16, u16)) -> (int, int) {
    (t.0 * TILE_SIZE, t.1 * TILE_SIZE)
}

/// The distance between two world points.
pub fn distance(p: (u32, u32), q: (u32, u32)) -> (d: u64)
    ensures
        d == dist(pt(p), pt(q)),
{
    let dx: u64 = if p.0 >= q.0 { (p.0 - q.0) as u64 } else { (q.0 - p.0) as u64 };
    let dy: u64 = if p.1 >= q.1 { (p.1 - q.1) as u64 } else { (q.1 - p.1) as u64 };
    assert(dx * dx + dy * dy < 0x4_0000_0000_0000_0000) by (nonlinear_arith)
        requires
            dx < 0x1_0000_0000,
            dy < 0x1_0000_0000,
    ;
    let sq: u128 = (dx as u128) * (dx as u128) + (dy as u128) * (dy as u128);
    let e = isqrt_exec(sq);
    proof {
        lemma_isqrt(sq as nat);
        if e >= 0x1_0000_0000_0000_0000 {
            assert(e * e >= 0x1_0000_0000_0000_0000_0000_0000_0000_0000) by (nonlinear_arith)
                requires
                    e >= 0x1_0000_0000_0000_0000,
            ;
        }
    }
    let m = dx + dy;
    if (m as u128) <= e {
        m
    } else {
        e as u64
    }
}

// ---------------------------------------------------------------------
// The graph
// ---------------------------------------------------------------------

/// What a graph is: its tiles in the order they were added, each with the
/// list of tiles one can step to from it (the tile itself first).
pub struct GraphView {
    pub keys: Seq<(u16, u16)>,
    pub lists: Seq<Seq<(u16, u16)>>,
}

/// Index of the first occurrence of `k` in `keys` at or after `i`, or -1.
pub open spec fn key_index_from(keys: Seq<(u16, u16)>, k: (u16, u16), i: int) -> int
    decreases keys.len() - i,
{
    if i < 0 || i >= keys.len() {
        -1
    } else if keys[i] == k {
        i
    } else {
        key_index_from(keys, k, i + 1)
    }
}

proof fn lemma_key_index_from(keys: Seq<(u16, u16)>, k: (u16, u16), i: int)
    requires
        0 <= i <= keys.len(),
    ensures
        -1 <= key_index_from(keys, k, i) < keys.len(),
        key_index_from(keys, k, i) >= 0 ==> i <= key_index_from(keys, k, i) && keys[key_index_from(
            keys,
            k,
            i,
        )] == k,
        key_index_from(keys, k, i) == -1 ==> forall|j: int| i <= j < keys.len() ==> keys[j] != k,
    decreases keys.len() - i,
{
    if i < keys.len() && keys[i] != k {
        lemma_key_index_from(keys, k, i + 1);
    }
}

/// The best key for a world point among the first `n` keys: the first one at
/// the smallest distance, with that distance; none (-1) while no key comes
/// closer than `u32::MAX`.
pub open spec fn best_key(keys: Seq<(u16, u16)>, p: (int, int), n: int) -> (int, int)
    decreases n,
{
    if n <= 0 {
        (-1, u32::MAX as int)
    } else {
        let b = best_key(keys, p, n - 1);
        let d = dist(p, tile_pos(keys[n - 1]));
        if b.1 > d {
            (n - 1, d)
        } else {
            b
        }
    }
}

/// Once a key lies closer than `u32::MAX`, a best key is found.
proof fn lemma_best_key_found(keys: Seq<(u16, u16)>, p: (int, int), n: int)
    requires
        1 <= n <= keys.len(),
        dist(p, tile_pos(keys[0])) < u32::MAX,
    ensures
        best_key(keys, p, n).0 >= 0,
    decreases n,
{
    if n > 1 {
        lemma_best_key_found(keys, p, n - 1);
    } else {
        assert(best_key(keys, p, 0) == (-1int, u32::MAX as int));
    }
}

proof fn lemma_best_key(keys: Seq<(u16, u16)>, p: (int, int), n: int)
    requires
        0 <= n <= keys.len(),
    ensures
        -1 <= best_key(keys, p, n).0 < n,
        best_key(keys, p, n).0 >= 0 ==> best_key(keys, p, n).1 == dist(p, tile_pos(keys[best_key(keys, p, n).0])),
    decreases n,
{
    if n > 0 {
        lemma_best_key(keys, p, n - 1);
    }
}

impl GraphView {
    /// Every tile has a list, and each list starts with its own tile.
    pub open spec fn wf(self) -> bool {
        &&& self.keys.len() == self.lists.len()
        &&& forall|i: int| 0 <= i < self.keys.len() ==> (#[trigger] self.lists[i]).len() > 0
            && self.lists[i][0] == self.keys[i]
    }

    /// Where `k` is kept, or -1.
    pub open spec fn index_of(self, k: (u16, u16)) -> int {
        key_index_from(self.keys, k, 0)
    }

    /// Whether `k` is a tile of the graph.
    pub open spec fn has_key(self, k: (u16, u16)) -> bool {
        self.index_of(k) >= 0
    }

    /// The list of `k` (empty for a tile that is not in the graph).
    pub open spec fn list_of(self, k: (u16, u16)) -> Seq<(u16, u16)> {
        if self.has_key(k) {
            self.lists[self.index_of(k)]
        } else {
            Seq::empty()
        }
    }

    /// The tile that a world point is taken to stand on: the closest tile
    /// of the graph (the first of the closest), `(0, 0)` where none is found.
    pub open spec fn nearest(self, p: (int, int)) -> (u16, u16) {
        let b = best_key(self.keys, p, self.keys.len() as int);
        if b.0 < 0 {
            (0, 0)
        } else {
            self.keys[b.0]
        }
    }

    /// The tiles one can step to from a world point.
    pub open spec fn next_tiles(self, p: (int, int)) -> Seq<(u16, u16)> {
        self.list_of(self.nearest(p))
    }

    /// The graph with the list of `k` set to `l`: replaced where `k` is
    /// already a tile, added at the end otherwise.
    pub open spec fn insert(self, k: (u16, u16), l: Seq<(u16, u16)>) -> GraphView {
        if self.has_key(k) {
            GraphView { keys: self.keys, lists: self.lists.update(self.index_of(k), l) }
        } else {
            GraphView { keys: self.keys.push(k), lists: self.lists.push(l) }
        }
    }
}

/// A world point whose coordinates fit in 31 bits: every distance from it to
/// a tile comes under `u32::MAX`.
pub open spec fn in_range(p: (u32, u32)) -> bool {
    p.0 < 0x8000_0000 && p.1 < 0x8000_0000
}

/// In a graph with tiles, a point in range stands on a tile of the graph.
pub proof fn lemma_nearest_is_key(v: GraphView, p: (u32, u32))
    requires
        v.wf(),
        v.keys.len() > 0,
        in_range(p),
    ensures
        v.has_key(v.nearest(pt(p))),
        v.next_tiles(pt(p)).len() > 0,
        v.next_tiles(pt(p))[0] == v.nearest(pt(p)),
{
    lemma_best_key_found(v.keys, pt(p), v.keys.len() as int);
    lemma_best_key(v.keys, pt(p), v.keys.len() as int);
    let b = best_key(v.keys, pt(p), v.keys.len() as int);
    lemma_key_index_from(v.keys, v.keys[b.0], 0);
    let i = v.index_of(v.nearest(pt(p)));
    assert(v.lists[i].len() > 0);
}

/// Where the node found at a world point stands: the point itself when a
/// tile of the list of the point's tile lies exactly there, else that tile.
pub open spec fn object_node_pos(v: GraphView, p: (int, int)) -> (u32, u32) {
    let l = v.next_tiles(p);
    if exists|j: int| 0 <= j < l.len() && tile_pos(#[trigger] l[j]) == p {
        (p.0 as u32, p.1 as u32)
    } else {
        ((v.nearest(p).0 * TILE_SIZE) as u32, (v.nearest(p).1 * TILE_SIZE) as u32)
    }
}

/// A node of the search: the kind of tile and a world point.
#[derive(Clone, Copy, Debug)]
pub struct Node {
    pub tile_type: TileType,
    pub position: (u32, u32),
}

impl Node {
    /// A node of the given kind at the given point.
    pub fn new(tile_type_new: TileType, position_new: (u32, u32)) -> (n: Node)
        ensures
            n.tile_type == tile_type_new,
            n.position == position_new,
    {
        Node { tile_type: tile_type_new, position: position_new }
    }
}

/// The walkable tiles of a level and, for each, the tiles one can step to
/// from it.
pub struct Graph {
    keys: Vec<(u16, u16)>,
    lists: Vec<Vec<(u16, u16)>>,
}

impl View for Graph {
    type V = GraphView;

    closed spec fn view(&self) -> GraphView {
        GraphView { keys: self.keys@, lists: self.lists@.map_values(|l: Vec<(u16, u16)>| l@) }
    }
}

impl Graph {
    /// An empty graph.
    pub fn new() -> (g: Graph)
        ensures
            g@.keys.len() == 0,
            g@.wf(),
    {
        let g = Graph { keys: Vec::new(), lists: Vec::new() };
        assert(g@.keys =~= Seq::empty());
        g
    }

    /// Whether the internal vectors agree with the view.
    closed spec fn inv(&self) -> bool {
        self.keys@.len() == self.lists@.len()
    }

    proof fn lemma_inv(&self)
        requires
            self@.wf(),
        ensures
            self.inv(),
            forall|i: int| 0 <= i < self.lists@.len() ==> #[trigger] self.lists@[i]@ == self@.lists[i],
    {
    }

    /// Number of tiles in the graph.
    pub fn len(&self) -> (n: usize)
        requires
            self@.wf(),
        ensures
            n == self@.keys.len(),
    {
        self.keys.len()
    }

    /// Where `k` is kept, if it is a tile of the graph.
    fn find(&self, k: (u16, u16)) -> (r: Option<usize>)
        requires
            self@.wf(),
        ensures
            match r {
                Some(i) => i == self@.index_of(k) && i < self@.keys.len(),
                None => !self@.has_key(k),
            },
    {
        proof {
            lemma_key_index_from(self@.keys, k, 0);
        }
        let mut i: usize = 0;
        while i < self.keys.len()
            invariant
                0 <= i <= self.keys@.len(),
                self@.keys == self.keys@,
                key_index_from(self.keys@, k, 0) == key_index_from(self.keys@, k, i as int),
            decreases self.keys@.len() - i,
        {
            let ki = self.keys[i];
            if ki.0 == k.0 && ki.1 == k.1 {
                return Some(i);
            }
            i = i + 1;
        }
        None
    }

    /// Whether `k` is a tile of the graph.
    pub fn has_key(&self, k: (u16, u16)) -> (b: bool)
        requires
            self@.wf(),
        ensures
            b == self@.has_key(k),
    {
        match self.find(k) {
            Some(_) => true,
            None => false,
        }
    }

    /// The list of `k`.
    fn list_of(&self, k: (u16, u16)) -> (l: &Vec<(u16, u16)>)
        requires
            self@.wf(),
            self@.has_key(k),
        ensures
            l@ == self@.list_of(k),
            l@.len() > 0,
    {
        proof {
            self.lemma_inv();
            lemma_key_index_from(self@.keys, k, 0);
        }
        let i = self.find(k).unwrap();
        &self.lists[i]
    }

    /// Sets the list of `k`.
    fn insert(&mut self, k: (u16, u16), l: Vec<(u16, u16)>)
        requires
            old(self)@.wf(),
            l@.len() > 0,
            l@[0] == k,
        ensures
            final(self)@ == old(self)@.insert(k, l@),
            final(self)@.wf(),
    {
        proof {
            self.lemma_inv();
            lemma_key_index_from(self@.keys, k, 0);
        }
        match self.find(k) {
            Some(i) => {
                let ghost l0 = l@;
                self.lists.set(i, l);
                assert(self@.lists =~= old(self)@.lists.update(i as int, l0));
            },
            None => {
                let ghost l0 = l@;
                self.keys.push(k);
                self.lists.push(l);
                assert(self@.lists =~= old(self)@.lists.push(l0));
            },
        }
    }

    /// The node at a world point: the node of the list of the point's tile
    /// that lies exactly there, or else that tile's own node.
    pub fn get_node_where_object_is(&self, p: (u32, u32)) -> (n: Node)
        requires
            self@.wf(),
            self@.keys.len() > 0,
            in_range(p),
        ensures
            n.tile_type == TileType::Floor,
            n.position == object_node_pos(self@, pt(p)),
    {
        proof {
            lemma_nearest_is_key(self@, p);
        }
        let k = self.safe_get_pos(p);
        let l = self.list_of(k);
        let mut i: usize = 0;
        while i < l.len()
            invariant
                0 <= i <= l@.len(),
                l@ == self@.list_of(k),
                k == self@.nearest(pt(p)),
                forall|j: int| 0 <= j < i ==> tile_pos(#[trigger] l@[j]) != pt(p),
            decreases l@.len() - i,
        {
            let t = l[i];
            assert(0 <= t.0 * 32 < 0x1_0000_0000 && 0 <= t.1 * 32 < 0x1_0000_0000);
            let tp: (u32, u32) = ((t.0 as u32) * TILE_SIZE, (t.1 as u32) * TILE_SIZE);
            if tp.0 == p.0 && tp.1 == p.1 {
                assert(tile_pos(l@[i as int]) == pt(p));
                assert(self@.next_tiles(pt(p)) == l@);
                assert(exists|j: int| 0 <= j < l@.len() && tile_pos(#[trigger] l@[j]) == pt(p));
                assert(object_node_pos(self@, pt(p)) == p);
                return Node::new(TileType::Floor, p);
            }
            i = i + 1;
        }
        let t = l[0];
        assert(0 <= t.0 * 32 < 0x1_0000_0000 && 0 <= t.1 * 32 < 0x1_0000_0000);
        Node::new(TileType::Floor, ((t.0 as u32) * TILE_SIZE, (t.1 as u32) * TILE_SIZE))
    }

    /// Whether a tile is unknown to the graph as the teleport search tests it:
    /// not a tile of the graph, or the tile `(u16::MAX, u16::MAX)`, which the
    /// test cannot tell from its own answer for a missing tile.
    fn tile_unknown(&self, t: (u16, u16)) -> (b: bool)
        requires
            self@.wf(),
        ensures
            b == (!self@.has_key(t) || (t.0 == u16::MAX && t.1 == u16::MAX)),
    {
        !self.has_key(t) || (t.0 == u16::MAX && t.1 == u16::MAX)
    }

    /// The tile a world point is taken to stand on: the closest tile of the
    /// graph, `(0, 0)` when there is none.
    pub fn safe_get_pos(&self, p: (u32, u32)) -> (t: (u16, u16))
        requires
            self@.wf(),
        ensures
            t == self@.nearest(pt(p)),
    {
        let mut best: (u16, u16) = (0, 0);
        let mut found = false;
        let mut range: u64 = 0xffff_ffff;
        let mut i: usize = 0;
        while i < self.keys.len()
            invariant
                0 <= i <= self.keys@.len(),
                self@.keys == self.keys@,
                range == best_key(self.keys@, pt(p), i as int).1,
                found == (best_key(self.keys@, pt(p), i as int).0 >= 0),
                found ==> best == self.keys@[best_key(self.keys@, pt(p), i as int).0],
                !found ==> best == (0u16, 0u16),
            decreases self.keys@.len() - i,
        {
            proof {
                lemma_best_key(self.keys@, pt(p), i as int);
            }
            let k = self.keys[i];
            assert(0 <= k.0 * 32 < 0x1_0000_0000 && 0 <= k.1 * 32 < 0x1_0000_0000);
            let kp: (u32, u32) = ((k.0 as u32) * TILE_SIZE, (k.1 as u32) * TILE_SIZE);
            assert(pt(kp) == tile_pos(k));
            let d = distance(p, kp);
            if range > d {
                range = d;
                best = k;
                found = true;
            }
            i = i + 1;
        }
        best
    }
}

// ---------------------------------------------------------------------
// Building the graph of a level
// ---------------------------------------------------------------------

/// Whether one can step from the floor tile `(i, j)` to its neighbour
/// `(k, m)`: the neighbour is floor, and no wall stands beside `(i, j)` on
/// a side the step goes towards (so no step cuts a wall's corner).
pub open spec fn passable(g: Seq<Seq<TileType>>, i: int, j: int, k: int, m: int) -> bool {
    &&& at(g, k, m) == TileType::Floor
    &&& !(m == j - 1 && at(g, i, j - 1) == TileType::Wall)
    &&& !(m == j + 1 && at(g, i, j + 1) == TileType::Wall)
    &&& !(k == i - 1 && at(g, i - 1, j) == TileType::Wall)
    &&& !(k == i + 1 && at(g, i + 1, j) == TileType::Wall)
}

/// The neighbour `(k, m)` as a list entry of `(i, j)`, if one can step there.
pub open spec fn step_to(g: Seq<Seq<TileType>>, i: int, j: int, k: int, m: int) -> Seq<(u16, u16)> {
    if passable(g, i, j, k, m) {
        seq![(k as u16, m as u16)]
    } else {
        Seq::empty()
    }
}

/// The list of the floor tile `(i, j)`: the tile itself, then the
/// neighbours one can step to, column by column and row by row.
pub open spec fn tile_adjacency(g: Seq<Seq<TileType>>, i: int, j: int) -> Seq<(u16, u16)> {
    seq![(i as u16, j as u16)] + step_to(g, i, j, i - 1, j - 1) + step_to(g, i, j, i - 1, j) + step_to(
        g,
        i,
        j,
        i - 1,
        j + 1,
    ) + step_to(g, i, j, i, j - 1) + step_to(g, i, j, i, j + 1) + step_to(g, i, j, i + 1, j - 1)
        + step_to(g, i, j, i + 1, j) + step_to(g, i, j, i + 1, j + 1)
}

/// Tile `t` is a floor tile next to `(i, j)` (or `(i, j)` itself).
pub open spec fn near_floor(g: Seq<Seq<TileType>>, i: int, j: int, t: (u16, u16)) -> bool {
    &&& at(g, t.0 as int, t.1 as int) == TileType::Floor
    &&& i - 1 <= t.0 <= i + 1
    &&& j - 1 <= t.1 <= j + 1
}

/// Every tile of `s` is a floor tile next to `(i, j)`.
pub open spec fn all_near_floor(g: Seq<Seq<TileType>>, i: int, j: int, s: Seq<(u16, u16)>) -> bool {
    forall|q: int| 0 <= q < s.len() ==> near_floor(g, i, j, #[trigger] s[q])
}

proof fn lemma_all_near_floor_add(g: Seq<Seq<TileType>>, i: int, j: int, a: Seq<(u16, u16)>, b: Seq<(u16, u16)>)
    requires
        all_near_floor(g, i, j, a),
        all_near_floor(g, i, j, b),
    ensures
        all_near_floor(g, i, j, a + b),
{
    assert forall|q: int| 0 <= q < (a + b).len() implies near_floor(g, i, j, #[trigger] (a + b)[q]) by {
        if q < a.len() {
            assert((a + b)[q] == a[q]);
        } else {
            assert((a + b)[q] == b[q - a.len()]);
        }
    }
}

/// The graph only links neighbours: every tile in the list of a floor
/// tile `(i, j)` is a floor tile next to it (or the tile itself).
pub proof fn lemma_adjacency_is_local(g: Seq<Seq<TileType>>, i: int, j: int)
    requires
        at(g, i, j) == TileType::Floor,
        1 <= i <= 0xfffe,
        1 <= j <= 0xfffe,
    ensures
        all_near_floor(g, i, j, tile_adjacency(g, i, j)),
{
    let s0 = seq![(i as u16, j as u16)];
    assert(near_floor(g, i, j, s0[0]));
    assert(all_near_floor(g, i, j, s0));
    assert forall|k: int, m: int| i - 1 <= k <= i + 1 && j - 1 <= m <= j + 1 implies all_near_floor(
        g,
        i,
        j,
        #[trigger] step_to(g, i, j, k, m),
    ) by {
        if passable(g, i, j, k, m) {
            assert(step_to(g, i, j, k, m)[0] == (k as u16, m as u16));
        }
    }
    let a1 = s0 + step_to(g, i, j, i - 1, j - 1);
    lemma_all_near_floor_add(g, i, j, s0, step_to(g, i, j, i - 1, j - 1));
    let a2 = a1 + step_to(g, i, j, i - 1, j);
    lemma_all_near_floor_add(g, i, j, a1, step_to(g, i, j, i - 1, j));
    let a3 = a2 + step_to(g, i, j, i - 1, j + 1);
    lemma_all_near_floor_add(g, i, j, a2, step_to(g, i, j, i - 1, j + 1));
    let a4 = a3 + step_to(g, i, j, i, j - 1);
    lemma_all_near_floor_add(g, i, j, a3, step_to(g, i, j, i, j - 1));
    let a5 = a4 + step_to(g, i, j, i, j + 1);
    lemma_all_near_floor_add(g, i, j, a4, step_to(g, i, j, i, j + 1));
    let a6 = a5 + step_to(g, i, j, i + 1, j - 1);
    lemma_all_near_floor_add(g, i, j, a5, step_to(g, i, j, i + 1, j - 1));
    let a7 = a6 + step_to(g, i, j, i + 1, j);
    lemma_all_near_floor_add(g, i, j, a6, step_to(g, i, j, i + 1, j));
    lemma_all_near_floor_add(g, i, j, a7, step_to(g, i, j, i + 1, j + 1));
}

/// The graph after the builder looked at the tile `(i, j)`: a floor tile
/// gets its list.
pub open spec fn visit(v: GraphView, g: Seq<Seq<TileType>>, i: int, j: int) -> GraphView {
    if at(g, i, j) == TileType::Floor {
        v.insert((i as u16, j as u16), tile_adjacency(g, i, j))
    } else {
        v
    }
}

/// The graph once the builder, going column by column from column 1 and
/// row by row from row 1 (the border is skipped), has reached `(i, j)`:
/// every inner tile before it has been looked at.
pub open spec fn level_graph(v: GraphView, g: Seq<Seq<TileType>>, h: int, i: int, j: int) -> GraphView
    decreases i, j,
{
    if i <= 1 && j <= 1 {
        v
    } else if j <= 1 {
        level_graph(v, g, h, i - 1, h - 1)
    } else {
        visit(level_graph(v, g, h, i, j - 1), g, i, j - 1)
    }
}

proof fn lemma_key_index_push(keys: Seq<(u16, u16)>, k: (u16, u16), t: (u16, u16), i: int)
    requires
        0 <= i <= keys.len(),
    ensures
        key_index_from(keys.push(k), t, i) == (if key_index_from(keys, t, i) >= 0 {
            key_index_from(keys, t, i)
        } else if t == k {
            keys.len() as int
        } else {
            -1
        }),
    decreases keys.len() - i,
{
    if i < keys.len() {
        assert(keys.push(k)[i] == keys[i]);
        if keys[i] != t {
            lemma_key_index_push(keys, k, t, i + 1);
        }
    } else {
        assert(keys.push(k)[i] == k);
        if t != k {
            assert(key_index_from(keys.push(k), t, i + 1) == -1);
        }
    }
}

/// Setting the list of `k` gives `k` that list and leaves every other
/// tile's list as it was.
pub proof fn lemma_insert_list(v: GraphView, k: (u16, u16), l: Seq<(u16, u16)>, t: (u16, u16))
    requires
        v.wf(),
        l.len() > 0,
        l[0] == k,
    ensures
        v.insert(k, l).wf(),
        v.insert(k, l).has_key(t) == (t == k || v.has_key(t)),
        v.insert(k, l).list_of(t) == (if t == k { l } else { v.list_of(t) }),
{
    lemma_key_index_from(v.keys, k, 0);
    lemma_key_index_from(v.keys, t, 0);
    if v.has_key(k) {
        let w = v.insert(k, l);
        assert forall|x: int| 0 <= x < w.keys.len() implies (#[trigger] w.lists[x]).len() > 0 && w.lists[x][0]
            == w.keys[x] by {
            if x == v.index_of(k) {
            } else {
                assert(w.lists[x] == v.lists[x]);
            }
        }
        if t != k && v.has_key(t) {
            assert(v.index_of(t) != v.index_of(k));
        }
    } else {
        lemma_key_index_push(v.keys, k, t, 0);
        let w = v.insert(k, l);
        assert forall|x: int| 0 <= x < w.keys.len() implies (#[trigger] w.lists[x]).len() > 0 && w.lists[x][0]
            == w.keys[x] by {
            if x < v.keys.len() {
                assert(w.lists[x] == v.lists[x] && w.keys[x] == v.keys[x]);
            }
        }
        if t == k {
            assert(w.index_of(t) == v.keys.len());
        } else if v.has_key(t) {
            assert(w.lists[v.index_of(t)] == v.lists[v.index_of(t)]);
        }
    }
}

/// Tile `t` is an inner floor tile that the builder has looked at before
/// reaching `(i, j)`.
pub open spec fn built_before(g: Seq<Seq<TileType>>, h: int, t: (u16, u16), i: int, j: int) -> bool {
    &&& 1 <= t.0
    &&& 1 <= t.1 <= h - 2
    &&& at(g, t.0 as int, t.1 as int) == TileType::Floor
    &&& (t.0 < i || (t.0 == i && t.1 < j))
}

proof fn lemma_level_graph_upto(v: GraphView, g: Seq<Seq<TileType>>, h: int, i: int, j: int)
    requires
        v.wf(),
        1 <= i <= 0xffff,
        h <= 0x1_0000,
        j <= h - 1 || j <= 1,
    ensures
        level_graph(v, g, h, i, j).wf(),
        forall|t: (u16, u16)|
            #[trigger] level_graph(v, g, h, i, j).list_of(t) == (if built_before(g, h, t, i, j) {
                tile_adjacency(g, t.0 as int, t.1 as int)
            } else {
                v.list_of(t)
            }),
    decreases i, j,
{
    if i <= 1 && j <= 1 {
    } else if j <= 1 {
        lemma_level_graph_upto(v, g, h, i - 1, h - 1);
        assert forall|t: (u16, u16)| built_before(g, h, t, i, j) == built_before(g, h, t, i - 1, h - 1) by {}
    } else {
        lemma_level_graph_upto(v, g, h, i, j - 1);
        let prev = level_graph(v, g, h, i, j - 1);
        let kk = (i as u16, (j - 1) as u16);
        if at(g, i, j - 1) == TileType::Floor {
            assert(tile_adjacency(g, i, j - 1)[0] == kk);
            assert forall|t: (u16, u16)| #[trigger] level_graph(v, g, h, i, j).list_of(t) == (if built_before(g, h, t, i, j) {
                tile_adjacency(g, t.0 as int, t.1 as int)
            } else {
                v.list_of(t)
            }) by {
                lemma_insert_list(prev, kk, tile_adjacency(g, i, j - 1), t);
                assert(level_graph(v, g, h, i, j) == prev.insert(kk, tile_adjacency(g, i, j - 1)));
                assert((t == kk) == (t.0 as int == i && t.1 as int == j - 1));
                assert(built_before(g, h, t, i, j) == (built_before(g, h, t, i, j - 1) || t == kk));
                assert(prev.list_of(t) == (if built_before(g, h, t, i, j - 1) {
                    tile_adjacency(g, t.0 as int, t.1 as int)
                } else {
                    v.list_of(t)
                }));
            }
            lemma_insert_list(prev, kk, tile_adjacency(g, i, j - 1), kk);
        } else {
            assert forall|t: (u16, u16)| #[trigger] level_graph(v, g, h, i, j).list_of(t) == (if built_before(g, h, t, i, j) {
                tile_adjacency(g, t.0 as int, t.1 as int)
            } else {
                v.list_of(t)
            }) by {
                assert(prev.list_of(t) == (if built_before(g, h, t, i, j - 1) {
                    tile_adjacency(g, t.0 as int, t.1 as int)
                } else {
                    v.list_of(t)
                }));
            }
        }
    }
}

/// What building a level's graph gives: each floor tile off the border of
/// a `w` by `h` level has as its list the tile itself and the floor
/// neighbours one can step to without cutting a wall's corner; every other
/// tile keeps the list it had.
pub proof fn lemma_level_graph(v: GraphView, g: Seq<Seq<TileType>>, w: int, h: int)
    requires
        v.wf(),
        is_rect(g, w, h),
        1 <= w <= 0x1_0000,
        0 <= h <= 0x1_0000,
    ensures
        level_graph(v, g, h, w - 1, 1).wf(),
        forall|t: (u16, u16)|
            #[trigger] level_graph(v, g, h, w - 1, 1).list_of(t) == (if 1 <= t.0 <= w - 2 && 1 <= t.1 <= h - 2
                && at(g, t.0 as int, t.1 as int) == TileType::Floor {
                tile_adjacency(g, t.0 as int, t.1 as int)
            } else {
                v.list_of(t)
            }),
{
    if w >= 2 {
        lemma_level_graph_upto(v, g, h, w - 1, 1);
    } else {
        assert forall|t: (u16, u16)| #[trigger] level_graph(v, g, h, w - 1, 1).list_of(t) == v.list_of(t) by {}
    }
}

/// Whether one can step from `(i, j)` to `(k, m)`.
fn passable_exec(grid: &Vec<Vec<TileType>>, w: usize, h: usize, i: usize, j: usize, k: usize, m: usize) -> (b: bool)
    requires
        is_rect(cells(grid@), w as int, h as int),
        1 <= i,
        i + 1 < w,
        1 <= j,
        j + 1 < h,
        i - 1 <= k <= i + 1,
        j - 1 <= m <= j + 1,
    ensures
        b == passable(cells(grid@), i as int, j as int, k as int, m as int),
{
    proof {
        crate::gamemap::lemma_rect_index(grid@, w as int, h as int, k as int);
        crate::gamemap::lemma_rect_index(grid@, w as int, h as int, i as int);
        crate::gamemap::lemma_rect_index(grid@, w as int, h as int, (i - 1) as int);
        crate::gamemap::lemma_rect_index(grid@, w as int, h as int, (i + 1) as int);
    }
    if grid[k][m] != TileType::Floor {
        return false;
    }
    if m + 1 == j && grid[i][j - 1] == TileType::Wall {
        return false;
    }
    if m == j + 1 && grid[i][j + 1] == TileType::Wall {
        return false;
    }
    if k + 1 == i && grid[i - 1][j] == TileType::Wall {
        return false;
    }
    if k == i + 1 && grid[i + 1][j] == TileType::Wall {
        return false;
    }
    true
}

/// Appends `t` when `b` holds.
fn push_if(l: &mut Vec<(u16, u16)>, b: bool, t: (u16, u16))
    ensures
        final(l)@ == old(l)@ + (if b { seq![t] } else { Seq::empty() }),
{
    if b {
        l.push(t);
    } else {
        assert(old(l)@ + Seq::empty() =~= old(l)@);
    }
}

/// The list of the floor tile `(i, j)`.
fn tile_neighbours(grid: &Vec<Vec<TileType>>, w: usize, h: usize, i: usize, j: usize) -> (l: Vec<(u16, u16)>)
    requires
        is_rect(cells(grid@), w as int, h as int),
        1 <= i,
        i + 1 < w,
        1 <= j,
        j + 1 < h,
        w <= 0x1_0000,
        h <= 0x1_0000,
    ensures
        l@ == tile_adjacency(cells(grid@), i as int, j as int),
{
    let ghost g = cells(grid@);
    let mut l: Vec<(u16, u16)> = Vec::new();
    l.push((i as u16, j as u16));
    assert(l@ =~= seq![(i as u16, j as u16)]);
    let b = passable_exec(grid, w, h, i, j, i - 1, j - 1);
    push_if(&mut l, b, ((i - 1) as u16, (j - 1) as u16));
    let b = passable_exec(grid, w, h, i, j, i - 1, j);
    push_if(&mut l, b, ((i - 1) as u16, j as u16));
    let b = passable_exec(grid, w, h, i, j, i - 1, j + 1);
    push_if(&mut l, b, ((i - 1) as u16, (j + 1) as u16));
    let b = passable_exec(grid, w, h, i, j, i, j - 1);
    push_if(&mut l, b, (i as u16, (j - 1) as u16));
    let b = passable_exec(grid, w, h, i, j, i, j + 1);
    push_if(&mut l, b, (i as u16, (j + 1) as u16));
    let b = passable_exec(grid, w, h, i, j, i + 1, j - 1);
    push_if(&mut l, b, ((i + 1) as u16, (j - 1) as u16));
    let b = passable_exec(grid, w, h, i, j, i + 1, j);
    push_if(&mut l, b, ((i + 1) as u16, j as u16));
    let b = passable_exec(grid, w, h, i, j, i + 1, j + 1);
    push_if(&mut l, b, ((i + 1) as u16, (j + 1) as u16));
    l
}

/// Builds the graph of a level into `graph`: every floor tile off the
/// border gets its list (the tile itself, then the floor neighbours one can
/// step to without cutting a wall's corner), replacing any list it had;
/// the other tiles of the graph keep theirs.
pub fn create_new_graph(grid: &Vec<Vec<TileType>>, graph: &mut Graph)
    requires
        old(graph)@.wf(),
        grid@.len() >= 1,
        is_rect(cells(grid@), grid@.len() as int, grid@[0]@.len() as int),
        grid@.len() >= 3 ==> grid@[0]@.len() >= 1,
        grid@.len() <= 0x1_0000,
        grid@[0]@.len() <= 0x1_0000,
    ensures
        final(graph)@.wf(),
        final(graph)@ == level_graph(old(graph)@, cells(grid@), grid@[0]@.len() as int, grid@.len() - 1, 1),
{
    let ghost g = cells(grid@);
    let w = grid.len();
    let h = grid[0].len();
    assert(g[0].len() == h);
    let mut i: usize = 1;
    while i + 1 < w
        invariant
            1 <= i,
            i + 1 <= w || (w <= 2 && i == 1),
            w == grid@.len(),
            w >= 3 ==> h >= 1,
            w <= 0x1_0000,
            h <= 0x1_0000,
            g == cells(grid@),
            is_rect(g, w as int, h as int),
            graph@.wf(),
            graph@ == level_graph(old(graph)@, g, h as int, i as int, 1),
        decreases w - i,
    {
        let mut j: usize = 1;
        while j + 1 < h
            invariant
                1 <= i,
                i + 1 < w,
                1 <= j,
                j + 1 <= h || (h <= 2 && j == 1),
                w == grid@.len(),
                w <= 0x1_0000,
                h <= 0x1_0000,
                g == cells(grid@),
                is_rect(g, w as int, h as int),
                graph@.wf(),
                graph@ == level_graph(old(graph)@, g, h as int, i as int, j as int),
            decreases h - j,
        {
            proof {
                crate::gamemap::lemma_rect_index(grid@, w as int, h as int, i as int);
            }
            if grid[i][j] == TileType::Floor {
                let l = tile_neighbours(grid, w, h, i, j);
                graph.insert((i as u16, j as u16), l);
            }
            j = j + 1;
        }
        proof {
            let v0 = old(graph)@;
            assert(level_graph(v0, g, h as int, i + 1, 1) == level_graph(v0, g, h as int, i as int, h - 1));
            if h <= 2 {
                assert(level_graph(v0, g, h as int, i as int, h - 1) == level_graph(v0, g, h as int, i as int, 1));
            }
        }
        i = i + 1;
    }
    assert(level_graph(old(graph)@, g, h as int, i as int, 1) == level_graph(
        old(graph)@,
        g,
        h as int,
        w - 1,
        1,
    ));
}

// ---------------------------------------------------------------------
// Walks through the graph
// ---------------------------------------------------------------------

/// One can step from the world point `p` to the world point `q`: `q` is the
/// corner of a tile in the list of the tile `p` stands on.
pub open spec fn steps_to(v: GraphView, p: (int, int), q: (int, int)) -> bool {
    exists|j: int| 0 <= j < v.next_tiles(p).len() && tile_pos(#[trigger] v.next_tiles(p)[j]) == q
}

/// A walk: world points, each a step from the one before.
pub open spec fn is_walk(v: GraphView, w: Seq<(int, int)>) -> bool {
    &&& w.len() >= 1
    &&& forall|i: int| 0 <= i < w.len() - 1 ==> steps_to(v, #[trigger] w[i], w[i + 1])
}

/// Some walk leads from `s` to `t`.
pub open spec fn reaches(v: GraphView, s: (int, int), t: (int, int)) -> bool {
    exists|w: Seq<(int, int)>| #[trigger] is_walk(v, w) && w[0] == s && w.last() == t
}

/// Each point reaches itself.
proof fn lemma_reach_self(v: GraphView, s: (int, int))
    ensures
        reaches(v, s, s),
{
    let w = seq![s];
    assert(is_walk(v, w));
}

/// A walk to `p` goes on one step to `q`.
proof fn lemma_reach_step(v: GraphView, s: (int, int), p: (int, int), q: (int, int))
    requires
        reaches(v, s, p),
        steps_to(v, p, q),
    ensures
        reaches(v, s, q),
{
    let w = choose|w: Seq<(int, int)>| #[trigger] is_walk(v, w) && w[0] == s && w.last() == p;
    let w2 = w.push(q);
    assert forall|i: int| 0 <= i < w2.len() - 1 implies steps_to(v, #[trigger] w2[i], w2[i + 1]) by {
        if i < w.len() - 1 {
            assert(w2[i] == w[i] && w2[i + 1] == w[i + 1]);
        } else {
            assert(w2[i] == p && w2[i + 1] == q);
        }
    }
    assert(is_walk(v, w2));
}

/// A set of points that holds `s` and every step out of its points holds
/// every walk from `s`.
proof fn lemma_closed_holds_walks(
    v: GraphView,
    s: (int, int),
    set: spec_fn((int, int)) -> bool,
    w: Seq<(int, int)>,
    n: int,
)
    requires
        is_walk(v, w),
        w[0] == s,
        set(s),
        forall|p: (int, int), q: (int, int)| set(p) && #[trigger] steps_to(v, p, q) ==> set(q),
        0 <= n < w.len(),
    ensures
        set(w[n]),
    decreases n,
{
    if n > 0 {
        lemma_closed_holds_walks(v, s, set, w, n - 1);
        assert(steps_to(v, w[n - 1], w[n]));
    }
}

// ---------------------------------------------------------------------
// The search
// ---------------------------------------------------------------------

/// A tile of the cost field.
pub open spec fn in_field(t: (u16, u16)) -> bool {
    t.0 < FIELD_SIZE && t.1 < FIELD_SIZE
}

/// Every tile in every list lies in the cost field.
pub open spec fn fits_field(v: GraphView) -> bool {
    forall|i: int, j: int|
        0 <= i < v.lists.len() && 0 <= j < v.lists[i].len() ==> in_field(#[trigger] v.lists[i][j])
}

/// The tile a world point lies in.
pub open spec fn tile_of(p: (int, int)) -> (u16, u16) {
    ((p.0 / TILE_SIZE as int) as u16, (p.1 / TILE_SIZE as int) as u16)
}

/// Where a tile's cost is kept in the field.
pub open spec fn fidx(t: (u16, u16)) -> int {
    t.0 * FIELD_SIZE + t.1
}

/// A tile's corner as a world point of the search.
pub open spec fn tpos32(t: (u16, u16)) -> (u32, u32) {
    ((t.0 * TILE_SIZE) as u32, (t.1 * TILE_SIZE) as u32)
}

/// A world point on a tile corner.
pub open spec fn on_grid(p: (u32, u32)) -> bool {
    p.0 % TILE_SIZE == 0 && p.1 % TILE_SIZE == 0
}

/// A point the search can meet: the start, or a tile corner, in the field.
pub open spec fn search_point(start: (u32, u32), p: (u32, u32)) -> bool {
    &&& p.0 < FIELD_SIZE * TILE_SIZE
    &&& p.1 < FIELD_SIZE * TILE_SIZE
    &&& (p == start || on_grid(p))
}

/// A number for each point the search can meet, different for different points.
spec fn code(p: (u32, u32)) -> int {
    if on_grid(p) {
        (p.0 / TILE_SIZE) * FIELD_SIZE + p.1 / TILE_SIZE
    } else {
        (FIELD_SIZE * FIELD_SIZE) as int
    }
}

proof fn lemma_code(start: (u32, u32), p: (u32, u32), q: (u32, u32))
    requires
        search_point(start, p),
        search_point(start, q),
    ensures
        0 <= code(p) <= 1024,
        code(p) == code(q) ==> p == q,
{
    if on_grid(p) && on_grid(q) && code(p) == code(q) {
        let a = p.0 / 32;
        let b = p.1 / 32;
        let c = q.0 / 32;
        let d = q.1 / 32;
        assert(a == c && b == d) by (nonlinear_arith)
            requires
                a * 32 + b == c * 32 + d,
                0 <= b < 32,
                0 <= d < 32,
                a >= 0,
                c >= 0,
        ;
    }
}

/// The list of every tile of the graph lies in the field, so does every
/// step out of any point.
proof fn lemma_next_in_field(v: GraphView, p: (int, int))
    requires
        v.wf(),
        fits_field(v),
    ensures
        forall|j: int| 0 <= j < v.next_tiles(p).len() ==> in_field(#[trigger] v.next_tiles(p)[j]),
{
    lemma_key_index_from(v.keys, v.nearest(p), 0);
    if v.has_key(v.nearest(p)) {
        let i = v.index_of(v.nearest(p));
        assert forall|j: int| 0 <= j < v.next_tiles(p).len() implies in_field(#[trigger] v.next_tiles(p)[j]) by {
            assert(v.next_tiles(p)[j] == v.lists[i][j]);
        }
    }
}

/// The point the search looks for lies on a tile corner of the field.
proof fn lemma_goal_in_field(v: GraphView, player: (u32, u32))
    requires
        v.wf(),
        v.keys.len() > 0,
        fits_field(v),
        in_range(player),
    ensures
        on_grid(object_node_pos(v, pt(player))),
        in_field(tile_of(pt(object_node_pos(v, pt(player))))),
        tile_pos(tile_of(pt(object_node_pos(v, pt(player))))) == pt(object_node_pos(v, pt(player))),
        object_node_pos(v, pt(player)) == tpos32(tile_of(pt(object_node_pos(v, pt(player))))),
{
    lemma_nearest_is_key(v, player);
    lemma_next_in_field(v, pt(player));
    let l = v.next_tiles(pt(player));
    if exists|j: int| 0 <= j < l.len() && tile_pos(#[trigger] l[j]) == pt(player) {
        let j = choose|j: int| 0 <= j < l.len() && tile_pos(#[trigger] l[j]) == pt(player);
        assert(in_field(l[j]));
    } else {
        assert(l[0] == v.nearest(pt(player)));
        assert(in_field(l[0]));
    }
}

/// The score of a point in the search: a hundred times the cost of its
/// tile, plus its distance to the goal.
pub open spec fn pick_score(costs: Seq<u16>, p: (u32, u32), goal: (u32, u32)) -> int {
    100 * costs[fidx(tile_of(pt(p)))] + dist(pt(p), pt(goal))
}

/// The point with the lowest score among the first `n` (the first of the
/// lowest), with that score; none (-1) while none scores under `u64::MAX`.
pub open spec fn best_pick(r: Seq<(u32, u32)>, costs: Seq<u16>, goal: (u32, u32), n: int) -> (int, int)
    decreases n,
{
    if n <= 0 {
        (-1, u64::MAX as int)
    } else {
        let b = best_pick(r, costs, goal, n - 1);
        let sc = pick_score(costs, r[n - 1], goal);
        if b.1 > sc {
            (n - 1, sc)
        } else {
            b
        }
    }
}

proof fn lemma_best_pick(r: Seq<(u32, u32)>, costs: Seq<u16>, goal: (u32, u32), n: int)
    requires
        0 <= n <= r.len(),
        n >= 1 ==> pick_score(costs, r[0], goal) < u64::MAX,
    ensures
        -1 <= best_pick(r, costs, goal, n).0 < n,
        n >= 1 ==> best_pick(r, costs, goal, n).0 >= 0,
        best_pick(r, costs, goal, n).0 >= 0 ==> best_pick(r, costs, goal, n).1 == pick_score(
            costs,
            r[best_pick(r, costs, goal, n).0],
            goal,
        ),
    decreases n,
{
    if n > 0 {
        lemma_best_pick(r, costs, goal, n - 1);
        if n == 1 {
            assert(best_pick(r, costs, goal, 0) == (-1int, u64::MAX as int));
        }
    }
}

/// The tile a world point of the search lies in.
fn tile_of_exec(p: (u32, u32)) -> (t: (u16, u16))
    requires
        p.0 < FIELD_SIZE * TILE_SIZE,
        p.1 < FIELD_SIZE * TILE_SIZE,
    ensures
        t == tile_of(pt(p)),
        in_field(t),
{
    ((p.0 / TILE_SIZE) as u16, (p.1 / TILE_SIZE) as u16)
}

/// Picks the point of the search to look at next: the one with the lowest
/// score (the first of them).
fn pick_node(reachable: &Vec<(u32, u32)>, goal: (u32, u32), costs: &Vec<u16>) -> (i: usize)
    requires
        reachable@.len() > 0,
        costs@.len() == FIELD_SIZE * FIELD_SIZE,
        forall|k: int| 0 <= k < costs@.len() ==> costs@[k] <= 255,
        forall|k: int| 0 <= k < reachable@.len() ==> #[trigger] reachable@[k].0 < FIELD_SIZE * TILE_SIZE
            && reachable@[k].1 < FIELD_SIZE * TILE_SIZE,
        goal.0 < FIELD_SIZE * TILE_SIZE,
        goal.1 < FIELD_SIZE * TILE_SIZE,
    ensures
        i == best_pick(reachable@, costs@, goal, reachable@.len() as int).0,
        i < reachable@.len(),
{
    let mut best: usize = 0;
    let mut min_cost: u64 = 0xffff_ffff_ffff_ffff;
    let mut k: usize = 0;
    while k < reachable.len()
        invariant
            0 <= k <= reachable@.len(),
            costs@.len() == FIELD_SIZE * FIELD_SIZE,
            forall|q: int| 0 <= q < costs@.len() ==> costs@[q] <= 255,
            forall|q: int| 0 <= q < reachable@.len() ==> #[trigger] reachable@[q].0 < FIELD_SIZE * TILE_SIZE
                && reachable@[q].1 < FIELD_SIZE * TILE_SIZE,
            goal.0 < FIELD_SIZE * TILE_SIZE,
            goal.1 < FIELD_SIZE * TILE_SIZE,
            min_cost == best_pick(reachable@, costs@, goal, k as int).1,
            best_pick(reachable@, costs@, goal, k as int).0 >= 0 ==> best == best_pick(
                reachable@,
                costs@,
                goal,
                k as int,
            ).0,
            k >= 1 ==> best_pick(reachable@, costs@, goal, k as int).0 >= 0,
            best < reachable@.len(),
        decreases reachable@.len() - k,
    {
        let p = reachable[k];
        let t = tile_of_exec(p);
        let c = costs[(t.0 as usize) * FIELD_SIZE + (t.1 as usize)];
        let d = distance(p, goal);
        assert(d <= 0x1_0000_0000_0000);
        let total: u64 = 100 * (c as u64) + d;
        proof {
            if k == 0 {
                assert(best_pick(reachable@, costs@, goal, 0) == (-1int, u64::MAX as int));
            }
        }
        if min_cost > total {
            min_cost = total;
            best = k;
        }
        k = k + 1;
    }
    best
}

/// Whether a point is in a list.
fn contains_pos(l: &Vec<(u32, u32)>, p: (u32, u32)) -> (b: bool)
    ensures
        b == l@.contains(p),
{
    let mut i: usize = 0;
    while i < l.len()
        invariant
            0 <= i <= l@.len(),
            forall|k: int| 0 <= k < i ==> l@[k] != p,
        decreases l@.len() - i,
    {
        let q = l[i];
        if q.0 == p.0 && q.1 == p.1 {
            assert(l@[i as int] == p);
            return true;
        }
        i = i + 1;
    }
    false
}

/// The way found to a tile, followed by the tile, is a chain of steps
/// through the graph; its first step may start from the start point itself
/// (from the start's own tile).
pub open spec fn chain_step(v: GraphView, start: (int, int), q: Seq<(u16, u16)>, i: int) -> bool {
    ||| steps_to(v, tile_pos(q[i - 1]), tile_pos(q[i]))
    ||| (i == 1 && q[0] == tile_of(start) && steps_to(v, start, tile_pos(q[1])))
}

pub open spec fn chain_ok(v: GraphView, start: (int, int), q: Seq<(u16, u16)>) -> bool {
    forall|i: int| 1 <= i < q.len() ==> #[trigger] chain_step(v, start, q, i)
}

/// A returned path: each tile a step from the one before, the last one the
/// goal's tile.
pub open spec fn path_ok(v: GraphView, p: Seq<(u16, u16)>, goal_tile: (u16, u16)) -> bool {
    &&& p.len() > 0 ==> p.last() == goal_tile
    &&& forall|i: int| 1 <= i < p.len() ==> #[trigger] steps_to(v, tile_pos(p[i - 1]), tile_pos(p[i]))
}

/// The way kept for a tile, as a sequence.
spec fn way(paths: Seq<Vec<(u16, u16)>>, t: (u16, u16)) -> Seq<(u16, u16)> {
    paths[fidx(t)]@
}

/// The path handed to the mob: the way to the goal's tile and that tile,
/// without the first tile (where the mob stands).
fn build_path(way: &Vec<(u16, u16)>, goal_tile: (u16, u16)) -> (p: Vec<(u16, u16)>)
    ensures
        p@ == way@.push(goal_tile).drop_first(),
{
    let mut p: Vec<(u16, u16)> = Vec::new();
    let ghost full = way@.push(goal_tile);
    let mut i: usize = 1;
    while i < way.len()
        invariant
            1 <= i <= way@.len() || (way@.len() == 0 && i == 1),
            full == way@.push(goal_tile),
            p@ == full.subrange(1, i as int),
        decreases way@.len() - i,
    {
        p.push(way[i]);
        i = i + 1;
        assert(p@ =~= full.subrange(1, i as int));
    }
    if way.len() > 0 {
        p.push(goal_tile);
        assert(p@ =~= full.drop_first());
    } else {
        assert(full.drop_first() =~= Seq::empty());
        assert(p@ =~= Seq::empty());
    }
    p
}

/// A copy of a way with a tile added at its end.
fn extend_way(way: &Vec<(u16, u16)>, t: (u16, u16)) -> (r: Vec<(u16, u16)>)
    ensures
        r@ == way@.push(t),
{
    let mut r: Vec<(u16, u16)> = Vec::new();
    let mut i: usize = 0;
    while i < way.len()
        invariant
            0 <= i <= way@.len(),
            r@ == way@.subrange(0, i as int),
        decreases way@.len() - i,
    {
        r.push(way[i]);
        i = i + 1;
        assert(r@ =~= way@.subrange(0, i as int));
    }
    r.push(t);
    assert(r@ =~= way@.push(t));
    r
}

/// What holds of the cost field all along a search from `start`.
spec fn field_ok(v: GraphView, start: (u32, u32), costs: Seq<u16>, paths: Seq<Vec<(u16, u16)>>) -> bool {
    &&& costs.len() == FIELD_SIZE * FIELD_SIZE
    &&& paths.len() == FIELD_SIZE * FIELD_SIZE
    &&& forall|k: int| 0 <= k < costs.len() ==> costs[k] <= 255
    &&& costs[fidx(tile_of(pt(start)))] == 0
    &&& way(paths, tile_of(pt(start))).len() == 0
    &&& forall|t: (u16, u16)|
        in_field(t) ==> (#[trigger] way(paths, t)).len() == 0 || chain_ok(v, pt(start), way(paths, t).push(t))
    &&& forall|t: (u16, u16)|
        in_field(t) && t != tile_of(pt(start)) ==> ((#[trigger] way(paths, t)).len() == 0 <==> costs[fidx(t)] == 255)
    &&& forall|t: (u16, u16)|
        in_field(t) && (#[trigger] way(paths, t)).len() > 0 ==> way(paths, t)[0] == tile_of(pt(start))
}

/// What holds of the points met by a search from `start` towards `goal`.
spec fn points_ok(
    v: GraphView,
    start: (u32, u32),
    goal: (u32, u32),
    reachable: Seq<(u32, u32)>,
    explored: Seq<(u32, u32)>,
) -> bool {
    &&& reachable.no_duplicates()
    &&& forall|k: int| 0 <= k < reachable.len() ==> search_point(start, #[trigger] reachable[k])
    &&& forall|k: int| 0 <= k < explored.len() ==> search_point(start, #[trigger] explored[k])
    &&& forall|k: int| 0 <= k < reachable.len() ==> !explored.contains(#[trigger] reachable[k])
    &&& forall|k: int| 0 <= k < reachable.len() ==> reaches(v, pt(start), pt(#[trigger] reachable[k]))
    &&& forall|k: int| 0 <= k < explored.len() ==> reaches(v, pt(start), pt(#[trigger] explored[k]))
    &&& forall|k: int| 0 <= k < explored.len() ==> #[trigger] explored[k] != goal
    &&& explored.contains(start) || reachable.contains(start)
}

/// Every step out of the first `n` looked-at points leads to a point met.
spec fn closed_upto(v: GraphView, reachable: Seq<(u32, u32)>, explored: Seq<(u32, u32)>, n: int) -> bool {
    forall|k: int, j: int|
        0 <= k < n && 0 <= j < v.next_tiles(pt(explored[k])).len() ==> explored.contains(
            tpos32(#[trigger] v.next_tiles(pt(explored[k]))[j]),
        ) || reachable.contains(tpos32(v.next_tiles(pt(explored[k]))[j]))
}

proof fn lemma_tpos32(t: (u16, u16))
    requires
        in_field(t),
    ensures
        pt(tpos32(t)) == tile_pos(t),
        on_grid(tpos32(t)),
        tpos32(t).0 < FIELD_SIZE * TILE_SIZE,
        tpos32(t).1 < FIELD_SIZE * TILE_SIZE,
        tile_of(pt(tpos32(t))) == t,
{
}

proof fn lemma_fidx(a: (u16, u16), b: (u16, u16))
    requires
        in_field(a),
        in_field(b),
    ensures
        0 <= fidx(a) < FIELD_SIZE * FIELD_SIZE,
        fidx(a) == fidx(b) ==> a == b,
{
}

/// A chain of steps goes on with one more step, taken from its last tile,
/// or from the start point when the chain is just the start's tile.
proof fn lemma_chain_push(v: GraphView, start: (int, int), q: Seq<(u16, u16)>, a: (u16, u16), from: (int, int))
    requires
        q.len() >= 1,
        chain_ok(v, start, q),
        steps_to(v, from, tile_pos(a)),
        from == tile_pos(q.last()) || (q.len() == 1 && q[0] == tile_of(start) && from == start),
    ensures
        chain_ok(v, start, q.push(a)),
{
    let q2 = q.push(a);
    assert forall|i: int| 1 <= i < q2.len() implies #[trigger] chain_step(v, start, q2, i) by {
        if i < q.len() {
            assert(chain_step(v, start, q, i));
            assert(q2[i] == q[i] && q2[i - 1] == q[i - 1] && q2[0] == q[0] && (q.len() > 1 ==> q2[1] == q[1]));
        } else {
            assert(q2[i - 1] == q.last() && q2[i] == a);
        }
    }
}

/// What the way search holds: the cost and the way to each tile of the
/// field (by `fidx`), the points still to look at and the points looked at.
pub struct SearchState {
    pub costs: Seq<u16>,
    pub ways: Seq<Seq<(u16, u16)>>,
    pub reachable: Seq<(u32, u32)>,
    pub explored: Seq<(u32, u32)>,
}

/// The ways of a search, as sequences.
pub open spec fn ways_of(paths: Seq<Vec<(u16, u16)>>) -> Seq<Seq<(u16, u16)>> {
    paths.map_values(|p: Vec<(u16, u16)>| p@)
}

/// A search state of the given parts.
pub open spec fn state_of(
    costs: Seq<u16>,
    paths: Seq<Vec<(u16, u16)>>,
    reachable: Seq<(u32, u32)>,
    explored: Seq<(u32, u32)>,
) -> SearchState {
    SearchState { costs, ways: ways_of(paths), reachable, explored }
}

/// The search as it begins from `start`: every tile at cost 255 with no
/// way, but the start's tile at cost 0; the start the one point to look at.
pub open spec fn search_start(start: (u32, u32)) -> SearchState {
    SearchState {
        costs: Seq::new(
            (FIELD_SIZE * FIELD_SIZE) as nat,
            |q: int|
                if q == fidx(tile_of(pt(start))) {
                    0u16
                } else {
                    255u16
                },
        ),
        ways: Seq::new((FIELD_SIZE * FIELD_SIZE) as nat, |q: int| Seq::<(u16, u16)>::empty()),
        reachable: seq![start],
        explored: Seq::empty(),
    }
}

/// The search after looking from tile `nt` (reached at cost `ncost` by the
/// way `nway`) at the first `j` tiles of `list`: a tile not looked at yet
/// becomes a point to look at, if it is not one yet, and takes the way
/// through `nt` when that is cheaper than its own.
pub open spec fn relax(s: SearchState, nt: (u16, u16), ncost: int, nway: Seq<(u16, u16)>, list: Seq<(u16, u16)>, j: nat) -> SearchState
    decreases j,
{
    if j == 0 {
        s
    } else {
        let s1 = relax(s, nt, ncost, nway, list, (j - 1) as nat);
        let a = list[j - 1];
        let ap = tpos32(a);
        if s1.explored.contains(ap) {
            s1
        } else {
            let r2 = if s1.reachable.contains(ap) {
                s1.reachable
            } else {
                s1.reachable.push(ap)
            };
            if ncost + 1 < s1.costs[fidx(a)] {
                SearchState {
                    costs: s1.costs.update(fidx(a), (ncost + 1) as u16),
                    ways: s1.ways.update(fidx(a), nway.push(nt)),
                    reachable: r2,
                    explored: s1.explored,
                }
            } else {
                SearchState { reachable: r2, ..s1 }
            }
        }
    }
}

/// What the search returns from state `s`, looking at most `fuel` more
/// times: `None` once no point is left; else it takes the point of lowest
/// score (`best_pick`), returns the way to the goal's tile without its
/// first tile if that point is the goal, and otherwise looks from it at its
/// next tiles (`relax`) and goes on.
pub open spec fn search_from(v: GraphView, s: SearchState, goal: (u32, u32), fuel: nat) -> Option<Seq<(u16, u16)>>
    decreases fuel,
{
    if fuel == 0 || s.reachable.len() == 0 {
        None
    } else {
        let i = best_pick(s.reachable, s.costs, goal, s.reachable.len() as int).0;
        let node = s.reachable[i];
        if node == goal {
            let gt = tile_of(pt(goal));
            Some(s.ways[fidx(gt)].push(gt).drop_first())
        } else {
            let s1 = SearchState { reachable: s.reachable.remove(i), explored: s.explored.push(node), ..s };
            let nt = tile_of(pt(node));
            let list = v.next_tiles(pt(node));
            search_from(v, relax(s1, nt, s.costs[fidx(nt)] as int, s.ways[fidx(nt)], list, list.len()), goal, (fuel - 1) as nat)
        }
    }
}

/// The search of one mob's way from `start` to the node at the player's
/// point. Points to look at are taken by lowest
/// score, a hundred times the cost of their tile plus their distance to
/// the goal; each step to a tile not looked at yet makes it a point to
/// look at, and gives it a cheaper way when there is one. Returns the way
/// when the goal is taken (each tile a step from the one before, the first
/// a step from the mob's point or from its tile, the last the goal's tile),
/// which happens exactly when some walk leads from the mob to the goal;
/// `None` when no point is left. The way returned is the one `search_from`
/// gives from `search_start`: the search's choice among the ways there are.
#[verifier::spinoff_prover]
#[verifier::rlimit(100)]
pub fn find_path(graph: &Graph, start: (u32, u32), player: (u32, u32)) -> (r: Option<Vec<(u16, u16)>>)
    requires
        graph@.wf(),
        graph@.keys.len() > 0,
        fits_field(graph@),
        start.0 < FIELD_SIZE * TILE_SIZE,
        start.1 < FIELD_SIZE * TILE_SIZE,
        in_range(player),
    ensures
        match r {
            Some(p) => reaches(graph@, pt(start), pt(object_node_pos(graph@, pt(player)))) && path_ok(
                graph@,
                p@,
                tile_of(pt(object_node_pos(graph@, pt(player)))),
            ) && (p@.len() > 0 ==> steps_to(graph@, pt(start), tile_pos(p@[0])) || steps_to(
                graph@,
                tile_pos(tile_of(pt(start))),
                tile_pos(p@[0]),
            )),
            None => !reaches(graph@, pt(start), pt(object_node_pos(graph@, pt(player)))),
        },
        search_from(graph@, search_start(start), object_node_pos(graph@, pt(player)), 1025) == (match r {
            Some(p) => Some(p@),
            None => None,
        }),
{
    let ghost v = graph@;
    let goal_node = graph.get_node_where_object_is(player);
    let goal = goal_node.position;
    proof {
        lemma_goal_in_field(v, player);
    }
    let mut costs: Vec<u16> = Vec::new();
    let mut paths: Vec<Vec<(u16, u16)>> = Vec::new();
    let mut k: usize = 0;
    while k < FIELD_SIZE * FIELD_SIZE
        invariant
            0 <= k <= FIELD_SIZE * FIELD_SIZE,
            costs@.len() == k,
            paths@.len() == k,
            forall|q: int| 0 <= q < k ==> costs@[q] == 255,
            forall|q: int| 0 <= q < k ==> (#[trigger] paths@[q])@.len() == 0,
        decreases FIELD_SIZE * FIELD_SIZE - k,
    {
        costs.push(255);
        paths.push(Vec::new());
        k = k + 1;
    }
    let st = tile_of_exec(start);
    costs.set((st.0 as usize) * FIELD_SIZE + (st.1 as usize), 0);
    let mut reachable: Vec<(u32, u32)> = Vec::new();
    reachable.push(start);
    let mut explored: Vec<(u32, u32)> = Vec::new();
    let ghost mut done: Set<int> = Set::empty();
    let ghost mut it: int = 0;
    proof {
        let s0 = search_start(start);
        assert(costs@ =~= s0.costs) by {
            lemma_fidx(st, st);
        }
        assert(ways_of(paths@) =~= s0.ways) by {
            assert forall|q: int| 0 <= q < paths@.len() implies ways_of(paths@)[q] =~= s0.ways[q] by {
                assert(paths@[q]@.len() == 0);
            }
        }
        assert(reachable@ =~= s0.reachable);
        assert(explored@ =~= s0.explored);
        assert(state_of(costs@, paths@, reachable@, explored@) == s0);
        lemma_reach_self(v, pt(start));
        assert(reachable@[0] == start);
        assert forall|t: (u16, u16)| in_field(t) implies (#[trigger] way(paths@, t)).len() == 0 by {
            lemma_fidx(t, t);
        }
        assert forall|t: (u16, u16)| in_field(t) && t != tile_of(pt(start)) implies ((#[trigger] way(paths@, t)).len()
            == 0 <==> costs@[fidx(t)] == 255) by {
            lemma_fidx(t, st);
        }
        assert forall|q: int| 0 <= q < costs@.len() implies costs@[q] <= 255 by {}
        vstd::set_lib::lemma_int_range(0, 1025);
        assert(reachable@.no_duplicates());
        assert(explored@.contains(start) || reachable@.contains(start));
    }
    while reachable.len() > 0
        invariant
            v == graph@,
            v.wf(),
            v.keys.len() > 0,
            fits_field(v),
            start.0 < FIELD_SIZE * TILE_SIZE,
            start.1 < FIELD_SIZE * TILE_SIZE,
            goal == object_node_pos(v, pt(player)),
            on_grid(goal),
            in_field(tile_of(pt(goal))),
            goal == tpos32(tile_of(pt(goal))),
            st == tile_of(pt(start)),
            field_ok(v, start, costs@, paths@),
            points_ok(v, start, goal, reachable@, explored@),
            closed_upto(v, reachable@, explored@, explored@.len() as int),
            done.finite(),
            done.subset_of(vstd::set_lib::set_int_range(0, 1025)),
            vstd::set_lib::set_int_range(0, 1025).finite(),
            vstd::set_lib::set_int_range(0, 1025).len() == 1025,
            forall|p: (u32, u32)|
                search_point(start, p) ==> (done.contains(code(p)) <==> #[trigger] explored@.contains(p)),
            done.len() == it,
            0 <= it,
            search_from(v, state_of(costs@, paths@, reachable@, explored@), goal, (1025 - it) as nat) == search_from(
                v,
                search_start(start),
                goal,
                1025,
            ),
        decreases 1025 - done.len(),
    {
        proof {
            vstd::set_lib::lemma_len_subset(done, vstd::set_lib::set_int_range(0, 1025));
            assert forall|q: int| 0 <= q < reachable@.len() implies #[trigger] reachable@[q].0 < FIELD_SIZE
                * TILE_SIZE && reachable@[q].1 < FIELD_SIZE * TILE_SIZE by {
                assert(search_point(start, reachable@[q]));
            }
        }
        let i = pick_node(&reachable, goal, &costs);
        let node = reachable[i];
        assert(search_point(start, node));
        let ghost s_cur = state_of(costs@, paths@, reachable@, explored@);
        proof {
            lemma_code(start, node, node);
            assert(!explored@.contains(node));
            assert(!done.contains(code(node)));
            vstd::set_lib::lemma_len_subset(done.insert(code(node)), vstd::set_lib::set_int_range(0, 1025));
            assert(it < 1025);
        }
        if node.0 == goal.0 && node.1 == goal.1 {
            let gt = tile_of_exec(goal);
            let p = build_path(&paths[(gt.0 as usize) * FIELD_SIZE + (gt.1 as usize)], gt);
            proof {
                assert(node == goal);
                lemma_fidx(gt, gt);
                assert(s_cur.ways[fidx(gt)] == way(paths@, gt));
                assert(reaches(v, pt(start), pt(reachable@[i as int])));
                let w = way(paths@, gt);
                let q = w.push(gt);
                if w.len() > 0 {
                    assert(chain_ok(v, pt(start), q));
                    assert forall|j: int| 1 <= j < p@.len() implies #[trigger] steps_to(
                        v,
                        tile_pos(p@[j - 1]),
                        tile_pos(p@[j]),
                    ) by {
                        assert(p@[j - 1] == q[j] && p@[j] == q[j + 1]);
                        assert(chain_step(v, pt(start), q, j + 1));
                    }
                    assert(p@.last() == gt);
                    assert(q[0] == st);
                    assert(chain_step(v, pt(start), q, 1));
                    assert(p@[0] == q[1]);
                } else {
                    assert(p@.len() == 0);
                }
            }
            return Some(p);
        }
        let ghost r0 = reachable@;
        let ghost e0 = explored@;
        reachable.remove(i);
        explored.push(node);
        proof {
            lemma_code(start, node, node);
            assert(!e0.contains(node));
            assert(!done.contains(code(node)));
            assert forall|p: (u32, u32)| search_point(start, p) implies (done.insert(code(node)).contains(
                code(p),
            ) <==> #[trigger] explored@.contains(p)) by {
                lemma_code(start, p, node);
                if p == node {
                    assert(explored@.last() == node);
                } else {
                    assert(explored@.contains(p) <==> e0.contains(p)) by {
                        if explored@.contains(p) {
                            let x = choose|x: int| 0 <= x < explored@.len() && explored@[x] == p;
                            assert(x < e0.len());
                            assert(e0[x] == p);
                        }
                        if e0.contains(p) {
                            let x = choose|x: int| 0 <= x < e0.len() && e0[x] == p;
                            assert(explored@[x] == p);
                        }
                    }
                }
            }
            done = done.insert(code(node));
            vstd::set_lib::lemma_len_subset(done, vstd::set_lib::set_int_range(0, 1025));
            // what was met stays met
            assert forall|p: (u32, u32)| e0.contains(p) || r0.contains(p) implies explored@.contains(p)
                || reachable@.contains(p) by {
                if e0.contains(p) {
                    let x = choose|x: int| 0 <= x < e0.len() && e0[x] == p;
                    assert(explored@[x] == p);
                } else {
                    let x = choose|x: int| 0 <= x < r0.len() && r0[x] == p;
                    if x == i {
                        assert(explored@.last() == p);
                    } else if x < i {
                        assert(reachable@[x] == p);
                    } else {
                        assert(reachable@[x - 1] == p);
                    }
                }
            }
            assert(closed_upto(v, reachable@, explored@, e0.len() as int)) by {
                assert forall|kk: int, j: int|
                    0 <= kk < e0.len() && 0 <= j < v.next_tiles(pt(explored@[kk])).len() implies explored@.contains(
                    tpos32(#[trigger] v.next_tiles(pt(explored@[kk]))[j]),
                ) || reachable@.contains(tpos32(v.next_tiles(pt(explored@[kk]))[j])) by {
                    assert(explored@[kk] == e0[kk]);
                    let t = tpos32(v.next_tiles(pt(e0[kk]))[j]);
                    assert(e0.contains(t) || r0.contains(t));
                }
            }
            assert(r0.remove(i as int) == reachable@);
            assert forall|a: int, b: int| 0 <= a < b < reachable@.len() implies reachable@[a] != reachable@[b] by {
                let a0 = if a < i { a } else { a + 1 };
                let b0 = if b < i { b } else { b + 1 };
                assert(reachable@[a] == r0[a0] && reachable@[b] == r0[b0]);
            }
            assert forall|q: int| 0 <= q < reachable@.len() implies !explored@.contains(#[trigger] reachable@[q]) by {
                let q0 = if q < i { q } else { q + 1 };
                assert(reachable@[q] == r0[q0]);
                assert(r0[q0] != node);
                if explored@.contains(reachable@[q]) {
                    let x = choose|x: int| 0 <= x < explored@.len() && explored@[x] == reachable@[q];
                    if x < e0.len() {
                        assert(e0.contains(r0[q0]));
                    }
                }
            }
            assert forall|q: int| 0 <= q < reachable@.len() implies search_point(start, #[trigger] reachable@[q]) && reaches(
                v,
                pt(start),
                pt(reachable@[q]),
            ) by {
                let q0 = if q < i { q } else { q + 1 };
                assert(reachable@[q] == r0[q0]);
            }
            assert forall|q: int| 0 <= q < explored@.len() implies search_point(start, #[trigger] explored@[q]) && reaches(
                v,
                pt(start),
                pt(explored@[q]),
            ) && explored@[q] != goal by {
                if q < e0.len() {
                    assert(explored@[q] == e0[q]);
                } else {
                    assert(explored@[q] == node);
                    assert(r0[i as int] == node);
                }
            }
            assert(explored@.contains(start) || reachable@.contains(start));
            lemma_nearest_is_key(v, node);
            lemma_next_in_field(v, pt(node));
        }
        let nt = tile_of_exec(node);
        let ncost = costs[(nt.0 as usize) * FIELD_SIZE + (nt.1 as usize)];
        let ghost nway = way(paths@, nt);
        let ghost s1 = state_of(costs@, paths@, reachable@, explored@);
        proof {
            assert(s1 == SearchState { reachable: s_cur.reachable.remove(i as int), explored: s_cur.explored.push(node), ..s_cur });
            lemma_fidx(nt, nt);
            assert(s_cur.costs[fidx(nt)] == ncost);
            assert(s_cur.ways[fidx(nt)] == nway);
        }
        let key = graph.safe_get_pos(node);
        let list = graph.list_of(key);
        assert(list@ == v.next_tiles(pt(node)));
        let ghost n_expl = explored@.len() as int;
        proof {
            lemma_fidx(nt, st);
            if on_grid(node) {
                assert(tile_pos(nt) == pt(node));
            }
        }
        let mut j: usize = 0;
        while j < list.len()
            invariant
                v == graph@,
                v.wf(),
                v.keys.len() > 0,
                fits_field(v),
                start.0 < FIELD_SIZE * TILE_SIZE,
                start.1 < FIELD_SIZE * TILE_SIZE,
                goal == object_node_pos(v, pt(player)),
                st == tile_of(pt(start)),
                0 <= j <= list@.len(),
                list@ == v.next_tiles(pt(node)),
                forall|q: int| 0 <= q < list@.len() ==> in_field(#[trigger] list@[q]),
                search_point(start, node),
                nt == tile_of(pt(node)),
                in_field(nt),
                node == start || tile_pos(nt) == pt(node),
                n_expl == explored@.len(),
                n_expl >= 1,
                explored@[n_expl - 1] == node,
                reaches(v, pt(start), pt(node)),
                costs@[fidx(nt)] == ncost,
                way(paths@, nt) == nway,
                nway.len() == 0 || chain_ok(v, pt(start), nway.push(nt)),
                node == start ==> nway.len() == 0,
                field_ok(v, start, costs@, paths@),
                points_ok(v, start, goal, reachable@, explored@),
                closed_upto(v, reachable@, explored@, n_expl - 1),
                forall|jj: int| 0 <= jj < j ==> explored@.contains(tpos32(#[trigger] list@[jj])) || reachable@.contains(tpos32(list@[jj])),
                done.finite(),
                done.subset_of(vstd::set_lib::set_int_range(0, 1025)),
                vstd::set_lib::set_int_range(0, 1025).finite(),
                vstd::set_lib::set_int_range(0, 1025).len() == 1025,
                forall|p: (u32, u32)|
                    search_point(start, p) ==> (done.contains(code(p)) <==> #[trigger] explored@.contains(p)),
                state_of(costs@, paths@, reachable@, explored@) == relax(s1, nt, ncost as int, nway, list@, j as nat),
            decreases list@.len() - j,
        {
            let ghost sj = state_of(costs@, paths@, reachable@, explored@);
            let a = list[j];
            proof {
                lemma_tpos32(a);
                assert(steps_to(v, pt(node), tile_pos(a)));
            }
            let ap: (u32, u32) = ((a.0 as u32) * TILE_SIZE, (a.1 as u32) * TILE_SIZE);
            assert(ap == tpos32(a));
            if !contains_pos(&explored, ap) {
                let ghost rb = reachable@;
                if !contains_pos(&reachable, ap) {
                    reachable.push(ap);
                    proof {
                        assert(reachable@[rb.len() as int] == ap);
                        lemma_reach_step(v, pt(start), pt(node), pt(ap));
                        assert forall|q: int| 0 <= q < reachable@.len() implies search_point(start, #[trigger] reachable@[q])
                            && !explored@.contains(reachable@[q]) && reaches(v, pt(start), pt(reachable@[q])) by {
                            if q < rb.len() {
                                assert(reachable@[q] == rb[q]);
                            }
                        }
                        assert forall|x: int, y: int| 0 <= x < y < reachable@.len() implies reachable@[x] != reachable@[y] by {
                            if y == rb.len() {
                                assert(rb.contains(rb[x]));
                            }
                        }
                    }
                }
                proof {
                    assert forall|p: (u32, u32)| rb.contains(p) implies reachable@.contains(p) by {
                        let x = choose|x: int| 0 <= x < rb.len() && rb[x] == p;
                        assert(reachable@[x] == p);
                    }
                    assert(reachable@.contains(ap));
                }
                let ai = (a.0 as usize) * FIELD_SIZE + (a.1 as usize);
                proof {
                    lemma_fidx(a, nt);
                    lemma_fidx(a, st);
                }
                if ncost + 1 < costs[ai] {
                    let nw = extend_way(&paths[(nt.0 as usize) * FIELD_SIZE + (nt.1 as usize)], nt);
                    let ghost pb = paths@;
                    proof {
                        assert(a != nt);
                        assert(a != st);
                        if nway.len() == 0 {
                            assert(nt == st);
                        } else {
                            assert(nway[0] == st);
                        }
                        if nway.len() == 0 {
                            assert(nway.push(nt) =~= seq![nt]);
                            assert(chain_ok(v, pt(start), seq![nt])) by {
                                assert forall|x: int| 1 <= x < seq![nt].len() implies #[trigger] chain_step(v, pt(start), seq![nt], x) by {}
                            }
                            if node == start {
                                assert(nt == tile_of(pt(start)));
                                lemma_chain_push(v, pt(start), nway.push(nt), a, pt(node));
                            } else {
                                lemma_chain_push(v, pt(start), nway.push(nt), a, pt(node));
                            }
                        } else {
                            assert(node != start);
                            assert(nway.push(nt).last() == nt);
                            lemma_chain_push(v, pt(start), nway.push(nt), a, pt(node));
                        }
                    }
                    paths.set(ai, nw);
                    costs.set(ai, ncost + 1);
                    proof {
                        assert(ways_of(paths@) =~= ways_of(pb).update(ai as int, nway.push(nt)));
                        assert forall|t: (u16, u16)| in_field(t) implies (#[trigger] way(paths@, t)).len() == 0
                            || chain_ok(v, pt(start), way(paths@, t).push(t)) by {
                            lemma_fidx(t, a);
                            if t != a {
                                assert(way(paths@, t) == way(pb, t));
                            } else {
                                assert(way(paths@, t) == nway.push(nt));
                            }
                        }
                        assert forall|t: (u16, u16)| in_field(t) && t != tile_of(pt(start)) implies ((#[trigger] way(paths@, t)).len()
                            == 0 <==> costs@[fidx(t)] == 255) by {
                            lemma_fidx(t, a);
                            if t != a {
                                assert(way(paths@, t) == way(pb, t));
                            }
                        }
                        assert forall|t: (u16, u16)| in_field(t) && (#[trigger] way(paths@, t)).len() > 0 implies way(paths@, t)[0]
                            == tile_of(pt(start)) by {
                            lemma_fidx(t, a);
                            if t != a {
                                assert(way(paths@, t) == way(pb, t));
                            } else {
                                assert(way(paths@, t) == nway.push(nt));
                            }
                        }
                        lemma_fidx(st, a);
                        assert(way(paths@, st) == way(pb, st));
                        assert(way(paths@, nt) == way(pb, nt));
                        assert forall|q: int| 0 <= q < costs@.len() implies costs@[q] <= 255 by {}
                    }
                }
            }
            proof {
                assert(explored@.contains(tpos32(list@[j as int])) || reachable@.contains(tpos32(list@[j as int])));
                assert(state_of(costs@, paths@, reachable@, explored@) =~= relax(s1, nt, ncost as int, nway, list@, (j + 1) as nat));
            }
            j = j + 1;
        }
        proof {
            assert(closed_upto(v, reachable@, explored@, explored@.len() as int)) by {
                assert forall|kk: int, jj: int|
                    0 <= kk < explored@.len() && 0 <= jj < v.next_tiles(pt(explored@[kk])).len() implies explored@.contains(
                    tpos32(#[trigger] v.next_tiles(pt(explored@[kk]))[jj]),
                ) || reachable@.contains(tpos32(v.next_tiles(pt(explored@[kk]))[jj])) by {
                    if kk == n_expl - 1 {
                        assert(v.next_tiles(pt(explored@[kk]))[jj] == list@[jj]);
                    }
                }
            }
        }
        proof {
            assert(search_from(v, s_cur, goal, (1025 - it) as nat) == search_from(
                v,
                relax(s1, nt, ncost as int, nway, list@, list@.len()),
                goal,
                (1025 - (it + 1)) as nat,
            ));
            it = it + 1;
        }
    }
    proof {
        if reaches(v, pt(start), pt(goal)) {
            let w = choose|w: Seq<(int, int)>| #[trigger] is_walk(v, w) && w[0] == pt(start) && w.last() == pt(goal);
            let set = |p: (int, int)| exists|x: int| 0 <= x < explored@.len() && pt(explored@[x]) == p;
            assert(explored@.contains(start));
            assert(set(pt(start))) by {
                let x = choose|x: int| 0 <= x < explored@.len() && explored@[x] == start;
                assert(pt(explored@[x]) == pt(start));
            }
            assert forall|p: (int, int), q: (int, int)| set(p) && #[trigger] steps_to(v, p, q) implies set(q) by {
                let x = choose|x: int| 0 <= x < explored@.len() && pt(explored@[x]) == p;
                let jj = choose|jj: int| 0 <= jj < v.next_tiles(p).len() && tile_pos(#[trigger] v.next_tiles(p)[jj]) == q;
                lemma_next_in_field(v, p);
                let t = v.next_tiles(pt(explored@[x]))[jj];
                lemma_tpos32(t);
                assert(explored@.contains(tpos32(t)) || reachable@.contains(tpos32(t)));
                assert(explored@.contains(tpos32(t)));
                let y = choose|y: int| 0 <= y < explored@.len() && explored@[y] == tpos32(t);
                assert(pt(explored@[y]) == q);
            }
            lemma_closed_holds_walks(v, pt(start), set, w, w.len() - 1);
            let x = choose|x: int| 0 <= x < explored@.len() && pt(explored@[x]) == pt(goal);
            assert(explored@[x] == goal);
        }
    }
    None
}

// ---------------------------------------------------------------------
// Teleporting mobs
// ---------------------------------------------------------------------

/// A tile the teleport search treats as missing from the graph.
pub open spec fn unknown_tile(v: GraphView, t: (int, int)) -> bool {
    !v.has_key((t.0 as u16, t.1 as u16)) || (t.0 == u16::MAX && t.1 == u16::MAX)
}

/// One step from `c` towards `k` on one axis.
pub open spec fn toward(c: int, k: int) -> int {
    if c < k {
        c + 1
    } else if c > k {
        c - 1
    } else {
        c
    }
}

/// Whether the straight walk from `cur` back to `k` gets there: each step
/// goes one tile towards `k` on both axes that still differ (the move the
/// distance test picks), and stops where the tile it goes to, or on a
/// diagonal step the tile beside it on the first axis, is missing.
pub open spec fn walk_home(v: GraphView, cur: (int, int), k: (int, int)) -> bool
    decreases (if cur.0 >= k.0 { cur.0 - k.0 } else { k.0 - cur.0 }) + (if cur.1 >= k.1 { cur.1 - k.1 } else { k.1 - cur.1 }),
{
    if cur == k {
        true
    } else {
        let next = (toward(cur.0, k.0), toward(cur.1, k.1));
        let diagonal = cur.0 != k.0 && cur.1 != k.1;
        if diagonal && (unknown_tile(v, (next.0, cur.1)) || unknown_tile(v, next)) {
            false
        } else if unknown_tile(v, next) {
            false
        } else {
            walk_home(v, next, k)
        }
    }
}

/// The tile one step from `cur` towards `k` (on both axes that differ).
pub open spec fn step_home(cur: (int, int), k: (int, int)) -> (int, int) {
    (toward(cur.0, k.0), toward(cur.1, k.1))
}

/// The tile reached after `j` steps from `cur` towards `k`.
pub open spec fn home_point(cur: (int, int), k: (int, int), j: nat) -> (int, int)
    decreases j,
{
    if j == 0 {
        cur
    } else {
        step_home(home_point(cur, k, (j - 1) as nat), k)
    }
}

/// How many steps the walk from `cur` to `k` takes: the larger of the two
/// distances along the axes.
pub open spec fn home_steps(cur: (int, int), k: (int, int)) -> nat {
    let dx = if cur.0 >= k.0 { cur.0 - k.0 } else { k.0 - cur.0 };
    let dy = if cur.1 >= k.1 { cur.1 - k.1 } else { k.1 - cur.1 };
    (if dx >= dy { dx } else { dy }) as nat
}

/// The step from `p` towards `k` is clear: the tile it goes to is in the
/// graph and, on a diagonal step, so is the tile beside it on the first
/// axis, so that the step cuts no wall corner.
pub open spec fn clear_step(v: GraphView, p: (int, int), k: (int, int)) -> bool {
    let n = step_home(p, k);
    &&& !unknown_tile(v, n)
    &&& (p.0 != k.0 && p.1 != k.1 ==> !unknown_tile(v, (n.0, p.1)))
}

proof fn lemma_home_point_shift(cur: (int, int), k: (int, int), j: nat)
    ensures
        home_point(cur, k, j + 1) == home_point(step_home(cur, k), k, j),
    decreases j,
{
    if j > 0 {
        lemma_home_point_shift(cur, k, (j - 1) as nat);
        assert(home_point(cur, k, j + 1) == step_home(home_point(cur, k, j), k));
        assert(home_point(step_home(cur, k), k, j) == step_home(home_point(step_home(cur, k), k, (j - 1) as nat), k));
    } else {
        assert(home_point(cur, k, 1) == step_home(home_point(cur, k, 0), k));
    }
}

/// The walk home from `cur` to `k` succeeds exactly when every one of its
/// steps is clear: each tile it goes to is in the graph, and no diagonal
/// step passes beside a missing tile.
pub proof fn lemma_walk_home_clear(v: GraphView, cur: (int, int), k: (int, int))
    ensures
        walk_home(v, cur, k) <==> forall|j: nat| j < home_steps(cur, k) ==> #[trigger] clear_step(v, home_point(cur, k, j), k),
    decreases (if cur.0 >= k.0 { cur.0 - k.0 } else { k.0 - cur.0 }) + (if cur.1 >= k.1 { cur.1 - k.1 } else { k.1 - cur.1 }),
{
    if cur != k {
        let next = step_home(cur, k);
        lemma_walk_home_clear(v, next, k);
        assert(home_steps(next, k) + 1 == home_steps(cur, k));
        assert(home_point(cur, k, 0) == cur);
        assert(walk_home(v, cur, k) == (clear_step(v, cur, k) && walk_home(v, next, k)));
        if walk_home(v, cur, k) {
            assert forall|j: nat| j < home_steps(cur, k) implies #[trigger] clear_step(v, home_point(cur, k, j), k) by {
                if j > 0 {
                    lemma_home_point_shift(cur, k, (j - 1) as nat);
                    assert(clear_step(v, home_point(next, k, (j - 1) as nat), k));
                }
            }
        }
        if forall|j: nat| j < home_steps(cur, k) ==> #[trigger] clear_step(v, home_point(cur, k, j), k) {
            assert(clear_step(v, home_point(cur, k, 0), k));
            assert forall|j: nat| j < home_steps(next, k) implies #[trigger] clear_step(v, home_point(next, k, j), k) by {
                lemma_home_point_shift(cur, k, j);
                assert(clear_step(v, home_point(cur, k, j + 1), k));
            }
        }
    }
}

/// First row or column of the square searched around `k` (clipped to the
/// room at 0).
pub open spec fn box_lo(k: int, n: int) -> int {
    if n > k { 0 } else { k - n }
}

/// One past the last row or column of the square searched around `k`
/// (clipped to the room at `FIELD_SIZE`).
pub open spec fn box_hi(k: int, n: int) -> int {
    if n + k + 1 > FIELD_SIZE { FIELD_SIZE as int } else { k + n + 1 }
}

/// Tile `t` lies in the square of half-side `n` around `k`.
pub open spec fn in_box(k: (u16, u16), n: u8, t: (int, int)) -> bool {
    box_lo(k.0 as int, n as int) <= t.0 < box_hi(k.0 as int, n as int) && box_lo(k.1 as int, n as int) <= t.1
        < box_hi(k.1 as int, n as int)
}

/// A tile a mob can teleport to: on the edge of the square, a free floor of
/// the mob map, with a clear walk back to `k`.
pub open spec fn teleport_spot(v: GraphView, m: Seq<Seq<crate::mob_map::MapCell>>, k: (u16, u16), n: u8, t: (int, int)) -> bool {
    &&& in_box(k, n, t)
    &&& (t.0 == box_lo(k.0 as int, n as int) || t.0 == box_hi(k.0 as int, n as int) - 1 || t.1 == box_lo(
        k.1 as int,
        n as int,
    ) || t.1 == box_hi(k.1 as int, n as int) - 1)
    &&& free_floor(m, t)
    &&& walk_home(v, t, (k.0 as int, k.1 as int))
}

/// Tile `a` comes before tile `b` in the search: by column, then by row.
pub open spec fn scanned_before(a: (int, int), b: (int, int)) -> bool {
    a.0 < b.0 || (a.0 == b.0 && a.1 < b.1)
}

/// Walks from `cur` back to `k` as the teleport search does.
fn walk_home_exec(graph: &Graph, cur: (u16, u16), k: (u16, u16)) -> (b: bool)
    requires
        graph@.wf(),
    ensures
        b == walk_home(graph@, (cur.0 as int, cur.1 as int), (k.0 as int, k.1 as int)),
{
    let mut c = cur;
    while !(c.0 == k.0 && c.1 == k.1)
        invariant
            graph@.wf(),
            walk_home(graph@, (cur.0 as int, cur.1 as int), (k.0 as int, k.1 as int)) == walk_home(
                graph@,
                (c.0 as int, c.1 as int),
                (k.0 as int, k.1 as int),
            ),
        decreases (if c.0 >= k.0 { c.0 - k.0 } else { k.0 - c.0 }) + (if c.1 >= k.1 { c.1 - k.1 } else { k.1 - c.1 }),
    {
        let nx: u16 = if c.0 < k.0 { c.0 + 1 } else if c.0 > k.0 { c.0 - 1 } else { c.0 };
        let ny: u16 = if c.1 < k.1 { c.1 + 1 } else if c.1 > k.1 { c.1 - 1 } else { c.1 };
        let diagonal = c.0 != k.0 && c.1 != k.1;
        if diagonal && (graph.tile_unknown((nx, c.1)) || graph.tile_unknown((nx, ny))) {
            return false;
        }
        if graph.tile_unknown((nx, ny)) {
            return false;
        }
        c = (nx, ny);
    }
    true
}

/// Where a teleporting mob goes: the
/// first tile, column by column and row by row, on the edge of the square
/// of half-side `amount` around the player's tile (clipped to the room)
/// that is a free floor of the mob map with a clear walk back to the
/// player's tile; `None` when there is none.
pub fn teleport_target(graph: &Graph, map: &MobMap, player: (u32, u32), amount: u8) -> (r: Option<(u16, u16)>)
    requires
        graph@.wf(),
        fits_field(graph@),
    ensures
        ({
            let k = graph@.nearest(pt(player));
            match r {
                Some(t) => teleport_spot(graph@, map.view_cells(), k, amount, (t.0 as int, t.1 as int))
                    && forall|u: (int, int)| #[trigger] scanned_before(u, (t.0 as int, t.1 as int)) && in_box(k, amount, u)
                        ==> !teleport_spot(graph@, map.view_cells(), k, amount, u),
                None => forall|u: (int, int)| in_box(k, amount, u) ==> !#[trigger] teleport_spot(graph@, map.view_cells(), k, amount, u),
            }
        }),
        ({
            let k = graph@.nearest(pt(player));
            r matches Some(t) ==> forall|j: nat| j < home_steps((t.0 as int, t.1 as int), (k.0 as int, k.1 as int))
                ==> #[trigger] clear_step(graph@, home_point((t.0 as int, t.1 as int), (k.0 as int, k.1 as int), j), (k.0 as int, k.1 as int))
        }),
{
    let k = graph.safe_get_pos(player);
    proof {
        let v = graph@;
        lemma_best_key(v.keys, pt(player), v.keys.len() as int);
        let b = best_key(v.keys, pt(player), v.keys.len() as int);
        if b.0 >= 0 {
            assert(v.lists[b.0][0] == v.keys[b.0]);
            assert(in_field(v.lists[b.0][0]));
        }
    }
    let n = amount as u16;
    let mut padding_i: u16 = 0;
    let mut padding_j: u16 = 0;
    let mut padding_i_upper: u16 = 0;
    let mut padding_j_upper: u16 = 0;
    if n > k.0 {
        padding_i = n - k.0;
    }
    if n > k.1 {
        padding_j = n - k.1;
    }
    if n + k.0 + 1 > FIELD_SIZE as u16 {
        padding_i_upper = n + k.0 + 1 - FIELD_SIZE as u16;
    }
    if n + k.1 + 1 > FIELD_SIZE as u16 {
        padding_j_upper = n + k.1 + 1 - FIELD_SIZE as u16;
    }
    let lo_i = k.0 + padding_i - n;
    let hi_i = k.0 + n + 1 - padding_i_upper;
    let lo_j = k.1 + padding_j - n;
    let hi_j = k.1 + n + 1 - padding_j_upper;
    assert(lo_i == box_lo(k.0 as int, n as int) && hi_i == box_hi(k.0 as int, n as int));
    assert(lo_j == box_lo(k.1 as int, n as int) && hi_j == box_hi(k.1 as int, n as int));
    let mut i = lo_i;
    while i < hi_i
        invariant
            graph@.wf(),
            k == graph@.nearest(pt(player)),
            lo_i == box_lo(k.0 as int, amount as int),
            hi_i == box_hi(k.0 as int, amount as int),
            lo_j == box_lo(k.1 as int, amount as int),
            hi_j == box_hi(k.1 as int, amount as int),
            lo_i <= i,
            lo_i <= hi_i ==> i <= hi_i,
            forall|u: (int, int)| in_box(k, amount, u) && u.0 < i ==> !#[trigger] teleport_spot(graph@, map.view_cells(), k, amount, u),
        decreases hi_i - i,
    {
        let mut j = lo_j;
        while j < hi_j
            invariant
                graph@.wf(),
                k == graph@.nearest(pt(player)),
                lo_i == box_lo(k.0 as int, amount as int),
                hi_i == box_hi(k.0 as int, amount as int),
                lo_j == box_lo(k.1 as int, amount as int),
                hi_j == box_hi(k.1 as int, amount as int),
                lo_i <= i < hi_i,
                lo_j <= j,
                lo_j <= hi_j ==> j <= hi_j,
                forall|u: (int, int)| in_box(k, amount, u) && (u.0 < i || (u.0 == i && u.1 < j)) ==> !#[trigger] teleport_spot(graph@, map.view_cells(), k, amount, u),
            decreases hi_j - j,
        {
            if (i == lo_i || i == hi_i - 1 || j == lo_j || j == hi_j - 1) && map.is_free_floor((i, j))
                && walk_home_exec(graph, (i, j), k) {
                assert(teleport_spot(graph@, map.view_cells(), k, amount, (i as int, j as int)));
                proof {
                    lemma_walk_home_clear(graph@, (i as int, j as int), (k.0 as int, k.1 as int));
                }
                return Some((i, j));
            }
            j = j + 1;
        }
        i = i + 1;
    }
    None
}

} // verus!
