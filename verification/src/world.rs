use vstd::prelude::*;

verus! {

/// Side of the square map, in tiles; each tile is as many world units wide.
pub const ROOM_SIZE: i32 = 32;

/// The states the game moves through.
#[derive(Clone, Copy, Debug, PartialEq, Eq, Structural)]
pub enum GameState {
    MainMenu,
    InGame,
    Settings,
    Loading,
    GameOver,
    Hub,
    LoadingBoss,
}

/// Where touching a portal leads: from a level to the hub, from the hub to
/// the loading of the next level; elsewhere portals lead nowhere.
pub open spec fn portal_destination_spec(s: GameState) -> Option<GameState> {
    match s {
        GameState::InGame => Some(GameState::Hub),
        GameState::Hub => Some(GameState::Loading),
        _ => None,
    }
}

/// The state the game moves to when the player touches a portal.
pub fn portal_destination(s: GameState) -> (r: Option<GameState>)
    ensures
        r == portal_destination_spec(s),
{
    match s {
        GameState::InGame => Some(GameState::Hub),
        GameState::Hub => Some(GameState::Loading),
        _ => None,
    }
}

/// Counts the hostile mobs of a level and remembers where the last one
/// fell, which is where the exit portal opens.
pub struct PortalManager<P> {
    pub position: P,
    pub mobs: u32,
}

impl<P: Copy> PortalManager<P> {
    /// A manager at `origin` with no mobs counted.
    pub fn new(origin: P) -> (m: PortalManager<P>)
        ensures
            m.position == origin,
            m.mobs == 0,
    {
        PortalManager { position: origin, mobs: 0 }
    }

    /// Where the portal opens.
    pub fn get_pos(&self) -> (p: P)
        ensures
            p == self.position,
    {
        self.position
    }

    /// Remembers where a mob fell.
    pub fn set_pos(&mut self, pos: P)
        ensures
            final(self).position == pos,
            final(self).mobs == old(self).mobs,
    {
        self.position = pos;
    }

    /// Sets the number of hostile mobs on the level.
    pub fn set_mobs(&mut self, value: u32)
        ensures
            final(self).mobs == value,
            final(self).position == old(self).position,
    {
        self.mobs = value;
    }

    /// Counts one more hostile mob.
    pub fn push_mob(&mut self)
        requires
            old(self).mobs < u32::MAX,
        ensures
            final(self).mobs == old(self).mobs + 1,
            final(self).position == old(self).position,
    {
        self.mobs = self.mobs + 1;
    }

    /// Counts one hostile mob fewer.
    pub fn pop_mob(&mut self)
        requires
            old(self).mobs > 0,
        ensures
            final(self).mobs == old(self).mobs - 1,
            final(self).position == old(self).position,
    {
        self.mobs = self.mobs - 1;
    }

    /// Whether the level is cleared.
    pub fn no_mobs_on_level(&self) -> (r: bool)
        ensures
            r == (self.mobs == 0),
    {
        self.mobs <= 0
    }

    /// A hostile mob died at `pos` (spawned minions do not count): the
    /// position is remembered, the count drops, and the portal opens when the
    /// level is cleared. Returns whether the portal opens.
    pub fn mob_died(&mut self, pos: P, was_spawned: bool) -> (open_portal: bool)
        requires
            !was_spawned ==> old(self).mobs > 0,
        ensures
            final(self).position == pos,
            final(self).mobs == (if was_spawned { old(self).mobs as int } else { old(self).mobs - 1 }),
            open_portal == (!was_spawned && final(self).mobs == 0),
    {
        self.set_pos(pos);
        if !was_spawned {
            self.pop_mob();
        }
        !was_spawned && self.no_mobs_on_level()
    }
}

/// The chapter and level the player is on.
pub struct ChapterManager {
    current_level: u8,
    current_chapter: u8,
    max_chapter: u8,
}

impl ChapterManager {
    /// Levels stay within the two of a chapter and chapters within the last.
    #[verifier::type_invariant]
    spec fn inv(self) -> bool {
        &&& 1 <= self.current_level <= 2
        &&& 1 <= self.current_chapter <= self.max_chapter
    }

    pub closed spec fn level_spec(self) -> u8 {
        self.current_level
    }

    pub closed spec fn chapter_spec(self) -> u8 {
        self.current_chapter
    }

    pub closed spec fn max_chapter_spec(self) -> u8 {
        self.max_chapter
    }

    /// A new run: first level of the first of two chapters.
    pub fn new() -> (m: ChapterManager)
        ensures
            m.level_spec() == 1,
            m.chapter_spec() == 1,
            m.max_chapter_spec() == 2,
    {
        ChapterManager { current_level: 1, current_chapter: 1, max_chapter: 2 }
    }

    /// The current chapter.
    pub fn get_current_chapter(&self) -> (c: u8)
        ensures
            c == self.chapter_spec(),
            1 <= c <= self.max_chapter_spec(),
    {
        proof {
            use_type_invariant(self);
        }
        self.current_chapter
    }

    /// The current level within the chapter.
    pub fn get_current_level(&self) -> (l: u8)
        ensures
            l == self.level_spec(),
            1 <= l <= 2,
    {
        proof {
            use_type_invariant(self);
        }
        self.current_level
    }

    /// A level is left: the next level of the chapter follows, and after the
    /// second level the first level of the next chapter (the last chapter
    /// repeats). Returns the new chapter when it changed.
    pub fn advance(&mut self) -> (new_chapter: Option<u8>)
        ensures
            final(self).max_chapter_spec() == old(self).max_chapter_spec(),
            old(self).level_spec() == 1 ==> final(self).level_spec() == 2 && final(self).chapter_spec()
                == old(self).chapter_spec() && new_chapter is None,
            old(self).level_spec() == 2 ==> final(self).level_spec() == 1,
            old(self).level_spec() == 2 && old(self).chapter_spec() < old(self).max_chapter_spec()
                ==> final(self).chapter_spec() == old(self).chapter_spec() + 1 && new_chapter == Some(
                final(self).chapter_spec(),
            ),
            old(self).level_spec() == 2 && old(self).chapter_spec() >= old(self).max_chapter_spec()
                ==> final(self).chapter_spec() == old(self).chapter_spec() && new_chapter is None,
    {
        proof {
            use_type_invariant(&*self);
        }
        let level = self.current_level + 1;
        if level > 2 {
            if self.max_chapter > self.current_chapter {
                let chapter = self.current_chapter + 1;
                *self = ChapterManager { current_level: 1, current_chapter: chapter, max_chapter: self.max_chapter };
                Some(chapter)
            } else {
                *self = ChapterManager { current_level: 1, current_chapter: self.current_chapter, max_chapter: self.max_chapter };
                None
            }
        } else {
            *self = ChapterManager { current_level: level, current_chapter: self.current_chapter, max_chapter: self.max_chapter };
            None
        }
    }
}

/// What stands on a tile of a walled square room (the hub, the boss room).
#[derive(Clone, Copy, Debug, PartialEq, Eq, Structural)]
pub enum RoomTile {
    Wall,
    WallTop,
    Floor,
    ShadowedFloor,
}

/// The tile at `(x, y)` of the square room spanning `lower..=upper`: the
/// border is wall, with a top face along the inner part of the upper row;
/// the floor row just below the upper wall lies in its shadow.
pub open spec fn room_tile_spec(x: int, y: int, lower: int, upper: int) -> RoomTile {
    if x == lower || x == upper || y == lower || y == upper {
        if y > lower && y == upper && lower < x && x < upper {
            RoomTile::WallTop
        } else {
            RoomTile::Wall
        }
    } else if y == upper - 1 {
        RoomTile::ShadowedFloor
    } else {
        RoomTile::Floor
    }
}

/// The tile at `(x, y)` of the square room spanning `lower..=upper`.
pub fn room_tile(x: i32, y: i32, lower: i32, upper: i32) -> (t: RoomTile)
    requires
        upper > i32::MIN,
    ensures
        t == room_tile_spec(x as int, y as int, lower as int, upper as int),
{
    if x == lower || x == upper || y == lower || y == upper {
        if y > lower {
            if y == upper && lower < x && x < upper {
                RoomTile::WallTop
            } else {
                RoomTile::Wall
            }
        } else {
            RoomTile::Wall
        }
    } else if y == upper - 1 {
        RoomTile::ShadowedFloor
    } else {
        RoomTile::Floor
    }
}

/// The span of the hub: eight tiles around the map's centre.
pub fn hub_bounds() -> (r: (i32, i32))
    ensures
        r.0 == ROOM_SIZE / 2 - 4,
        r.1 == ROOM_SIZE / 2 + 4,
{
    (ROOM_SIZE / 2 - 4, ROOM_SIZE / 2 + 4)
}

/// The span of the boss room: sixteen tiles around the map's centre.
pub fn boss_room_bounds() -> (r: (i32, i32))
    ensures
        r.0 == ROOM_SIZE / 2 - 8,
        r.1 == ROOM_SIZE / 2 + 8,
{
    (ROOM_SIZE / 2 - 8, ROOM_SIZE / 2 + 8)
}

/// Tiles of the hub's row of offered items: every other column from two
/// tiles inside the left wall to two tiles inside the right one, three rows
/// below the upper wall.
pub fn hub_item_slots(lower: i32, upper: i32) -> (r: Vec<(i32, i32)>)
    requires
        -1_000_000 <= lower <= upper <= 1_000_000,
    ensures
        lower + 2 + 2 * r@.len() > upper - 2,
        r@.len() > 0 ==> lower + 2 + 2 * (r@.len() - 1) <= upper - 2,
        forall|k: int| 0 <= k < r@.len() ==> #[trigger] r@[k] == ((lower + 2 + 2 * k) as i32, (upper - 3) as i32),
{
    let mut r: Vec<(i32, i32)> = Vec::new();
    let mut i = lower + 2;
    while i <= upper - 2
        invariant
            -1_000_000 <= lower <= upper <= 1_000_000,
            i == lower + 2 + 2 * r@.len(),
            r@.len() > 0 ==> lower + 2 + 2 * (r@.len() - 1) <= upper - 2,
            i <= upper + 2,
            forall|k: int| 0 <= k < r@.len() ==> #[trigger] r@[k] == ((lower + 2 + 2 * k) as i32, (upper - 3) as i32),
        decreases upper - i,
    {
        r.push((i, upper - 3));
        i = i + 2;
    }
    r
}

/// The tile of the hub's exit portal: the lower right inner corner.
pub fn hub_portal_tile(lower: i32, upper: i32) -> (r: (i32, i32))
    requires
        lower < i32::MAX,
        upper > i32::MIN,
    ensures
        r == ((upper - 1) as i32, (lower + 1) as i32),
{
    (upper - 1, lower + 1)
}

/// The next frame of a looping animation: after the last frame the first.
pub fn next_frame(index: usize, first: usize, last: usize) -> (r: usize)
    requires
        index < usize::MAX,
    ensures
        r == (if index == last { first as int } else { index + 1 }),
        first <= index <= last ==> first <= r <= last,
{
    if index == last {
        first
    } else {
        index + 1
    }
}

/// The orbs that burst from a drop of experience: they fly out at angle
/// steps from `-(n / 2)` to `(n + 1) / 2 - 1` around the drop's direction, one
/// per orb. Returns the first step and one past the last.
pub fn orb_spread(orbs: u32, bonus: u32) -> (r: (i32, i32))
    requires
        orbs + bonus <= 0x100_0000,
    ensures
        r.0 == -((orbs + bonus) / 2),
        r.1 == (orbs + bonus + 1) / 2,
        r.1 - r.0 == orbs + bonus,
{
    let n = (orbs + bonus) as i32;
    (-(n / 2), (n + 1) / 2)
}

/// The tags of a list of seen mobs.
pub open spec fn seen_tags(v: Seq<String>) -> Seq<Seq<char>> {
    v.map_values(|s: String| s@)
}

/// Records in the save file's seen mobs that the mob with the given tag was
/// seen: the tag is added at the end unless it is there already. Returns
/// whether it was added.
pub fn record_seen_mob(seen: &mut Vec<String>, tag: &str) -> (added: bool)
    ensures
        added == !seen_tags(old(seen)@).contains(tag@),
        seen_tags(final(seen)@) == (if added {
            seen_tags(old(seen)@).push(tag@)
        } else {
            seen_tags(old(seen)@)
        }),
{
    let owned = tag.to_owned();
    let mut i: usize = 0;
    while i < seen.len()
        invariant
            0 <= i <= seen@.len(),
            seen@ == old(seen)@,
            owned@ == tag@,
            forall|j: int| 0 <= j < i ==> (#[trigger] seen@[j])@ != tag@,
        decreases seen@.len() - i,
    {
        if seen[i] == owned {
            proof {
                assert(seen_tags(seen@)[i as int] == tag@);
            }
            return false;
        }
        i = i + 1;
    }
    proof {
        if seen_tags(seen@).contains(tag@) {
            let j = choose|j: int| 0 <= j < seen_tags(seen@).len() && seen_tags(seen@)[j] == tag@;
            assert(seen@[j]@ == tag@);
        }
    }
    seen.push(owned);
    proof {
        assert(seen_tags(seen@) =~= seen_tags(old(seen)@).push(tag@));
    }
    true
}

} // verus!
