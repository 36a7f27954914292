//! The dungeon: a fixed-size grid of tiles, carved into rooms joined by
//! corridors.

use crate::chance::{draw_in, flip_coin};
use vstd::prelude::*;

verus! {

/// Width of every map, in cells.
pub const MAP_WIDTH: usize = 72;

/// Height of every map, in cells.
pub const MAP_HEIGHT: usize = 17;

/// An axis-aligned rectangle of cells: columns `l .. l + w`, rows `t .. t + h`.
pub struct Rect {
    pub l: i32,
    pub t: i32,
    pub w: i32,
    pub h: i32,
}

impl Rect {
    /// The cell `(x, y)` lies in the rectangle.
    pub open spec fn contains(self, x: int, y: int) -> bool {
        self.l <= x < self.l + self.w && self.t <= y < self.t + self.h
    }

    /// The inclusive overlap test: rectangles that share a boundary row or
    /// column (or are one cell apart) count as intersecting.
    pub open spec fn intersects(self, other: Rect) -> bool {
        &&& self.l <= other.l + other.w
        &&& self.l + self.w >= other.l
        &&& self.t <= other.t + other.h
        &&& self.t + self.h >= other.t
    }

    /// The rectangle is non-empty and lies inside the map with a margin of
    /// at least one cell on every side.
    pub open spec fn inside_map(self) -> bool {
        &&& 0 < self.w && 0 < self.h
        &&& 1 <= self.l && self.l + self.w <= MAP_WIDTH - 2
        &&& 1 <= self.t && self.t + self.h <= MAP_HEIGHT - 2
    }

    pub open spec fn center_spec(self) -> (int, int) {
        (self.l + self.w / 2, self.t + self.h / 2)
    }

    pub fn new(l: i32, t: i32, w: i32, h: i32) -> (r: Rect)
        ensures
            r == (Rect { l, t, w, h }),
    {
        Rect { l, t, w, h }
    }

    /// Draws a rectangle with width in `min_width .. max_width` and height in
    /// `min_height .. max_height`, placed uniformly inside the map's margin.
    pub fn random(
        min_width: i32,
        max_width: i32,
        min_height: i32,
        max_height: i32,
        rng: &mut rand::rngs::ThreadRng,
    ) -> (r: Rect)
        requires
            1 <= min_width < max_width <= MAP_WIDTH - 2,
            1 <= min_height < max_height <= MAP_HEIGHT - 2,
        ensures
            r.inside_map(),
            min_width <= r.w < max_width,
            min_height <= r.h < max_height,
    {
        let w = draw_in(rng, min_width, max_width);
        let h = draw_in(rng, min_height, max_height);
        let l = draw_in(rng, 1, MAP_WIDTH as i32 - w - 1);
        let t = draw_in(rng, 1, MAP_HEIGHT as i32 - h - 1);
        Rect { l, t, w, h }
    }

    /// The center cell, rounding toward the top-left.
    pub fn center(&self) -> (r: (i32, i32))
        requires
            0 < self.w && 0 < self.h,
            self.center_spec().0 <= i32::MAX,
            self.center_spec().1 <= i32::MAX,
        ensures
            r.0 == self.center_spec().0,
            r.1 == self.center_spec().1,
    {
        let cx = self.l + self.w / 2;
        let cy = self.t + self.h / 2;
        (cx, cy)
    }

    pub fn intersect(&self, other: &Rect) -> (r: bool)
        ensures
            r == self.intersects(*other),
    {
        let (l1, t1, w1, h1) = (self.l as i64, self.t as i64, self.w as i64, self.h as i64);
        let (l2, t2, w2, h2) = (other.l as i64, other.t as i64, other.w as i64, other.h as i64);
        l1 <= l2 + w2 && l1 + w1 >= l2 && t1 <= t2 + h2 && t1 + h1 >= t2
    }
}


/// Lowest room count that generation aims for.
pub const MIN_ROOMS: i32 = 3;

/// Highest room count that generation aims for.
pub const MAX_ROOMS: i32 = 9;

/// How many candidate rooms generation draws at most.
pub const ROOM_ATTEMPTS: usize = 100;

/// Room widths are drawn from `MIN_ROOM_WIDTH .. MAX_ROOM_WIDTH`.
pub const MIN_ROOM_WIDTH: i32 = 5;

pub const MAX_ROOM_WIDTH: i32 = 13;

/// Room heights are drawn from `MIN_ROOM_HEIGHT .. MAX_ROOM_HEIGHT`.
pub const MIN_ROOM_HEIGHT: i32 = 3;

pub const MAX_ROOM_HEIGHT: i32 = 9;

/// The cell `(x, y)` lies on the map.
pub open spec fn in_map(x: int, y: int) -> bool {
    0 <= x < MAP_WIDTH && 0 <= y < MAP_HEIGHT
}

/// Row-major position of the cell `(x, y)` in a map's tile vector.
pub open spec fn cell_index(x: int, y: int) -> int {
    y * MAP_WIDTH + x
}

pub open spec fn dist(a: int, b: int) -> int {
    if a <= b {
        b - a
    } else {
        a - b
    }
}

/// Number of unit steps between two cells when moving along one axis at a time.
pub open spec fn manhattan(a: (int, int), b: (int, int)) -> int {
    dist(a.0, b.0) + dist(a.1, b.1)
}

/// Number of steps between two cells when diagonal moves are allowed.
pub open spec fn chebyshev(a: (int, int), b: (int, int)) -> int {
    if dist(a.0, b.0) >= dist(a.1, b.1) {
        dist(a.0, b.0)
    } else {
        dist(a.1, b.1)
    }
}

/// Two cells are side by side (they differ by one on exactly one axis).
pub open spec fn adjacent(a: (int, int), b: (int, int)) -> bool {
    manhattan(a, b) == 1
}

pub proof fn lemma_cell_index(x: int, y: int)
    requires
        in_map(x, y),
    ensures
        0 <= cell_index(x, y) < MAP_WIDTH * MAP_HEIGHT,
{
    assert(0 <= y * 72 <= 16 * 72) by (nonlinear_arith)
        requires
            0 <= y <= 16,
    ;
}

pub proof fn lemma_cell_index_injective(x1: int, y1: int, x2: int, y2: int)
    requires
        in_map(x1, y1),
        in_map(x2, y2),
        cell_index(x1, y1) == cell_index(x2, y2),
    ensures
        x1 == x2 && y1 == y2,
{
    assert(y1 == y2) by (nonlinear_arith)
        requires
            y1 * 72 + x1 == y2 * 72 + x2,
            0 <= x1 < 72,
            0 <= x2 < 72,
    ;
}

#[derive(Clone, Copy, Debug, PartialEq, Eq, Structural)]
pub enum TileType {
    Wall,
    Floor,
}

#[derive(Clone, Copy, Debug, PartialEq, Eq, Structural)]
pub struct Tile {
    pub tile_type: TileType,
}

/// A room accepted by generation.
pub struct Room {
    pub rect: Rect,
}

/// A `MAP_WIDTH` x `MAP_HEIGHT` grid of tiles, stored row by row, and the
/// rooms carved into it in the order they were accepted.
pub struct DungeonMap {
    pub tiles: Vec<Tile>,
    pub rooms: Vec<Room>,
}

/// Every cell that is floor in `a` is floor in `b`.
pub open spec fn floor_grows(a: DungeonMap, b: DungeonMap) -> bool {
    forall|x: int, y: int| #![trigger a.floor(x, y)] in_map(x, y) && a.floor(x, y) ==> b.floor(x, y)
}

impl DungeonMap {
    /// The cell `(x, y)` of the map is floor.
    pub open spec fn floor(self, x: int, y: int) -> bool {
        self.tiles@[cell_index(x, y)].tile_type == TileType::Floor
    }

    /// The grid has its fixed size and every room lies inside it.
    pub open spec fn wf(self) -> bool {
        &&& self.tiles@.len() == MAP_WIDTH * MAP_HEIGHT
        &&& forall|i: int| 0 <= i < self.rooms@.len() ==> (#[trigger] self.rooms@[i]).rect.inside_map()
    }

    /// Every cell inside a room is floor.
    pub open spec fn rooms_carved(self) -> bool {
        forall|i: int, x: int, y: int|
            0 <= i < self.rooms@.len() && (#[trigger] self.rooms@[i]).rect.contains(x, y) ==> #[trigger] self.floor(x, y)
    }

    /// No two rooms intersect, touching edges included.
    pub open spec fn rooms_apart(self) -> bool {
        forall|i: int, j: int|
            0 <= i < self.rooms@.len() && 0 <= j < self.rooms@.len() && i != j
                ==> !(#[trigger] self.rooms@[i]).rect.intersects((#[trigger] self.rooms@[j]).rect)
    }

    /// `path` walks from `from` to `to` in `manhattan(from, to)` side-by-side
    /// steps, over floor cells of the map only.
    pub open spec fn is_corridor(self, path: Seq<(int, int)>, from: (int, int), to: (int, int)) -> bool {
        &&& path.len() == manhattan(from, to) + 1
        &&& path[0] == from
        &&& path.last() == to
        &&& forall|k: int| 0 <= k < path.len() ==> in_map(#[trigger] path[k].0, path[k].1) && self.floor(path[k].0, path[k].1)
        &&& forall|k: int| 0 <= k < path.len() - 1 ==> adjacent(#[trigger] path[k], path[k + 1])
    }

    /// A corridor of floor leads from the center of room `k` to the center of room `k + 1`.
    pub open spec fn linked(self, k: int) -> bool {
        exists|path: Seq<(int, int)>|
            #[trigger] self.is_corridor(path, self.rooms@[k].rect.center_spec(), self.rooms@[k + 1].rect.center_spec())
    }

    /// Consecutive rooms, in acceptance order, are joined by corridors.
    pub open spec fn connected(self) -> bool {
        forall|k: int| 0 <= k < self.rooms@.len() - 1 ==> #[trigger] self.linked(k)
    }

    /// What generation guarantees of the map it leaves.
    pub open spec fn generated(self) -> bool {
        &&& self.wf()
        &&& 1 <= self.rooms@.len() <= MAX_ROOMS
        &&& self.rooms_carved()
        &&& self.rooms_apart()
        &&& self.connected()
    }

    /// An all-wall map without rooms.
    pub fn new() -> (r: DungeonMap)
        ensures
            r.wf(),
            r.rooms@.len() == 0,
            forall|x: int, y: int| in_map(x, y) ==> !#[trigger] r.floor(x, y),
    {
        let mut tiles: Vec<Tile> = Vec::new();
        let mut i: usize = 0;
        while i < MAP_WIDTH * MAP_HEIGHT
            invariant
                i <= MAP_WIDTH * MAP_HEIGHT,
                tiles@.len() == i,
                forall|j: int| 0 <= j < i ==> (#[trigger] tiles@[j]).tile_type == TileType::Wall,
            decreases MAP_WIDTH * MAP_HEIGHT - i,
        {
            tiles.push(Tile { tile_type: TileType::Wall });
            i += 1;
        }
        let r = DungeonMap { tiles, rooms: Vec::new() };
        assert forall|x: int, y: int| in_map(x, y) implies !#[trigger] r.floor(x, y) by {
            lemma_cell_index(x, y);
        }
        r
    }

    /// Turns the cell `(x, y)` into floor.
    fn make_floor(&mut self, x: i32, y: i32)
        requires
            old(self).wf(),
            in_map(x as int, y as int),
        ensures
            final(self).wf(),
            final(self).rooms == old(self).rooms,
            forall|px: int, py: int| #![trigger final(self).floor(px, py)]
                in_map(px, py) ==> (final(self).floor(px, py) <==> (old(self).floor(px, py) || (px == x && py == y))),
    {
        proof {
            lemma_cell_index(x as int, y as int);
        }
        let idx = y as usize * MAP_WIDTH + x as usize;
        self.tiles.set(idx, Tile { tile_type: TileType::Floor });
        assert forall|px: int, py: int| in_map(px, py) implies (self.floor(px, py) <==> (old(self).floor(px, py) || (px == x && py == y))) by {
            lemma_cell_index(px, py);
            if cell_index(px, py) == cell_index(x as int, y as int) {
                lemma_cell_index_injective(px, py, x as int, y as int);
            }
        }
    }

    /// Carves the whole rectangle of `room` to floor.
    pub fn create_room(&mut self, room: &Rect)
        requires
            old(self).wf(),
            room.inside_map(),
        ensures
            final(self).wf(),
            final(self).rooms == old(self).rooms,
            forall|x: int, y: int| #![trigger final(self).floor(x, y)]
                in_map(x, y) ==> (final(self).floor(x, y) <==> (old(self).floor(x, y) || room.contains(x, y))),
    {
        let mut y = room.t;
        while y < room.t + room.h
            invariant
                room.inside_map(),
                room.t <= y <= room.t + room.h,
                self.wf(),
                self.rooms == old(self).rooms,
                forall|px: int, py: int| #![trigger self.floor(px, py)]
                    in_map(px, py) ==> (self.floor(px, py) <==> (old(self).floor(px, py) || (room.contains(px, py) && py < y))),
            decreases room.t + room.h - y,
        {
            let mut x = room.l;
            while x < room.l + room.w
                invariant
                    room.inside_map(),
                    room.t <= y < room.t + room.h,
                    room.l <= x <= room.l + room.w,
                    self.wf(),
                    self.rooms == old(self).rooms,
                    forall|px: int, py: int| #![trigger self.floor(px, py)]
                        in_map(px, py) ==> (self.floor(px, py) <==> (old(self).floor(px, py)
                            || (room.contains(px, py) && (py < y || (py == y && px < x))))),
                decreases room.l + room.w - x,
            {
                self.make_floor(x, y);
                x += 1;
            }
            y += 1;
        }
    }

    /// Walks from `(x1, y1)` to `(x2, y2)` one cell at a time, carving each
    /// cell entered to floor. While both axes differ, a coin decides which
    /// one advances. Returns the cells visited, start included.
    fn carve_corridor(&mut self, x1: i32, y1: i32, x2: i32, y2: i32, rng: &mut rand::rngs::ThreadRng)
        -> (path: Ghost<Seq<(int, int)>>)
        requires
            old(self).wf(),
            in_map(x1 as int, y1 as int),
            in_map(x2 as int, y2 as int),
            old(self).floor(x1 as int, y1 as int),
        ensures
            final(self).wf(),
            final(self).rooms == old(self).rooms,
            floor_grows(*old(self), *final(self)),
            final(self).is_corridor(path@, (x1 as int, y1 as int), (x2 as int, y2 as int)),
    {
        let mut x = x1;
        let mut y = y1;
        let ghost mut path: Seq<(int, int)> = seq![(x1 as int, y1 as int)];
        while !(x == x2 && y == y2)
            invariant
                self.wf(),
                self.rooms == old(self).rooms,
                floor_grows(*old(self), *self),
                in_map(x1 as int, y1 as int),
                in_map(x2 as int, y2 as int),
                dist(x1 as int, x as int) + dist(x as int, x2 as int) == dist(x1 as int, x2 as int),
                dist(y1 as int, y as int) + dist(y as int, y2 as int) == dist(y1 as int, y2 as int),
                path.len() == manhattan((x1 as int, y1 as int), (x as int, y as int)) + 1,
                path[0] == (x1 as int, y1 as int),
                path.last() == (x as int, y as int),
                forall|k: int| 0 <= k < path.len() ==> in_map(#[trigger] path[k].0, path[k].1) && self.floor(path[k].0, path[k].1),
                forall|k: int| 0 <= k < path.len() - 1 ==> adjacent(#[trigger] path[k], path[k + 1]),
            decreases dist(x as int, x2 as int) + dist(y as int, y2 as int),
        {
            let along_x = if x != x2 && y != y2 {
                flip_coin(rng)
            } else {
                x != x2
            };
            if along_x {
                x = if x < x2 { x + 1 } else { x - 1 };
            } else {
                y = if y < y2 { y + 1 } else { y - 1 };
            }
            let ghost prev = *self;
            self.make_floor(x, y);
            proof {
                let old_path = path;
                path = path.push((x as int, y as int));
                assert forall|k: int| 0 <= k < path.len() implies in_map(#[trigger] path[k].0, path[k].1) && self.floor(path[k].0, path[k].1) by {
                    if k < old_path.len() {
                        assert(path[k] == old_path[k]);
                    }
                }
                assert forall|k: int| 0 <= k < path.len() - 1 implies adjacent(#[trigger] path[k], path[k + 1]) by {
                    if k < old_path.len() - 1 {
                        assert(path[k] == old_path[k] && path[k + 1] == old_path[k + 1]);
                    }
                }
            }
        }
        Ghost(path)
    }

    /// The rectangle intersects none of the map's rooms.
    fn clear_of(&self, room: &Rect) -> (r: bool)
        ensures
            r == forall|k: int| 0 <= k < self.rooms@.len() ==> !room.intersects(#[trigger] self.rooms@[k].rect),
    {
        let mut j: usize = 0;
        while j < self.rooms.len()
            invariant
                j <= self.rooms@.len(),
                forall|k: int| 0 <= k < j ==> !room.intersects(#[trigger] self.rooms@[k].rect),
            decreases self.rooms@.len() - j,
        {
            if room.intersect(&self.rooms[j].rect) {
                return false;
            }
            j += 1;
        }
        true
    }

    /// Fills the map with rooms and corridors. A room count is drawn from
    /// `MIN_ROOMS ..= MAX_ROOMS`; up to `ROOM_ATTEMPTS` candidates are drawn,
    /// each kept only when it intersects no room kept before, until the count
    /// is reached. Consecutive rooms are then joined by corridors. The first
    /// candidate is always kept, so the map has at least one room.
    pub fn generate(&mut self, rng: &mut rand::rngs::ThreadRng)
        requires
            old(self).wf(),
        ensures
            final(self).generated(),
            floor_grows(*old(self), *final(self)),
    {
        let room_count = draw_in(rng, MIN_ROOMS, MAX_ROOMS + 1);
        self.rooms = Vec::new();
        assert(floor_grows(*old(self), *self));
        let mut attempt: usize = 0;
        while attempt < ROOM_ATTEMPTS && self.rooms.len() < room_count as usize
            invariant
                MIN_ROOMS <= room_count <= MAX_ROOMS,
                attempt <= ROOM_ATTEMPTS,
                self.wf(),
                floor_grows(*old(self), *self),
                self.rooms_carved(),
                self.rooms_apart(),
                self.rooms@.len() <= room_count,
                attempt > 0 ==> self.rooms@.len() >= 1,
            decreases ROOM_ATTEMPTS - attempt,
        {
            let room = Rect::random(MIN_ROOM_WIDTH, MAX_ROOM_WIDTH, MIN_ROOM_HEIGHT, MAX_ROOM_HEIGHT, rng);
            let ok = self.clear_of(&room);
            if ok {
                let ghost prev = *self;
                self.create_room(&room);
                let ghost mid = *self;
                self.rooms.push(Room { rect: room });
                assert(self.tiles == mid.tiles);
                assert(self.rooms@[self.rooms@.len() - 1].rect == room);
                assert forall|x: int, y: int| #![trigger old(self).floor(x, y)]
                    in_map(x, y) && old(self).floor(x, y) implies self.floor(x, y) by {
                    assert(prev.floor(x, y));
                    assert(mid.floor(x, y));
                }
                assert forall|i: int, x: int, y: int|
                    0 <= i < self.rooms@.len() && (#[trigger] self.rooms@[i]).rect.contains(x, y) implies #[trigger] self.floor(x, y) by {
                    if i < prev.rooms@.len() {
                        assert(prev.rooms@[i] == self.rooms@[i]);
                        assert(prev.floor(x, y));
                    }
                    assert(mid.floor(x, y));
                }
                assert forall|i: int, k: int|
                    0 <= i < self.rooms@.len() && 0 <= k < self.rooms@.len() && i != k
                        implies !(#[trigger] self.rooms@[i]).rect.intersects((#[trigger] self.rooms@[k]).rect) by {
                    if i < prev.rooms@.len() {
                        assert(prev.rooms@[i] == self.rooms@[i]);
                    }
                    if k < prev.rooms@.len() {
                        assert(prev.rooms@[k] == self.rooms@[k]);
                    }
                }
            }
            attempt += 1;
        }
        let mut i: usize = 0;
        while i + 1 < self.rooms.len()
            invariant
                1 <= self.rooms@.len() <= MAX_ROOMS,
                i + 1 <= self.rooms@.len(),
                self.wf(),
                floor_grows(*old(self), *self),
                self.rooms_carved(),
                self.rooms_apart(),
                forall|k: int| 0 <= k < i ==> #[trigger] self.linked(k),
            decreases self.rooms@.len() - i,
        {
            let (x1, y1) = self.rooms[i].rect.center();
            let (x2, y2) = self.rooms[i + 1].rect.center();
            assert(self.rooms@[i as int].rect.contains(x1 as int, y1 as int));
            let ghost prev = *self;
            let path = self.carve_corridor(x1, y1, x2, y2, rng);
            proof {
                lemma_carved_survives(prev, *self);
                assert(self.rooms_apart());
            }
            assert forall|k: int| 0 <= k < i + 1 implies #[trigger] self.linked(k) by {
                if k < i {
                    assert(prev.linked(k));
                    let p = choose|p: Seq<(int, int)>|
                        #[trigger] prev.is_corridor(p, prev.rooms@[k].rect.center_spec(), prev.rooms@[k + 1].rect.center_spec());
                    lemma_corridor_survives(prev, *self, p, prev.rooms@[k].rect.center_spec(), prev.rooms@[k + 1].rect.center_spec());
                } else {
                    assert(self.is_corridor(path@, self.rooms@[k].rect.center_spec(), self.rooms@[k + 1].rect.center_spec()));
                }
            }
            i += 1;
        }
    }
}

/// On a generated map, the corridor between consecutive rooms whose centers
/// share a row or a column takes exactly as many steps as the Chebyshev
/// distance between the centers, over floor cells only. (Where the centers
/// differ on both axes the walk takes the Manhattan distance instead, which
/// `DungeonMap::is_corridor` states.)
pub proof fn lemma_aligned_corridor_steps(map: DungeonMap, k: int)
    requires
        map.generated(),
        0 <= k < map.rooms@.len() - 1,
        map.rooms@[k].rect.center_spec().0 == map.rooms@[k + 1].rect.center_spec().0
            || map.rooms@[k].rect.center_spec().1 == map.rooms@[k + 1].rect.center_spec().1,
    ensures
        exists|path: Seq<(int, int)>|
            map.is_corridor(path, map.rooms@[k].rect.center_spec(), map.rooms@[k + 1].rect.center_spec())
                && path.len() == chebyshev(map.rooms@[k].rect.center_spec(), map.rooms@[k + 1].rect.center_spec()) + 1,
{
    assert(map.linked(k));
}

/// Rooms stay carved when cells only ever turn into floor.
pub proof fn lemma_carved_survives(a: DungeonMap, b: DungeonMap)
    requires
        a.rooms_carved(),
        a.rooms == b.rooms,
        a.wf(),
        floor_grows(a, b),
    ensures
        b.rooms_carved(),
{
    assert forall|i: int, x: int, y: int|
        0 <= i < b.rooms@.len() && (#[trigger] b.rooms@[i]).rect.contains(x, y) implies #[trigger] b.floor(x, y) by {
        assert(a.rooms@[i].rect.inside_map());
        assert(a.floor(x, y));
    }
}

/// A corridor stays one when cells only ever turn into floor.
pub proof fn lemma_corridor_survives(a: DungeonMap, b: DungeonMap, path: Seq<(int, int)>, from: (int, int), to: (int, int))
    requires
        a.is_corridor(path, from, to),
        floor_grows(a, b),
    ensures
        b.is_corridor(path, from, to),
{
    assert forall|k: int| 0 <= k < path.len() implies in_map(#[trigger] path[k].0, path[k].1) && b.floor(path[k].0, path[k].1) by {
        assert(a.floor(path[k].0, path[k].1));
    }
}

} // verus!
