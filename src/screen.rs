//! The screen compositor: one display character per map cell, with the
//! player drawn on top.

use crate::dungeon::{cell_index, in_map, lemma_cell_index, lemma_cell_index_injective, DungeonMap, TileType, MAP_HEIGHT, MAP_WIDTH};
use vstd::prelude::*;

verus! {

pub const FLOOR_GLYPH: char = '.';

/// A wall next to floor (diagonals included).
pub const WALL_GLYPH: char = '#';

/// A wall with no floor around it stays dark.
pub const BLANK_GLYPH: char = ' ';

pub const PLAYER_GLYPH: char = '@';

/// A cell coordinate of the player. It may leave the map: movement is not
/// checked against walls or edges.
#[derive(Clone, Copy, Debug, PartialEq, Eq, Structural)]
pub struct PlayerPosition {
    pub x: i64,
    pub y: i64,
}

#[derive(Clone, Copy, Debug, PartialEq, Eq, Structural)]
pub struct ScreenTile {
    pub c: char,
}

/// A `size.0` x `size.1` grid of display characters, stored row by row.
pub struct Screen {
    pub size: (u16, u16),
    pub tiles: Vec<ScreenTile>,
}

/// `(x, y)` lies on the map and is floor there.
pub open spec fn floor_at(map: DungeonMap, x: int, y: int) -> bool {
    in_map(x, y) && map.floor(x, y)
}

/// One of the eight cells around `(x, y)` is floor.
pub open spec fn floor_nearby(map: DungeonMap, x: int, y: int) -> bool {
    ||| floor_at(map, x - 1, y - 1)
    ||| floor_at(map, x, y - 1)
    ||| floor_at(map, x + 1, y - 1)
    ||| floor_at(map, x - 1, y)
    ||| floor_at(map, x + 1, y)
    ||| floor_at(map, x - 1, y + 1)
    ||| floor_at(map, x, y + 1)
    ||| floor_at(map, x + 1, y + 1)
}

/// How the map alone shows the cell `(x, y)`.
pub open spec fn base_glyph(map: DungeonMap, x: int, y: int) -> char {
    if map.floor(x, y) {
        FLOOR_GLYPH
    } else if floor_nearby(map, x, y) {
        WALL_GLYPH
    } else {
        BLANK_GLYPH
    }
}

/// How the cell `(x, y)` is shown with the player at `pos`.
pub open spec fn glyph(map: DungeonMap, pos: PlayerPosition, x: int, y: int) -> char {
    if x == pos.x && y == pos.y {
        PLAYER_GLYPH
    } else {
        base_glyph(map, x, y)
    }
}

/// The whole composed screen, row by row.
pub open spec fn composed(map: DungeonMap, pos: PlayerPosition) -> Seq<char> {
    Seq::new((MAP_WIDTH * MAP_HEIGHT) as nat, |i: int| glyph(map, pos, i % MAP_WIDTH as int, i / MAP_WIDTH as int))
}

pub proof fn lemma_cell_order(px: int, py: int, x: int, y: int)
    requires
        in_map(px, py),
        in_map(x, y),
        py < y || (py == y && px < x),
    ensures
        cell_index(px, py) < cell_index(x, y),
{
    assert(py * 72 + px < y * 72 + x) by (nonlinear_arith)
        requires
            0 <= px < 72,
            0 <= x < 72,
            py < y || (py == y && px < x),
    ;
}

/// Every index of the grid is the index of the cell in its column and row.
pub proof fn lemma_index_cell(i: int)
    requires
        0 <= i < MAP_WIDTH * MAP_HEIGHT,
    ensures
        in_map(i % MAP_WIDTH as int, i / MAP_WIDTH as int),
        cell_index(i % MAP_WIDTH as int, i / MAP_WIDTH as int) == i,
{
    assert(0 <= i % 72 < 72 && 0 <= i / 72 < 17 && (i / 72) * 72 + i % 72 == i) by (nonlinear_arith)
        requires
            0 <= i < 72 * 17,
    ;
}

impl Screen {
    pub open spec fn glyphs(self) -> Seq<char> {
        self.tiles@.map_values(|t: ScreenTile| t.c)
    }

    /// The screen has the map's size and shows the cell `(x, y)` as `f(x, y)`.
    pub open spec fn shows(self, f: spec_fn(int, int) -> char) -> bool {
        &&& self.size.0 == MAP_WIDTH && self.size.1 == MAP_HEIGHT
        &&& self.tiles@.len() == MAP_WIDTH * MAP_HEIGHT
        &&& forall|x: int, y: int| in_map(x, y) ==> (#[trigger] self.tiles@[cell_index(x, y)]).c == f(x, y)
    }

    /// The number of tiles matches the declared size.
    pub open spec fn well_sized(self) -> bool {
        self.tiles@.len() == self.size.0 * self.size.1
    }

    pub fn is_well_sized(&self) -> (r: bool)
        ensures
            r == self.well_sized(),
    {
        let (w, h) = (self.size.0 as u64, self.size.1 as u64);
        assert(w * h <= 65535 * 65535) by (nonlinear_arith)
            requires
                w <= 65535,
                h <= 65535,
        ;
        self.tiles.len() as u64 == w * h
    }

    /// The screen fits a terminal of `width` columns and `height` rows.
    pub fn fits_terminal(&self, width: u16, height: u16) -> (r: bool)
        ensures
            r == (self.size.0 <= width && self.size.1 <= height),
    {
        self.size.0 <= width && self.size.1 <= height
    }

    /// The characters of row `y`, left to right.
    pub fn row(&self, y: u16) -> (r: Vec<char>)
        requires
            self.well_sized(),
            y < self.size.1,
        ensures
            r@ == self.glyphs().subrange(y * self.size.0, y * self.size.0 + self.size.0),
    {
        let w = self.size.0 as usize;
        let n = self.tiles.len();
        proof {
            let (sw, sh) = (self.size.0 as int, self.size.1 as int);
            assert(0 <= y * sw && y * sw + sw <= sw * sh) by (nonlinear_arith)
                requires
                    0 <= y < sh,
                    0 <= sw,
            ;
            assert(y * sw + sw <= self.tiles@.len());
        }
        let start = y as usize * w;
        let mut r: Vec<char> = Vec::new();
        let mut x: usize = 0;
        while x < w
            invariant
                self.well_sized(),
                w == self.size.0,
                start == y * self.size.0,
                start + w <= n,
                n == self.tiles@.len(),
                x <= w,
                r@ == self.glyphs().subrange(start as int, start + x),
            decreases w - x,
        {
            r.push(self.tiles[start + x].c);
            x += 1;
            assert(r@ =~= self.glyphs().subrange(start as int, start + x));
        }
        r
    }

    /// The map as it shows without a player: floor, walls next to floor, and
    /// darkness elsewhere.
    pub fn new_from_map(map: &DungeonMap) -> (r: Screen)
        requires
            map.wf(),
        ensures
            r.shows(|x: int, y: int| base_glyph(*map, x, y)),
    {
        let mut tiles: Vec<ScreenTile> = Vec::new();
        let mut y: usize = 0;
        while y < MAP_HEIGHT
            invariant
                map.wf(),
                y <= MAP_HEIGHT,
                tiles@.len() == y * MAP_WIDTH,
                forall|px: int, py: int| in_map(px, py) && py < y ==> (#[trigger] tiles@[cell_index(px, py)]).c == base_glyph(*map, px, py),
            decreases MAP_HEIGHT - y,
        {
            let mut x: usize = 0;
            while x < MAP_WIDTH
                invariant
                    map.wf(),
                    y < MAP_HEIGHT,
                    x <= MAP_WIDTH,
                    tiles@.len() == y * MAP_WIDTH + x,
                    forall|px: int, py: int| in_map(px, py) && (py < y || (py == y && px < x))
                        ==> (#[trigger] tiles@[cell_index(px, py)]).c == base_glyph(*map, px, py),
                decreases MAP_WIDTH - x,
            {
                let c = cell_glyph(map, x as i64, y as i64);
                let ghost before = tiles@;
                tiles.push(ScreenTile { c });
                assert forall|px: int, py: int| in_map(px, py) && (py < y || (py == y && px < x + 1))
                    implies (#[trigger] tiles@[cell_index(px, py)]).c == base_glyph(*map, px, py) by {
                    if py < y || (py == y && px < x) {
                        lemma_cell_order(px, py, x as int, y as int);
                        assert(tiles@[cell_index(px, py)] == before[cell_index(px, py)]);
                    }
                }
                x += 1;
            }
            y += 1;
        }
        Screen { size: (MAP_WIDTH as u16, MAP_HEIGHT as u16), tiles }
    }
}

/// Composes the screen for a map and a player position: the map as
/// `Screen::new_from_map` shows it, with the player's cell overwritten by
/// `PLAYER_GLYPH` when that cell lies on the map.
pub fn compose(map: &DungeonMap, pos: PlayerPosition) -> (r: Screen)
    requires
        map.wf(),
    ensures
        r.shows(|x: int, y: int| glyph(*map, pos, x, y)),
        r.glyphs() == composed(*map, pos),
{
    let mut screen = Screen::new_from_map(map);
    if 0 <= pos.x && pos.x < MAP_WIDTH as i64 && 0 <= pos.y && pos.y < MAP_HEIGHT as i64 {
        proof {
            lemma_cell_index(pos.x as int, pos.y as int);
        }
        let ghost before = screen.tiles@;
        screen.tiles.set(pos.y as usize * MAP_WIDTH + pos.x as usize, ScreenTile { c: PLAYER_GLYPH });
        assert forall|x: int, y: int| in_map(x, y) implies (#[trigger] screen.tiles@[cell_index(x, y)]).c == glyph(*map, pos, x, y) by {
            lemma_cell_index(x, y);
            if cell_index(x, y) == cell_index(pos.x as int, pos.y as int) {
                lemma_cell_index_injective(x, y, pos.x as int, pos.y as int);
            } else {
                assert(screen.tiles@[cell_index(x, y)] == before[cell_index(x, y)]);
            }
        }
    }
    proof {
        lemma_shows_composed(screen, *map, pos);
    }
    screen
}

/// A screen that shows each cell as `glyph` does holds exactly `composed`.
pub proof fn lemma_shows_composed(s: Screen, map: DungeonMap, pos: PlayerPosition)
    requires
        s.shows(|x: int, y: int| glyph(map, pos, x, y)),
    ensures
        s.glyphs() == composed(map, pos),
{
    assert forall|i: int| 0 <= i < MAP_WIDTH * MAP_HEIGHT implies #[trigger] s.glyphs()[i] == composed(map, pos)[i] by {
        lemma_index_cell(i);
        let x = i % MAP_WIDTH as int;
        let y = i / MAP_WIDTH as int;
        assert(s.tiles@[cell_index(x, y)].c == glyph(map, pos, x, y));
    }
    assert(s.glyphs() =~= composed(map, pos));
}

/// Composition depends on the map and the position alone: two screens
/// composed from the same map and position are identical.
pub proof fn lemma_compose_idempotent(map: DungeonMap, pos: PlayerPosition, first: Screen, second: Screen)
    requires
        first.shows(|x: int, y: int| glyph(map, pos, x, y)),
        second.shows(|x: int, y: int| glyph(map, pos, x, y)),
    ensures
        first.size == second.size,
        first.glyphs() == second.glyphs(),
{
    lemma_shows_composed(first, map, pos);
    lemma_shows_composed(second, map, pos);
}

/// Whether `(x, y)` lies on the map and is floor there.
fn floor_at_exec(map: &DungeonMap, x: i64, y: i64) -> (r: bool)
    requires
        map.wf(),
    ensures
        r == floor_at(*map, x as int, y as int),
{
    if 0 <= x && x < MAP_WIDTH as i64 && 0 <= y && y < MAP_HEIGHT as i64 {
        proof {
            lemma_cell_index(x as int, y as int);
        }
        map.tiles[y as usize * MAP_WIDTH + x as usize].tile_type == TileType::Floor
    } else {
        false
    }
}

/// The character the map alone shows at the cell `(x, y)`.
fn cell_glyph(map: &DungeonMap, x: i64, y: i64) -> (r: char)
    requires
        map.wf(),
        in_map(x as int, y as int),
    ensures
        r == base_glyph(*map, x as int, y as int),
{
    if floor_at_exec(map, x, y) {
        FLOOR_GLYPH
    } else {
        let near = floor_at_exec(map, x - 1, y - 1) || floor_at_exec(map, x, y - 1)
            || floor_at_exec(map, x + 1, y - 1) || floor_at_exec(map, x - 1, y)
            || floor_at_exec(map, x + 1, y) || floor_at_exec(map, x - 1, y + 1)
            || floor_at_exec(map, x, y + 1) || floor_at_exec(map, x + 1, y + 1);
        if near {
            WALL_GLYPH
        } else {
            BLANK_GLYPH
        }
    }
}

} // verus!
