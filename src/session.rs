//! The server side of one connection: spawning the player on a fresh map,
//! then answering each input message with a composed screen until the
//! transport fails or ends.

use crate::chance::draw_in;
use crate::dungeon::{in_map, lemma_cell_index, DungeonMap, TileType, MAP_HEIGHT, MAP_WIDTH};
use crate::screen::{compose, glyph, PlayerPosition, Screen};
use vstd::prelude::*;

verus! {

/// How many uniform draws spawning makes before it scans the map in order.
pub const SPAWN_DRAWS: usize = 10000;

/// The input message a client sends.
#[derive(Clone, Copy, Debug, PartialEq, Eq, Structural)]
pub enum KeyCode {
    Up,
    Down,
    Left,
    Right,
    Quit,
    Other,
}

/// What the transport hands a session.
#[derive(Clone, Copy, Debug, PartialEq, Eq, Structural)]
pub enum SessionEvent {
    /// A well-formed input message.
    Input(KeyCode),
    /// A transport or decoding error.
    Failed,
    /// The peer closed the stream.
    Ended,
}

/// What a session asks the transport to do.
pub enum SessionAction {
    Send(Screen),
    Close,
}

/// One step toward the smaller integers, stopping at the type's bound.
pub open spec fn step_down(v: i64) -> i64 {
    if v > i64::MIN {
        (v - 1) as i64
    } else {
        v
    }
}

/// One step toward the larger integers, stopping at the type's bound.
pub open spec fn step_up(v: i64) -> i64 {
    if v < i64::MAX {
        (v + 1) as i64
    } else {
        v
    }
}

/// Where a key moves the player: one cell along one axis for a direction,
/// nowhere otherwise. Walls and map edges are not checked.
pub open spec fn moved(pos: PlayerPosition, key: KeyCode) -> PlayerPosition {
    match key {
        KeyCode::Up => PlayerPosition { x: pos.x, y: step_down(pos.y) },
        KeyCode::Down => PlayerPosition { x: pos.x, y: step_up(pos.y) },
        KeyCode::Left => PlayerPosition { x: step_down(pos.x), y: pos.y },
        KeyCode::Right => PlayerPosition { x: step_up(pos.x), y: pos.y },
        _ => pos,
    }
}

pub fn move_player(pos: PlayerPosition, key: KeyCode) -> (r: PlayerPosition)
    ensures
        r == moved(pos, key),
{
    match key {
        KeyCode::Up => PlayerPosition { x: pos.x, y: if pos.y > i64::MIN { pos.y - 1 } else { pos.y } },
        KeyCode::Down => PlayerPosition { x: pos.x, y: if pos.y < i64::MAX { pos.y + 1 } else { pos.y } },
        KeyCode::Left => PlayerPosition { x: if pos.x > i64::MIN { pos.x - 1 } else { pos.x }, y: pos.y },
        KeyCode::Right => PlayerPosition { x: if pos.x < i64::MAX { pos.x + 1 } else { pos.x }, y: pos.y },
        _ => pos,
    }
}

/// A session in state `closed` that receives `event` sends a screen.
pub open spec fn emits(closed: bool, event: SessionEvent) -> bool {
    !closed && event is Input
}

/// Whether a session in state `closed` is closed after `event`.
pub open spec fn closed_after(closed: bool, event: SessionEvent) -> bool {
    closed || !(event is Input)
}

/// How many screens a session in state `closed` sends for `events`.
pub open spec fn screens_sent(closed: bool, events: Seq<SessionEvent>) -> nat
    decreases events.len(),
{
    if events.len() == 0 {
        0
    } else {
        (if emits(closed, events[0]) { 1nat } else { 0nat }) + screens_sent(closed_after(closed, events[0]), events.drop_first())
    }
}

/// How many input messages come before the first error or end of stream.
pub open spec fn inputs_before_end(events: Seq<SessionEvent>) -> nat
    decreases events.len(),
{
    if events.len() > 0 && events[0] is Input {
        1 + inputs_before_end(events.drop_first())
    } else {
        0
    }
}

/// An open session sends exactly one screen for each input message it
/// consumes before the first error or end of stream, and a closed session
/// sends nothing more.
pub proof fn lemma_one_screen_per_input(events: Seq<SessionEvent>)
    ensures
        screens_sent(false, events) == inputs_before_end(events),
        screens_sent(true, events) == 0,
    decreases events.len(),
{
    if events.len() > 0 {
        lemma_one_screen_per_input(events.drop_first());
    }
}

/// The map has a floor cell.
pub open spec fn has_floor(map: DungeonMap) -> bool {
    exists|x: int, y: int| in_map(x, y) && #[trigger] map.floor(x, y)
}

/// Picks a floor cell for the player: cells are drawn uniformly until one is
/// floor; should `SPAWN_DRAWS` draws all miss, the first floor cell in row
/// order is taken. `None` exactly when the map has no floor.
pub fn spawn_position(map: &DungeonMap, rng: &mut rand::rngs::ThreadRng) -> (r: Option<PlayerPosition>)
    requires
        map.wf(),
    ensures
        r is Some <==> has_floor(*map),
        r matches Some(p) ==> in_map(p.x as int, p.y as int) && map.floor(p.x as int, p.y as int),
{
    let mut draw: usize = 0;
    while draw < SPAWN_DRAWS
        invariant
            map.wf(),
        decreases SPAWN_DRAWS - draw,
    {
        let x = draw_in(rng, 0, MAP_WIDTH as i32);
        let y = draw_in(rng, 0, MAP_HEIGHT as i32);
        proof {
            lemma_cell_index(x as int, y as int);
        }
        if map.tiles[y as usize * MAP_WIDTH + x as usize].tile_type == TileType::Floor {
            assert(map.floor(x as int, y as int));
            return Some(PlayerPosition { x: x as i64, y: y as i64 });
        }
        draw += 1;
    }
    let mut y: usize = 0;
    while y < MAP_HEIGHT
        invariant
            map.wf(),
            y <= MAP_HEIGHT,
            forall|px: int, py: int| in_map(px, py) && py < y ==> !#[trigger] map.floor(px, py),
        decreases MAP_HEIGHT - y,
    {
        let mut x: usize = 0;
        while x < MAP_WIDTH
            invariant
                map.wf(),
                y < MAP_HEIGHT,
                x <= MAP_WIDTH,
                forall|px: int, py: int| in_map(px, py) && (py < y || (py == y && px < x)) ==> !#[trigger] map.floor(px, py),
            decreases MAP_WIDTH - x,
        {
            proof {
                lemma_cell_index(x as int, y as int);
            }
            if map.tiles[y * MAP_WIDTH + x].tile_type == TileType::Floor {
                assert(map.floor(x as int, y as int));
                return Some(PlayerPosition { x: x as i64, y: y as i64 });
            }
            x += 1;
        }
        y += 1;
    }
    None
}

/// The state one connection owns: its map, its player, and whether it has
/// closed.
pub struct Session {
    pub map: DungeonMap,
    pub position: PlayerPosition,
    pub closed: bool,
}

impl Session {
    pub open spec fn wf(self) -> bool {
        self.map.wf()
    }

    /// Spawns a session: generates a map and places the player on one of
    /// its floor cells.
    pub fn start(rng: &mut rand::rngs::ThreadRng) -> (r: Session)
        ensures
            r.wf(),
            r.map.generated(),
            !r.closed,
            in_map(r.position.x as int, r.position.y as int),
            r.map.floor(r.position.x as int, r.position.y as int),
    {
        let mut map = DungeonMap::new();
        map.generate(rng);
        let ghost first = map.rooms@[0].rect;
        assert(first.contains(first.l as int, first.t as int));
        assert(map.floor(first.l as int, first.t as int));
        let position = spawn_position(&map, rng).unwrap();
        Session { map, position, closed: false }
    }

    /// Handles one event. An open session moves the player for a direction
    /// key and answers any input message with the screen composed after the
    /// move; an error or the end of the stream closes it. A closed session
    /// stays closed and sends nothing.
    pub fn handle(&mut self, event: SessionEvent) -> (r: SessionAction)
        requires
            old(self).wf(),
        ensures
            final(self).wf(),
            final(self).map == old(self).map,
            final(self).closed == closed_after(old(self).closed, event),
            r is Send <==> emits(old(self).closed, event),
            final(self).position == (match event {
                SessionEvent::Input(key) if !old(self).closed => moved(old(self).position, key),
                _ => old(self).position,
            }),
            r matches SessionAction::Send(s) ==> s.shows(|x: int, y: int| glyph(final(self).map, final(self).position, x, y)),
    {
        if self.closed {
            return SessionAction::Close;
        }
        match event {
            SessionEvent::Input(key) => {
                self.position = move_player(self.position, key);
                SessionAction::Send(compose(&self.map, self.position))
            },
            _ => {
                self.closed = true;
                SessionAction::Close
            },
        }
    }
}

} // verus!
