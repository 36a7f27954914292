use mandos::dungeon::{DungeonMap, Rect, TileType, MAP_WIDTH};
use mandos::screen::{compose, PlayerPosition, Screen, PLAYER_GLYPH};
use mandos::session::{move_player, spawn_position, KeyCode, Session, SessionAction, SessionEvent};

fn on_floor(map: &DungeonMap, p: PlayerPosition) -> bool {
    map.tiles[p.y as usize * MAP_WIDTH + p.x as usize].tile_type == TileType::Floor
}

fn sent(action: SessionAction) -> Option<Screen> {
    match action {
        SessionAction::Send(s) => Some(s),
        SessionAction::Close => None,
    }
}

fn player_cell(s: &Screen) -> usize {
    let cells: Vec<usize> = (0..s.tiles.len()).filter(|&i| s.tiles[i].c == PLAYER_GLYPH).collect();
    assert_eq!(cells.len(), 1);
    cells[0]
}

/// A session whose player stands on floor with floor to its right.
fn session_with_room_to_the_right() -> Session {
    let mut map = DungeonMap::new();
    map.create_room(&Rect::new(5, 5, 6, 3));
    Session { map, position: PlayerPosition { x: 6, y: 6 }, closed: false }
}

#[test]
fn move_player_moves_one_cell() {
    let p = PlayerPosition { x: 4, y: 7 };
    assert_eq!(move_player(p, KeyCode::Up), PlayerPosition { x: 4, y: 6 });
    assert_eq!(move_player(p, KeyCode::Down), PlayerPosition { x: 4, y: 8 });
    assert_eq!(move_player(p, KeyCode::Left), PlayerPosition { x: 3, y: 7 });
    assert_eq!(move_player(p, KeyCode::Right), PlayerPosition { x: 5, y: 7 });
    assert_eq!(move_player(p, KeyCode::Quit), p);
    assert_eq!(move_player(p, KeyCode::Other), p);
}

#[test]
fn move_player_is_not_bounded_by_the_map() {
    let p = PlayerPosition { x: 0, y: 0 };
    assert_eq!(move_player(p, KeyCode::Left), PlayerPosition { x: -1, y: 0 });
    assert_eq!(move_player(p, KeyCode::Up), PlayerPosition { x: 0, y: -1 });
    let far = PlayerPosition { x: i64::MAX, y: i64::MIN };
    assert_eq!(move_player(far, KeyCode::Right), far);
    assert_eq!(move_player(far, KeyCode::Up), far);
}

#[test]
fn spawn_needs_floor() {
    let mut rng = rand::thread_rng();
    assert_eq!(spawn_position(&DungeonMap::new(), &mut rng), None);
}

#[test]
fn spawn_finds_a_lone_floor_cell() {
    let mut rng = rand::thread_rng();
    let mut map = DungeonMap::new();
    map.tiles[9 * MAP_WIDTH + 40].tile_type = TileType::Floor;
    assert_eq!(spawn_position(&map, &mut rng), Some(PlayerPosition { x: 40, y: 9 }));
}

#[test]
fn spawn_lands_on_floor() {
    let mut rng = rand::thread_rng();
    for _ in 0..50 {
        let mut map = DungeonMap::new();
        map.generate(&mut rng);
        let p = spawn_position(&map, &mut rng).unwrap();
        assert!(on_floor(&map, p));
    }
}

#[test]
fn start_spawns_on_floor_of_a_generated_map() {
    let mut rng = rand::thread_rng();
    for _ in 0..20 {
        let s = Session::start(&mut rng);
        assert!(!s.closed);
        assert!(!s.map.rooms.is_empty() && s.map.rooms.len() <= 9);
        assert!(on_floor(&s.map, s.position));
    }
}

#[test]
fn right_moves_player_glyph_one_cell() {
    let mut s = session_with_room_to_the_right();
    let first = sent(s.handle(SessionEvent::Input(KeyCode::Other))).unwrap();
    let second = sent(s.handle(SessionEvent::Input(KeyCode::Right))).unwrap();
    let (a, b) = (player_cell(&first), player_cell(&second));
    assert_eq!(b, a + 1);
    assert_eq!(s.position, PlayerPosition { x: 7, y: 6 });
    let base = compose(&s.map, PlayerPosition { x: -1, y: -1 });
    for i in 0..second.tiles.len() {
        if i != a && i != b {
            assert_eq!(first.tiles[i], second.tiles[i]);
            assert_eq!(second.tiles[i], base.tiles[i]);
        }
    }
}

#[test]
fn quit_keeps_position_and_still_sends() {
    let mut s = session_with_room_to_the_right();
    let before = s.position;
    let screen = sent(s.handle(SessionEvent::Input(KeyCode::Quit))).unwrap();
    assert_eq!(s.position, before);
    assert!(!s.closed);
    assert_eq!(player_cell(&screen), 6 * MAP_WIDTH + 6);
}

#[test]
fn failure_closes_only_that_session() {
    let mut broken = session_with_room_to_the_right();
    let mut healthy = session_with_room_to_the_right();
    assert!(sent(broken.handle(SessionEvent::Failed)).is_none());
    assert!(broken.closed);
    assert!(sent(broken.handle(SessionEvent::Input(KeyCode::Down))).is_none());
    assert_eq!(broken.position, PlayerPosition { x: 6, y: 6 });
    let screen = sent(healthy.handle(SessionEvent::Input(KeyCode::Down))).unwrap();
    assert!(!healthy.closed);
    assert_eq!(player_cell(&screen), 7 * MAP_WIDTH + 6);
}

#[test]
fn one_screen_per_input_until_end() {
    let mut s = session_with_room_to_the_right();
    let events = [
        SessionEvent::Input(KeyCode::Up),
        SessionEvent::Input(KeyCode::Other),
        SessionEvent::Input(KeyCode::Left),
        SessionEvent::Ended,
        SessionEvent::Input(KeyCode::Right),
        SessionEvent::Failed,
    ];
    let screens = events.iter().filter_map(|e| sent(s.handle(*e))).count();
    assert_eq!(screens, 3);
    assert!(s.closed);
    assert_eq!(s.position, PlayerPosition { x: 5, y: 5 });
}

#[test]
fn walking_through_walls_is_allowed() {
    let mut s = session_with_room_to_the_right();
    for _ in 0..8 {
        s.handle(SessionEvent::Input(KeyCode::Up));
    }
    assert_eq!(s.position, PlayerPosition { x: 6, y: -2 });
    let screen = sent(s.handle(SessionEvent::Input(KeyCode::Other))).unwrap();
    assert!(screen.tiles.iter().all(|t| t.c != PLAYER_GLYPH));
}
