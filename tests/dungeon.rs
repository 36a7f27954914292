use mandos::dungeon::{
    DungeonMap, Rect, TileType, MAP_HEIGHT, MAP_WIDTH, MAX_ROOMS, MAX_ROOM_HEIGHT, MAX_ROOM_WIDTH,
    MIN_ROOM_HEIGHT, MIN_ROOM_WIDTH,
};

fn is_floor(map: &DungeonMap, x: i32, y: i32) -> bool {
    map.tiles[y as usize * MAP_WIDTH + x as usize].tile_type == TileType::Floor
}

fn generated_map() -> DungeonMap {
    let mut rng = rand::thread_rng();
    let mut map = DungeonMap::new();
    map.generate(&mut rng);
    map
}

#[test]
fn rect_new_keeps_fields() {
    let r = Rect::new(3, 4, 5, 6);
    assert_eq!((r.l, r.t, r.w, r.h), (3, 4, 5, 6));
}

#[test]
fn rect_center_rounds_down() {
    assert_eq!(Rect::new(2, 3, 5, 4).center(), (4, 5));
    assert_eq!(Rect::new(10, 1, 12, 3).center(), (16, 2));
}

#[test]
fn rect_intersect_counts_touching_edges() {
    let a = Rect::new(1, 1, 5, 5);
    assert!(a.intersect(&Rect::new(6, 1, 3, 3)));
    assert!(Rect::new(6, 1, 3, 3).intersect(&a));
    assert!(a.intersect(&Rect::new(2, 2, 1, 1)));
    assert!(!a.intersect(&Rect::new(7, 1, 3, 3)));
    assert!(!a.intersect(&Rect::new(1, 7, 3, 3)));
}

#[test]
fn rect_intersect_extreme_values_do_not_overflow() {
    let a = Rect::new(i32::MAX, i32::MAX, i32::MAX, i32::MAX);
    let b = Rect::new(i32::MIN, i32::MIN, 1, 1);
    assert!(!a.intersect(&b));
}

#[test]
fn rect_random_stays_in_ranges() {
    let mut rng = rand::thread_rng();
    let mut widths = std::collections::BTreeSet::new();
    for _ in 0..2000 {
        let r = Rect::random(MIN_ROOM_WIDTH, MAX_ROOM_WIDTH, MIN_ROOM_HEIGHT, MAX_ROOM_HEIGHT, &mut rng);
        assert!(MIN_ROOM_WIDTH <= r.w && r.w < MAX_ROOM_WIDTH);
        assert!(MIN_ROOM_HEIGHT <= r.h && r.h < MAX_ROOM_HEIGHT);
        assert!(r.l >= 1 && r.l + r.w <= MAP_WIDTH as i32 - 2);
        assert!(r.t >= 1 && r.t + r.h <= MAP_HEIGHT as i32 - 2);
        widths.insert(r.w);
    }
    // a draw that handed back its lower bound would give a single width
    assert!(widths.len() > 1);
}

#[test]
fn new_map_is_all_wall() {
    let map = DungeonMap::new();
    assert_eq!(map.tiles.len(), MAP_WIDTH * MAP_HEIGHT);
    assert!(map.tiles.iter().all(|t| t.tile_type == TileType::Wall));
    assert!(map.rooms.is_empty());
}

#[test]
fn create_room_carves_exactly_the_rectangle() {
    let mut map = DungeonMap::new();
    map.create_room(&Rect::new(2, 3, 4, 2));
    for y in 0..MAP_HEIGHT as i32 {
        for x in 0..MAP_WIDTH as i32 {
            let inside = (2..6).contains(&x) && (3..5).contains(&y);
            assert_eq!(is_floor(&map, x, y), inside, "cell {} {}", x, y);
        }
    }
}

#[test]
fn generated_rooms_are_carved_apart_and_inside() {
    for _ in 0..50 {
        let map = generated_map();
        assert_eq!(map.tiles.len(), MAP_WIDTH * MAP_HEIGHT);
        assert!(!map.rooms.is_empty());
        assert!(map.rooms.len() <= MAX_ROOMS as usize);
        for (i, a) in map.rooms.iter().enumerate() {
            let r = &a.rect;
            assert!(r.l >= 1 && r.t >= 1);
            assert!(r.l + r.w <= MAP_WIDTH as i32 - 2 && r.t + r.h <= MAP_HEIGHT as i32 - 2);
            for y in r.t..r.t + r.h {
                for x in r.l..r.l + r.w {
                    assert!(is_floor(&map, x, y));
                }
            }
            for (j, b) in map.rooms.iter().enumerate() {
                if i != j {
                    assert!(!r.intersect(&b.rect));
                }
            }
        }
    }
}

#[test]
fn generated_border_stays_wall() {
    for _ in 0..20 {
        let map = generated_map();
        for x in 0..MAP_WIDTH as i32 {
            assert!(!is_floor(&map, x, 0));
            assert!(!is_floor(&map, x, MAP_HEIGHT as i32 - 1));
        }
        for y in 0..MAP_HEIGHT as i32 {
            assert!(!is_floor(&map, 0, y));
            assert!(!is_floor(&map, MAP_WIDTH as i32 - 1, y));
        }
    }
}

#[test]
fn generated_room_centers_are_connected_by_floor() {
    for _ in 0..50 {
        let map = generated_map();
        let (sx, sy) = map.rooms[0].rect.center();
        let mut seen = vec![false; MAP_WIDTH * MAP_HEIGHT];
        let mut todo = vec![(sx, sy)];
        seen[sy as usize * MAP_WIDTH + sx as usize] = true;
        while let Some((x, y)) = todo.pop() {
            for (nx, ny) in [(x + 1, y), (x - 1, y), (x, y + 1), (x, y - 1)] {
                if nx >= 0 && ny >= 0 && nx < MAP_WIDTH as i32 && ny < MAP_HEIGHT as i32 {
                    let i = ny as usize * MAP_WIDTH + nx as usize;
                    if !seen[i] && is_floor(&map, nx, ny) {
                        seen[i] = true;
                        todo.push((nx, ny));
                    }
                }
            }
        }
        for room in &map.rooms {
            let (cx, cy) = room.rect.center();
            assert!(seen[cy as usize * MAP_WIDTH + cx as usize]);
        }
    }
}

#[test]
fn generate_keeps_existing_floor() {
    let mut rng = rand::thread_rng();
    let mut map = DungeonMap::new();
    map.create_room(&Rect::new(1, 1, 2, 2));
    map.generate(&mut rng);
    assert!(is_floor(&map, 1, 1) && is_floor(&map, 2, 2));
}
