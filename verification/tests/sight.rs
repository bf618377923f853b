use rust_and_steel::colors::white;
use rust_and_steel::fov::{FovMap, FOV_LIMIT};
use rust_and_steel::game::{initialize_fov, Grid, MAP_HEIGHT, MAP_WIDTH};
use rust_and_steel::object::Object;
use rust_and_steel::room::{create_room, generate, solid_rock, Rect};

fn hall() -> Grid {
    let mut map = solid_rock();
    create_room(Rect::new(0, 0, 30, 30), &mut map);
    map
}

fn looking(map: &Grid, x: i32, y: i32, radius: i32) -> FovMap {
    let mut fov = FovMap::new(MAP_WIDTH, MAP_HEIGHT);
    initialize_fov(&mut fov, map);
    fov.compute_fov(x, y, radius);
    fov
}

fn seen(fov: &FovMap) -> Vec<(i32, i32)> {
    let mut tiles = Vec::new();
    for x in 0..MAP_WIDTH {
        for y in 0..MAP_HEIGHT {
            if fov.is_in_fov(x, y) {
                tiles.push((x, y));
            }
        }
    }
    tiles
}

#[test]
fn sight_reaches_as_far_as_the_radius() {
    let map = hall();
    let fov = looking(&map, 15, 15, 5);
    for x in 0..MAP_WIDTH {
        for y in 0..MAP_HEIGHT {
            let near = (x - 15) * (x - 15) + (y - 15) * (y - 15) <= 25;
            assert_eq!(fov.is_in_fov(x, y), near);
        }
    }
    assert_eq!(seen(&looking(&map, 15, 15, 0)), vec![(15, 15)]);
    assert_eq!(seen(&looking(&map, 15, 15, 1)), vec![(14, 15), (15, 14), (15, 15), (15, 16), (16, 15)]);
    assert!(seen(&looking(&map, 15, 15, -1)).is_empty());
    assert!(seen(&looking(&map, 15, 15, i32::MIN)).is_empty());
}

#[test]
fn walls_are_seen_but_not_what_lies_behind() {
    let mut map = hall();
    let fov = looking(&map, 3, 3, 10);
    assert!(fov.is_in_fov(0, 3) && fov.is_in_fov(3, 0) && fov.is_in_fov(0, 0));
    map[6][3].blocked = true;
    map[6][3].block_sight = true;
    let fov = looking(&map, 3, 3, 10);
    assert!(fov.is_in_fov(5, 3) && fov.is_in_fov(6, 3));
    for x in 7..14 {
        assert!(!fov.is_in_fov(x, 3));
    }
    assert!(fov.is_in_fov(7, 5) && fov.is_in_fov(3, 13));
    let mut walled = solid_rock();
    create_room(Rect::new(10, 10, 6, 6), &mut walled);
    let fov = looking(&walled, 12, 12, 100);
    let tiles = seen(&fov);
    assert!(tiles.iter().all(|(x, y)| (10..=16).contains(x) && (10..=16).contains(y)));
    for x in 11..16 {
        for y in 11..16 {
            assert!(fov.is_in_fov(x, y));
        }
    }
    assert!(fov.is_in_fov(10, 10) && fov.is_in_fov(16, 16) && fov.is_in_fov(10, 13));
    assert!(!fov.is_in_fov(16, 10) && !fov.is_in_fov(10, 16));
    assert_eq!(tiles.len(), 47);
    let fov = looking(&walled, 0, 0, 100);
    assert_eq!(seen(&fov), vec![(0, 0), (0, 1), (1, 0), (1, 1)]);
}

#[test]
fn glass_lets_light_through_and_looking_keeps_the_tiles() {
    let mut map = hall();
    map[6][3].blocked = true;
    let fov = looking(&map, 3, 3, 10);
    assert!(fov.is_in_fov(9, 3));
    assert!(!fov.cells[6][3].walkable && fov.cells[6][3].transparent);
    let mut again = looking(&map, 3, 3, 10);
    again.compute_fov(20, 20, 2);
    assert!(!again.is_in_fov(3, 3) && again.is_in_fov(20, 22));
    assert!(!again.cells[6][3].walkable && again.cells[6][3].transparent);
    assert!(FOV_LIMIT >= MAP_WIDTH);
}

#[test]
fn seeing_farther_only_adds_tiles() {
    for _ in 0..5 {
        let mut objects = vec![Object::new(0, 0, '@', "player", white(), true)];
        let (map, rooms) = generate(&mut objects, 1);
        for room in rooms.iter().take(4) {
            let (x, y) = room.center();
            let mut before = seen(&looking(&map, x, y, 0));
            assert_eq!(before, vec![(x, y)]);
            for radius in 1..14 {
                let now = seen(&looking(&map, x, y, radius));
                assert!(before.iter().all(|tile| now.contains(tile)));
                assert!(now.len() >= before.len());
                if radius <= 3 {
                    assert!(now.len() > before.len());
                }
                before = now;
            }
        }
    }
}

#[test]
fn small_fields_of_view_look_too() {
    let mut fov = FovMap::new(3, 1);
    for x in 0..3 {
        fov.set(x, 0, true, true);
    }
    fov.compute_fov(0, 0, 9);
    assert!(fov.is_in_fov(0, 0) && fov.is_in_fov(1, 0) && fov.is_in_fov(2, 0));
    fov.set(1, 0, false, false);
    fov.compute_fov(0, 0, 9);
    assert!(fov.is_in_fov(0, 0) && fov.is_in_fov(1, 0) && !fov.is_in_fov(2, 0));
    fov.compute_fov(2, 0, 1);
    assert!(!fov.is_in_fov(0, 0) && fov.is_in_fov(1, 0) && fov.is_in_fov(2, 0));
}
