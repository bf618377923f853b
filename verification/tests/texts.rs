use rust_and_steel::colors::{dark_red, light_grey, red, Color};
use rust_and_steel::equipment::{Equipment, Slot, Stat};
use rust_and_steel::fov::{FovCell, FovMap};
use rust_and_steel::game::{Messages, Tile};
use rust_and_steel::text::{int_to_string, push_int, push_nat, text_is};

#[test]
fn numbers_read_as_decimals() {
    for n in [0i64, 1, 9, 10, 11, 99, 100, 12345, -1, -10, -999, i32::MAX as i64, i32::MIN as i64, i64::MAX, i64::MIN] {
        assert_eq!(int_to_string(n), n.to_string());
    }
}

#[test]
fn numbers_are_appended() {
    let mut s = String::from("x=");
    push_int(&mut s, -42);
    s.push(',');
    push_nat(&mut s, u64::MAX);
    s.push(',');
    push_nat(&mut s, 0);
    assert_eq!(s, "x=-42,18446744073709551615,0");
}

#[test]
fn texts_compare_by_their_characters() {
    assert!(text_is(&"player".to_string(), "player"));
    assert!(!text_is(&"Player".to_string(), "player"));
    assert!(!text_is(&"player ".to_string(), "player"));
    assert!(text_is(&String::new(), ""));
}

#[test]
fn colours_are_plain_triples() {
    assert_eq!(red(), Color { r: 255, g: 0, b: 0 });
    assert_eq!(dark_red(), Color::new(191, 0, 0));
    assert_eq!(light_grey(), Color::new(159, 159, 159));
}

#[test]
fn tiles_come_open_or_solid() {
    assert_eq!(Tile::empty(), Tile { blocked: false, explored: false, block_sight: false });
    assert_eq!(Tile::wall(), Tile { blocked: true, explored: false, block_sight: true });
}

#[test]
fn slots_have_names() {
    assert_eq!(Slot::LeftHand.name(), "left hand");
    assert_eq!(Slot::RightHand.name(), "right hand");
    assert_eq!(Slot::Head.name(), "head");
}

#[test]
fn equipment_gives_its_bonus_by_stat() {
    let e = Equipment { slot: Slot::Head, equipped: false, power_bonus: 1, defense_bonus: 2, max_hp_bonus: 3 };
    assert_eq!((e.bonus(Stat::Power), e.bonus(Stat::Defense), e.bonus(Stat::MaxHp)), (1, 2, 3));
}

#[test]
fn log_keeps_lines_in_order() {
    let mut log = Messages::new();
    assert_eq!(log.len(), 0);
    log.add("one".to_string(), red());
    log.add_str("two", dark_red());
    log.add_str("one", red());
    assert_eq!(log.len(), 3);
    assert_eq!(log.get(0).clone(), ("one".to_string(), red()));
    assert_eq!(log.get(1).clone(), ("two".to_string(), dark_red()));
    assert_eq!(log.get(2).clone(), ("one".to_string(), red()));
}

#[test]
fn field_of_view_starts_dark() {
    let fov = FovMap::new(4, 3);
    assert_eq!(fov.size(), (4, 3));
    for x in -1..6 {
        for y in -1..5 {
            assert!(!fov.is_in_fov(x, y));
        }
    }
    assert_eq!(fov.cells[3][2], FovCell { transparent: false, walkable: false, in_fov: false });
}

#[test]
fn field_of_view_records_tile_by_tile() {
    let mut fov = FovMap::new(4, 3);
    fov.set(1, 2, true, false);
    fov.set_in_fov(1, 2, true);
    fov.set_in_fov(3, 0, true);
    fov.set(3, 0, false, true);
    assert_eq!(fov.cells[1][2], FovCell { transparent: true, walkable: false, in_fov: true });
    assert_eq!(fov.cells[3][0], FovCell { transparent: false, walkable: true, in_fov: true });
    assert!(fov.is_in_fov(1, 2) && fov.is_in_fov(3, 0));
    assert!(!fov.is_in_fov(2, 1) && !fov.is_in_fov(0, 3) && !fov.is_in_fov(4, 0));
    assert!(!fov.is_in_fov(i32::MAX, i32::MIN));
    fov.set_in_fov(1, 2, false);
    assert!(!fov.is_in_fov(1, 2));
    assert!(fov.cells[1][2].transparent);
    assert_eq!(FovMap { cells: vec![] }.size(), (0, 0));
}
