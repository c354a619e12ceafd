use ml_battle_snake::utils::{
    get_direction, is_out_of_bounds, pack_coord, pack_xy, random_coord, unpack_coord,
};
use ml_battle_snake::Coord;

#[test]
fn pack_coord_value() {
    assert_eq!(pack_coord(&Coord { x: 2, y: 3 }, 5), 17);
    assert_eq!(pack_coord(&Coord { x: 0, y: 0 }, 5), 0);
}

#[test]
fn pack_xy_value() {
    assert_eq!(pack_xy(2, 3, 5), 17);
    assert_eq!(pack_xy(0, 4, 5), 20);
}

#[test]
fn pack_unpack_roundtrip() {
    for x in 0..5 {
        for y in 0..5 {
            let c = Coord { x, y };
            let packed = pack_coord(&c, 5);
            let back = unpack_coord(packed, 5);
            assert_eq!(back, c);
        }
    }
}

#[test]
fn pack_unpack_roundtrip_on_a_tall_grid() {
    // bijective also when the grid is taller than it is wide
    for x in 0..2 {
        for y in 0..6 {
            let c = Coord { x, y };
            let packed = pack_coord(&c, 2);
            let back = unpack_coord(packed, 2);
            assert_eq!(back, c);
        }
    }
}

#[test]
fn out_of_bounds_edges() {
    assert!(is_out_of_bounds(-1, 0, 5, 5));
    assert!(is_out_of_bounds(0, -1, 5, 5));
    assert!(is_out_of_bounds(5, 0, 5, 5));
    assert!(is_out_of_bounds(0, 5, 5, 5));
    assert!(!is_out_of_bounds(0, 0, 5, 5));
    assert!(!is_out_of_bounds(4, 4, 5, 5));
}

#[test]
fn direction_up_decreases_y() {
    assert_eq!(get_direction(Coord { x: 2, y: 1 }, Coord { x: 2, y: 2 }), "up");
}

#[test]
fn direction_down_increases_y() {
    assert_eq!(get_direction(Coord { x: 2, y: 3 }, Coord { x: 2, y: 2 }), "down");
}

#[test]
fn direction_left_and_right() {
    assert_eq!(get_direction(Coord { x: 1, y: 2 }, Coord { x: 2, y: 2 }), "left");
    assert_eq!(get_direction(Coord { x: 3, y: 2 }, Coord { x: 2, y: 2 }), "right");
}

#[test]
fn direction_unknown_for_equal_coords() {
    assert_eq!(get_direction(Coord { x: 2, y: 2 }, Coord { x: 2, y: 2 }), "unknown");
}

#[test]
fn direction_unknown_for_non_adjacent() {
    assert_eq!(get_direction(Coord { x: 2, y: 0 }, Coord { x: 2, y: 2 }), "unknown");
    assert_eq!(get_direction(Coord { x: 0, y: 0 }, Coord { x: 1, y: 1 }), "unknown");
}

#[test]
fn random_coord_stays_in_bounds() {
    for _ in 0..200 {
        let c = random_coord(7, 3);
        assert!(c.x >= 0 && c.x < 7);
        assert!(c.y >= 0 && c.y < 3);
    }
}
