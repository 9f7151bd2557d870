use hexagon::board::Point;
use hexagon::models::{AxialCoord, Cube, OffsetCoord};

#[test]
fn axial_to_cube_puts_the_negated_sum_on_y() {
    let cube = Cube::from_axial(AxialCoord { q: 3, r: -5 });
    assert_eq!(cube, Cube { x: 3, y: 2, z: -5 });
    assert_eq!(cube.x + cube.y + cube.z, 0);
}

#[test]
fn cube_to_axial_keeps_x_and_z() {
    assert_eq!(AxialCoord::from(Cube { x: 4, y: -1, z: -3 }), AxialCoord { q: 4, r: -3 });
}

#[test]
fn axial_round_trip_is_identity() {
    for q in -9..10 {
        for r in -9..10 {
            let axial = AxialCoord { q, r };
            assert_eq!(AxialCoord::from(Cube::from_axial(axial)), axial);
        }
    }
}

#[test]
fn offset_to_cube_on_an_even_row() {
    assert_eq!(Cube::from_offset(OffsetCoord { col: 3, row: 4 }), Cube { x: 1, y: -5, z: 4 });
}

#[test]
fn offset_to_cube_on_an_odd_row() {
    assert_eq!(Cube::from_offset(OffsetCoord { col: 3, row: 5 }), Cube { x: 1, y: -6, z: 5 });
}

#[test]
fn offset_to_cube_on_a_negative_odd_row() {
    assert_eq!(Cube::from_offset(OffsetCoord { col: 3, row: -3 }), Cube { x: 5, y: -2, z: -3 });
}

#[test]
fn cube_to_offset_on_a_negative_odd_row() {
    assert_eq!(OffsetCoord::from_cube(Cube { x: 5, y: -2, z: -3 }), OffsetCoord { col: 3, row: -3 });
}

#[test]
fn offset_round_trip_is_identity() {
    for col in -9..10 {
        for row in -9..10 {
            let offset = OffsetCoord { col, row };
            assert_eq!(OffsetCoord::from_cube(Cube::from_offset(offset)), offset);
        }
    }
}

#[test]
fn offset_of_axial_goes_through_the_cube() {
    assert_eq!(OffsetCoord::from_axial(AxialCoord { q: 5, r: -3 }), OffsetCoord { col: 3, row: -3 });
    assert_eq!(OffsetCoord::from_axial(AxialCoord { q: 0, r: 0 }), OffsetCoord { col: 0, row: 0 });
    assert_eq!(OffsetCoord::from_axial(AxialCoord { q: 1, r: 5 }), OffsetCoord { col: 3, row: 5 });
}

#[test]
fn cube_addition_is_componentwise() {
    let sum = Cube { x: 1, y: -3, z: 2 }.add(Cube { x: -1, y: 0, z: 1 });
    assert_eq!(sum, Cube { x: 0, y: -3, z: 3 });
}

#[test]
fn conversions_reach_the_ends_of_the_range() {
    let far = AxialCoord { q: i32::MAX, r: 0 };
    assert_eq!(Cube::from_axial(far), Cube { x: i32::MAX, y: -i32::MAX, z: 0 });
    let low = AxialCoord { q: i32::MIN, r: 1 };
    assert_eq!(Cube::from_axial(low), Cube { x: i32::MIN, y: i32::MAX, z: 1 });
}

#[test]
fn points_and_axial_coordinates_convert_both_ways() {
    let point: Point = (2, -7);
    let axial = AxialCoord::from(point);
    assert_eq!(axial, AxialCoord { q: 2, r: -7 });
    let back: Point = Point::from(axial);
    assert_eq!(back, point);
}
