//! The hexagonal board of a game: its cells, its starting pieces, and the
//! sweep that collects the cells.

use crate::board::entries::{has_point, lemma_push_contains};
use crate::board::{Axis, BoardView, Point, COORD_LIMIT};
use crate::colors::Color;
use crate::models::{AxialCoord, Cube};
use vstd::prelude::*;

verus! {

/// The coordinate of cell `p` on a cube axis.
pub open spec fn coord(p: Point, axis: Axis) -> int {
    match axis {
        Axis::X => p.0 as int,
        Axis::Y => -p.0 - p.1,
        Axis::Z => p.1 as int,
    }
}

/// Whether `p` is within `size` steps of the origin, exclusive: each of its
/// cube coordinates is below `size` in magnitude.
pub open spec fn in_hexagon(size: int, p: Point) -> bool {
    &&& -size < coord(p, Axis::X) < size
    &&& -size < coord(p, Axis::Y) < size
    &&& -size < coord(p, Axis::Z) < size
}

/// The cells of the hexagon of the given size.
pub open spec fn hexagon_cells(size: int) -> Set<Point> {
    Set::new(|p: Point| in_hexagon(size, p))
}

/// How many pieces each color starts a game with.
pub const STARTING_PIECES: u32 = 2;

/// Whether `p` is one of the six corners of the hexagon of the given size:
/// the cells at `size - 1` steps from the origin along an axis.
pub open spec fn is_corner(size: int, p: Point) -> bool {
    let s = size - 1;
    let a = (p.0 as int, p.1 as int);
    a == (s, 0int) || a == (s, -s) || a == (0int, -s) || a == (-s, 0int) || a == (-s, s) || a == (
        0int,
        s,
    )
}

/// The starting pieces on the hexagon of the given size: the first color
/// stands on two corners, and the second color on the two corners opposite
/// to them. Where corners coincide the first color stands, and a hexagon
/// too large for its corners to be cells has no pieces.
pub open spec fn hexagon_pieces(size: u32, first_turn: Color, second_color: Color) -> Map<
    Point,
    Color,
> {
    if size - 1 <= i32::MAX {
        let s = (size - 1) as i32;
        let n = (1 - size) as i32;
        Map::empty().insert((n, 0i32), second_color).insert((s, n), second_color).insert(
            (s, 0i32),
            first_turn,
        ).insert((n, s), first_turn)
    } else {
        Map::empty()
    }
}

/// The board that a game starts on.
pub open spec fn hexagon_board(size: u32, first_turn: Color, second_color: Color) -> BoardView {
    BoardView {
        cells: hexagon_cells(size as int),
        max_size: size,
        turn: first_turn,
        pieces: hexagon_pieces(size, first_turn, second_color),
    }
}

/// The value on `cur_axis` of the cube that has `i` on `axis1`, `j` on
/// `axis2` and lies on the grid.
pub open spec fn axis_value(axis1: Axis, axis2: Axis, i: int, j: int, cur_axis: Axis) -> int {
    if cur_axis == axis1 {
        i
    } else if cur_axis == axis2 {
        j
    } else {
        -j - i
    }
}

/// Cells of the hexagon with `i` on `axis1` and nothing negative on `axis2`.
pub open spec fn on_line(size: int, axis1: Axis, axis2: Axis, i: int, p: Point) -> bool {
    &&& in_hexagon(size, p)
    &&& coord(p, axis1) == i
    &&& coord(p, axis2) >= 0
}

/// Whether `p` has nothing negative on some axis other than `axis1`.
pub open spec fn other_axis_nonnegative(axis1: Axis, p: Point) -> bool {
    ||| axis1 != Axis::X && coord(p, Axis::X) >= 0
    ||| axis1 != Axis::Y && coord(p, Axis::Y) >= 0
    ||| axis1 != Axis::Z && coord(p, Axis::Z) >= 0
}

pub(super) fn get_val_for_axis(axis1: Axis, axis2: Axis, i: i32, j: i32, cur_axis: Axis) -> (v: i32)
    requires
        -COORD_LIMIT < i < COORD_LIMIT,
        -COORD_LIMIT < j < COORD_LIMIT,
    ensures
        v == axis_value(axis1, axis2, i as int, j as int, cur_axis),
{
    if cur_axis == axis1 {
        i
    } else if cur_axis == axis2 {
        j
    } else {
        -j - i
    }
}

/// One coordinate of a corner of the first color: `far` where `c` is 0,
/// `-far` where `c` is 1, and 0 otherwise.
pub open spec fn corner_coord(c: int, far: int) -> int {
    if c == 0 {
        far
    } else if c == 1 {
        -far
    } else {
        0
    }
}

/// The `i`-th corner of the first color, as an axial pair: the corner
/// triple turns by one axis with each `i`.
pub open spec fn corner(i: int, far: int) -> Point {
    (corner_coord(i, far) as i32, corner_coord((i + 2) % 3, far) as i32)
}

/// The cell opposite to `p` across the origin.
pub open spec fn opposite(p: Point) -> Point {
    ((-p.0) as i32, (-p.1) as i32)
}

/// The pieces after the first `k` corners of each color were set, a corner
/// keeping the piece that was put on it first.
pub open spec fn corner_pieces_upto(
    size: u32,
    first_turn: Color,
    second_color: Color,
    k: int,
) -> Map<Point, Color>
    decreases k,
{
    if k <= 0 {
        Map::empty()
    } else {
        let far = size - 1;
        let prev = corner_pieces_upto(size, first_turn, second_color, k - 1);
        let mine = corner(k - 1, far);
        let theirs = opposite(mine);
        let with_mine = if prev.contains_key(mine) {
            prev
        } else {
            prev.insert(mine, first_turn)
        };
        if with_mine.contains_key(theirs) {
            with_mine
        } else {
            with_mine.insert(theirs, second_color)
        }
    }
}

pub(super) proof fn lemma_corner_pieces(size: u32, first_turn: Color, second_color: Color)
    requires
        1 <= size <= COORD_LIMIT,
    ensures
        corner_pieces_upto(size, first_turn, second_color, STARTING_PIECES as int)
            == hexagon_pieces(size, first_turn, second_color),
{
    reveal_with_fuel(corner_pieces_upto, 3);
    assert(corner_pieces_upto(size, first_turn, second_color, 2) =~= hexagon_pieces(
        size,
        first_turn,
        second_color,
    ));
}

pub(super) fn corner_value(c: u32, far: i32) -> (v: i32)
    requires
        0 <= far < COORD_LIMIT,
    ensures
        v == corner_coord(c as int, far as int),
{
    if c == 0 {
        far
    } else if c == 1 {
        -far
    } else {
        0
    }
}

/// Adds the cells of the hexagon with `i` on `axis1` and `0, 1, ..` on
/// `axis2` that `points` does not hold yet.
pub(super) fn sweep_line(points: &mut Vec<Point>, size: i32, axis1: Axis, axis2: Axis, i: i32)
    requires
        1 <= size <= COORD_LIMIT,
        axis1 != axis2,
        -size < i < size,
        old(points)@.no_duplicates(),
    ensures
        final(points)@.no_duplicates(),
        forall|p: Point|
            #[trigger] final(points)@.contains(p) <==> (old(points)@.contains(p) || on_line(
                size as int,
                axis1,
                axis2,
                i as int,
                p,
            )),
{
    let mut j: i32 = 0;
    while j < size
        invariant
            0 <= j <= size,
            1 <= size <= COORD_LIMIT,
            axis1 != axis2,
            -size < i < size,
            points@.no_duplicates(),
            forall|p: Point|
                #[trigger] points@.contains(p) <==> (old(points)@.contains(p) || (on_line(
                    size as int,
                    axis1,
                    axis2,
                    i as int,
                    p,
                ) && coord(p, axis2) < j)),
        decreases size - j,
    {
        let cube = Cube {
            x: get_val_for_axis(axis1, axis2, i, j, Axis::X),
            y: get_val_for_axis(axis1, axis2, i, j, Axis::Y),
            z: get_val_for_axis(axis1, axis2, i, j, Axis::Z),
        };
        let ghost before = points@;
        if -size < cube.x && cube.x < size && -size < cube.y && cube.y < size && -size < cube.z
            && cube.z < size {
            let axial = AxialCoord::from(cube);
            let point: Point = (axial.q, axial.r);
            if !has_point(points, &point) {
                points.push(point);
                proof {
                    lemma_push_contains(before, point);
                }
            }
            assert forall|p: Point|
                #[trigger] points@.contains(p) <==> (old(points)@.contains(p) || (on_line(
                    size as int,
                    axis1,
                    axis2,
                    i as int,
                    p,
                ) && coord(p, axis2) < j + 1)) by {
                assert(points@.contains(p) <==> (before.contains(p) || p == point));
                assert((on_line(size as int, axis1, axis2, i as int, p) && coord(p, axis2) == j)
                    <==> p == point);
            }
        } else {
            assert forall|p: Point|
                #[trigger] points@.contains(p) <==> (old(points)@.contains(p) || (on_line(
                    size as int,
                    axis1,
                    axis2,
                    i as int,
                    p,
                ) && coord(p, axis2) < j + 1)) by {
                assert(!(on_line(size as int, axis1, axis2, i as int, p) && coord(p, axis2) == j));
            }
        }
        j += 1;
    }
}

/// Adds the cells of the hexagon with `i` on `axis1` and nothing negative
/// on one of the other axes.
pub(super) fn sweep_fan(points: &mut Vec<Point>, size: i32, axis1: Axis, i: i32)
    requires
        1 <= size <= COORD_LIMIT,
        -size < i < size,
        old(points)@.no_duplicates(),
    ensures
        final(points)@.no_duplicates(),
        forall|p: Point|
            #[trigger] final(points)@.contains(p) <==> (old(points)@.contains(p) || (in_hexagon(
                size as int,
                p,
            )
                && coord(p, axis1) == i && other_axis_nonnegative(axis1, p))),
{
    if axis1 != Axis::X {
        sweep_line(points, size, axis1, Axis::X, i);
    }
    if axis1 != Axis::Y {
        sweep_line(points, size, axis1, Axis::Y, i);
    }
    if axis1 != Axis::Z {
        sweep_line(points, size, axis1, Axis::Z, i);
    }
}

/// Adds the cells of the hexagon with nothing negative on one of the axes
/// other than `axis1`.
pub(super) fn sweep_axis(points: &mut Vec<Point>, size: i32, axis1: Axis)
    requires
        1 <= size <= COORD_LIMIT,
        old(points)@.no_duplicates(),
    ensures
        final(points)@.no_duplicates(),
        forall|p: Point|
            #[trigger] final(points)@.contains(p) <==> (old(points)@.contains(p) || (in_hexagon(
                size as int,
                p,
            )
                && other_axis_nonnegative(axis1, p))),
{
    let mut iu: i32 = 0;
    while iu < size
        invariant
            0 <= iu <= size,
            1 <= size <= COORD_LIMIT,
            points@.no_duplicates(),
            forall|p: Point|
                #[trigger] points@.contains(p) <==> (old(points)@.contains(p) || (in_hexagon(
                    size as int,
                    p,
                )
                    && other_axis_nonnegative(axis1, p) && -iu < coord(p, axis1) < iu)),
        decreases size - iu,
    {
        let ghost s0 = points@;
        sweep_fan(points, size, axis1, -iu);
        let ghost s1 = points@;
        sweep_fan(points, size, axis1, iu);
        assert forall|p: Point|
            points@.contains(p) <==> (old(points)@.contains(p) || (in_hexagon(size as int, p)
                && other_axis_nonnegative(axis1, p) && -(iu + 1) < coord(p, axis1) < iu + 1)) by {
            assert(s1.contains(p) <==> (s0.contains(p) || (in_hexagon(size as int, p) && coord(
                p,
                axis1,
            ) == -iu && other_axis_nonnegative(axis1, p))));
            assert(points@.contains(p) <==> (s1.contains(p) || (in_hexagon(size as int, p)
                && coord(p, axis1) == iu && other_axis_nonnegative(axis1, p))));
        }
        iu += 1;
    }
    assert forall|p: Point|
        points@.contains(p) <==> (old(points)@.contains(p) || (in_hexagon(size as int, p)
            && other_axis_nonnegative(axis1, p))) by {
        assert(in_hexagon(size as int, p) ==> -size < coord(p, axis1) < size);
    }
}

} // verus!
