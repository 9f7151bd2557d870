//! Hex-grid coordinates in their three forms (axial, cube, offset) and the
//! conversions between them. All arithmetic is exact integer arithmetic.

use vstd::prelude::*;

verus! {

/// Axial coordinates `(q, r)`: the canonical identity of a cell.
#[derive(Debug, Clone, Copy, PartialEq, Eq, Structural)]
pub struct AxialCoord {
    pub q: i32,
    pub r: i32,
}

/// Cube coordinates `(x, y, z)`; a cube names a cell when `x + y + z == 0`.
#[derive(Debug, Clone, Copy, PartialEq, Eq, Structural)]
pub struct Cube {
    pub x: i32,
    pub y: i32,
    pub z: i32,
}

/// Offset coordinates `(col, row)`, rows shifted by half a cell alternately.
#[derive(Debug, Clone, Copy, PartialEq, Eq, Structural)]
pub struct OffsetCoord {
    pub col: i32,
    pub row: i32,
}

/// The cube that an axial pair names.
pub open spec fn axial_to_cube(a: (int, int)) -> (int, int, int) {
    (a.0, -a.0 - a.1, a.1)
}

/// The axial pair of a cube.
pub open spec fn cube_to_axial(c: (int, int, int)) -> (int, int) {
    (c.0, c.2)
}

/// Half of `row`, rounded towards negative infinity.
pub open spec fn half_row(row: int) -> int {
    (row - row % 2) / 2
}

/// The cube that an offset pair `(col, row)` names.
pub open spec fn offset_to_cube(o: (int, int)) -> (int, int, int) {
    let x = o.0 - half_row(o.1);
    (x, -x - o.1, o.1)
}

/// The offset pair `(col, row)` of a cube.
pub open spec fn cube_to_offset(c: (int, int, int)) -> (int, int) {
    (c.0 + half_row(c.2), c.2)
}

/// Componentwise sum of two cubes.
pub open spec fn cube_sum(a: (int, int, int), b: (int, int, int)) -> (int, int, int) {
    (a.0 + b.0, a.1 + b.1, a.2 + b.2)
}

/// Whether a cube lies on the plane `x + y + z == 0`.
pub open spec fn cube_on_grid(c: (int, int, int)) -> bool {
    c.0 + c.1 + c.2 == 0
}

/// Whether each component of a cube fits in an `i32`.
pub open spec fn cube_fits(c: (int, int, int)) -> bool {
    &&& i32::MIN <= c.0 <= i32::MAX
    &&& i32::MIN <= c.1 <= i32::MAX
    &&& i32::MIN <= c.2 <= i32::MAX
}

/// Whether each component of a pair fits in an `i32`.
pub open spec fn pair_fits(p: (int, int)) -> bool {
    &&& i32::MIN <= p.0 <= i32::MAX
    &&& i32::MIN <= p.1 <= i32::MAX
}

impl View for AxialCoord {
    type V = (int, int);

    open spec fn view(&self) -> (int, int) {
        (self.q as int, self.r as int)
    }
}

impl View for Cube {
    type V = (int, int, int);

    open spec fn view(&self) -> (int, int, int) {
        (self.x as int, self.y as int, self.z as int)
    }
}

impl View for OffsetCoord {
    type V = (int, int);

    open spec fn view(&self) -> (int, int) {
        (self.col as int, self.row as int)
    }
}

/// Axial to cube and back is the identity, for every axial pair.
pub proof fn lemma_axial_cube_axial(a: (int, int))
    ensures
        cube_to_axial(axial_to_cube(a)) == a,
        cube_on_grid(axial_to_cube(a)),
{
}

/// Cube to axial and back is the identity, for every cube on the grid.
pub proof fn lemma_cube_axial_cube(c: (int, int, int))
    requires
        cube_on_grid(c),
    ensures
        axial_to_cube(cube_to_axial(c)) == c,
{
}

/// Offset to cube and back is the identity, for every offset pair.
pub proof fn lemma_offset_cube_offset(o: (int, int))
    ensures
        cube_to_offset(offset_to_cube(o)) == o,
        cube_on_grid(offset_to_cube(o)),
{
}

/// Cube to offset and back is the identity, for every cube on the grid.
pub proof fn lemma_cube_offset_cube(c: (int, int, int))
    requires
        cube_on_grid(c),
    ensures
        offset_to_cube(cube_to_offset(c)) == c,
{
}

/// Offset to axial (through the cube) and back is the identity.
pub proof fn lemma_offset_axial_offset(o: (int, int))
    ensures
        cube_to_offset(axial_to_cube(cube_to_axial(offset_to_cube(o)))) == o,
{
}

/// The sum of two cubes on the grid is on the grid.
pub proof fn lemma_cube_sum_on_grid(a: (int, int, int), b: (int, int, int))
    requires
        cube_on_grid(a),
        cube_on_grid(b),
    ensures
        cube_on_grid(cube_sum(a, b)),
{
}

/// `row & 1` is the parity of `row`, also for negative rows.
proof fn lemma_low_bit(row: i32)
    ensures
        (row & 1) as int == (row as int) % 2,
        i32::MIN <= row - (row & 1) <= i32::MAX,
        (row - (row & 1)) / 2 == half_row(row as int),
{
    assert(row & 1 == 0 || row & 1 == 1) by (bit_vector);
    assert((row & 1 == 0) ==> (row % 2 == 0)) by (bit_vector);
    assert((row & 1 == 1) ==> (row % 2 != 0)) by (bit_vector);
}

impl From<Cube> for AxialCoord {
    fn from(cube: Cube) -> (a: AxialCoord) {
        AxialCoord { q: cube.x, r: cube.z }
    }
}

impl vstd::std_specs::convert::FromSpecImpl<Cube> for AxialCoord {
    open spec fn obeys_from_spec() -> bool {
        true
    }

    open spec fn from_spec(cube: Cube) -> AxialCoord {
        AxialCoord { q: cube.x, r: cube.z }
    }
}

impl Cube {
    /// The cube of an axial coordinate.
    pub fn from_axial(axial: AxialCoord) -> (c: Cube)
        requires
            cube_fits(axial_to_cube(axial@)),
        ensures
            c@ == axial_to_cube(axial@),
    {
        let y: i64 = 0 - (axial.q as i64) - (axial.r as i64);
        Cube { y: y as i32, x: axial.q, z: axial.r }
    }

    /// The cube of an offset coordinate.
    pub fn from_offset(hex: OffsetCoord) -> (c: Cube)
        requires
            cube_fits(offset_to_cube(hex@)),
        ensures
            c@ == offset_to_cube(hex@),
    {
        proof {
            lemma_low_bit(hex.row);
        }
        let x: i32 = hex.col - (hex.row - (hex.row & 1)) / 2;
        let z: i32 = hex.row;
        let y: i64 = 0 - (x as i64) - (z as i64);
        Cube { x, y: y as i32, z }
    }

    /// Componentwise sum.
    pub fn add(self, rhs: Cube) -> (c: Cube)
        requires
            cube_fits(cube_sum(self@, rhs@)),
        ensures
            c@ == cube_sum(self@, rhs@),
    {
        Cube { x: self.x + rhs.x, y: self.y + rhs.y, z: self.z + rhs.z }
    }
}

impl OffsetCoord {
    /// The offset coordinate of a cube.
    pub fn from_cube(cube: Cube) -> (o: OffsetCoord)
        requires
            pair_fits(cube_to_offset(cube@)),
        ensures
            o@ == cube_to_offset(cube@),
    {
        proof {
            lemma_low_bit(cube.z);
        }
        OffsetCoord { col: cube.x + (cube.z - (cube.z & 1)) / 2, row: cube.z }
    }

    /// The offset coordinate of an axial coordinate.
    pub fn from_axial(ax: AxialCoord) -> (o: OffsetCoord)
        requires
            cube_fits(axial_to_cube(ax@)),
            pair_fits(cube_to_offset(axial_to_cube(ax@))),
        ensures
            o@ == cube_to_offset(axial_to_cube(ax@)),
    {
        OffsetCoord::from_cube(Cube::from_axial(ax))
    }
}

} // verus!
