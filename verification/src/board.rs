//! The board engine: which cells exist, who holds which cell, whose turn it
//! is, which moves are legal and what a move captures.

pub mod entries;
pub mod hexagon;
pub mod honeycomb;
pub mod laws;

use crate::board::entries::{
    check_pieces, check_points, colored, copy_entries, copy_points, has_point,
    lemma_colored_cells, lemma_colored_push, lemma_entries_dom, lemma_entries_lookup, piece_of,
    put_if_absent, remove_piece, set_piece,
};
pub use crate::board::entries::{distinct_keys, entries_map, entry_keys};
use crate::board::hexagon::{corner_pieces_upto, corner_value, lemma_corner_pieces, sweep_axis};
pub use crate::board::hexagon::{
    coord, hexagon_board, hexagon_cells, hexagon_pieces, in_hexagon, is_corner, opposite,
    STARTING_PIECES,
};
use crate::board::honeycomb::{filled, honeycomb_column, pick_one, place_piece};
pub use crate::board::honeycomb::{honeycomb_cells, in_honeycomb};
pub use crate::board::laws::{lemma_adjacent_symmetric, lemma_starting_pieces};
use crate::colors::Color;
use crate::models::{axial_to_cube, cube_sum, cube_to_axial, half_row, pair_fits, AxialCoord, Cube};
use crate::structures::Move;
use vstd::prelude::*;

verus! {

/// A cell's identity: its axial pair `(q, r)`.
pub type Point = (i32, i32);

/// No cell of a board has a coordinate of this magnitude or more.
pub const COORD_LIMIT: i32 = 1073741824;

impl From<Point> for AxialCoord {
    fn from(p: Point) -> (a: AxialCoord) {
        AxialCoord { q: p.0, r: p.1 }
    }
}

impl vstd::std_specs::convert::FromSpecImpl<Point> for AxialCoord {
    open spec fn obeys_from_spec() -> bool {
        true
    }

    open spec fn from_spec(p: Point) -> AxialCoord {
        AxialCoord { q: p.0, r: p.1 }
    }
}

impl From<AxialCoord> for Point {
    fn from(p: AxialCoord) -> (r: Point) {
        (p.q, p.r)
    }
}

impl vstd::std_specs::convert::FromSpecImpl<AxialCoord> for Point {
    open spec fn obeys_from_spec() -> bool {
        true
    }

    open spec fn from_spec(p: AxialCoord) -> Point {
        (p.q, p.r)
    }
}

/// The three cube axes.
#[derive(Debug, Clone, Copy, PartialEq, Eq, Structural)]
pub enum Axis {
    X,
    Y,
    Z,
}

/// The six unit steps of the grid, as cubes, in the order in which
/// neighbours are listed.
pub open spec fn cube_directions() -> Seq<(int, int, int)> {
    seq![(1, -1, 0), (1, 0, -1), (0, 1, -1), (-1, 1, 0), (-1, 0, 1), (0, -1, 1)]
}

/// The axial pair one step from `p` in direction `k`.
pub open spec fn step(p: Point, k: int) -> (int, int) {
    cube_to_axial(cube_sum(axial_to_cube((p.0 as int, p.1 as int)), cube_directions()[k]))
}

/// Whether `b` is one step from `a`.
pub open spec fn adjacent(a: Point, b: Point) -> bool {
    exists|k: int| 0 <= k < 6 && #[trigger] step(a, k) == (b.0 as int, b.1 as int)
}

/// Whether both coordinates of a cell are below the coordinate limit in
/// magnitude.
pub open spec fn in_range(p: Point) -> bool {
    &&& -COORD_LIMIT < p.0 < COORD_LIMIT
    &&& -COORD_LIMIT < p.1 < COORD_LIMIT
}

/// What a board is: its cells, its nominal size, whose turn it is, and the
/// color on each occupied cell.
pub struct BoardView {
    pub cells: Set<Point>,
    pub max_size: u32,
    pub turn: Color,
    pub pieces: Map<Point, Color>,
}

impl BoardView {
    /// Every piece stands on a cell, and every cell is within the
    /// coordinate limit.
    pub open spec fn inv(self) -> bool {
        &&& forall|p: Point| #[trigger] self.pieces.contains_key(p) ==> self.cells.contains(p)
        &&& forall|p: Point| #[trigger] self.cells.contains(p) ==> in_range(p)
    }

    /// Whether the axial pair `a` is a cell of the board.
    pub open spec fn has_cell(self, a: (int, int)) -> bool {
        pair_fits(a) && self.cells.contains((a.0 as i32, a.1 as i32))
    }

    /// The cell one step from `p` in direction `k`, if the board has it.
    pub open spec fn neighbour_at(self, p: Point, k: int) -> Seq<Point> {
        let a = step(p, k);
        if self.has_cell(a) {
            seq![(a.0 as i32, a.1 as i32)]
        } else {
            Seq::empty()
        }
    }

    /// The cells one step from `p` in the first `k` directions.
    pub open spec fn neighbours_upto(self, p: Point, k: int) -> Seq<Point>
        decreases k,
    {
        if k <= 0 {
            Seq::empty()
        } else {
            self.neighbours_upto(p, k - 1) + self.neighbour_at(p, k - 1)
        }
    }

    /// The cells of the board one step from `p`, in direction order; none
    /// when `p` is not itself a cell.
    pub open spec fn neighbours(self, p: Point) -> Seq<Point> {
        if self.cells.contains(p) {
            self.neighbours_upto(p, 6)
        } else {
            Seq::empty()
        }
    }

    /// The neighbours of the first `k` cells of `via`, one list after the
    /// other.
    pub open spec fn neighbours_of_all(self, via: Seq<Point>, k: int) -> Seq<Point>
        decreases k,
    {
        if k <= 0 {
            Seq::empty()
        } else {
            self.neighbours_of_all(via, k - 1) + self.neighbours(via[k - 1])
        }
    }

    /// The neighbours of each neighbour of `p`, one list after the other.
    /// A cell may occur more than once, and `p` itself may occur.
    pub open spec fn secondary_neighbours(self, p: Point) -> Seq<Point> {
        self.neighbours_of_all(self.neighbours(p), self.neighbours(p).len() as int)
    }

    /// Whether the player to move may make `mov`.
    pub open spec fn is_move_legal(self, mov: Move) -> bool {
        &&& self.pieces.contains_key(mov.from)
        &&& self.pieces[mov.from] == self.turn
        &&& self.secondary_neighbours(mov.from).contains(mov.to)
        &&& mov.to != mov.from
        &&& !self.pieces.contains_key(mov.to)
    }

    /// The pieces once the mover's piece stands on `mov.to`: a step to a
    /// neighbour leaves the origin occupied, a longer move vacates it.
    pub open spec fn placed(self, mov: Move) -> Map<Point, Color> {
        if self.neighbours(mov.from).contains(mov.to) {
            self.pieces.insert(mov.to, self.turn)
        } else {
            self.pieces.remove(mov.from).insert(mov.to, self.turn)
        }
    }

    /// The board after `mov`: the piece is placed, and every occupied
    /// neighbour of the destination takes the mover's color. An illegal move
    /// changes nothing.
    pub open spec fn apply_move(self, mov: Move) -> BoardView {
        if self.is_move_legal(mov) {
            let placed = self.placed(mov);
            BoardView {
                pieces: Map::new(
                    |p: Point| placed.contains_key(p),
                    |p: Point|
                        if self.neighbours(mov.to).contains(p) {
                            self.turn
                        } else {
                            placed[p]
                        },
                ),
                ..self
            }
        } else {
            self
        }
    }

    /// The cells that hold a piece of color `c`.
    pub open spec fn pieces_of(self, c: Color) -> Set<Point> {
        Set::new(|p: Point| self.pieces.contains_key(p) && self.pieces[p] == c)
    }

    /// The destinations of the legal moves from `p`, in the order of the
    /// secondary neighbours.
    pub open spec fn legal_moves(self, p: Point) -> Seq<Point> {
        self.secondary_neighbours(p).filter(|m: Point| self.is_move_legal(Move { from: p, to: m }))
    }
}


/// Whether a list of cells and a list of (cell, color) entries make a
/// board: no cell and no entry occurs twice, every cell is within the
/// coordinate limit, and every entry stands on one of the cells.
pub open spec fn valid_parts(points: Seq<Point>, pieces: Seq<(Point, Color)>) -> bool {
    &&& points.no_duplicates()
    &&& forall|i: int| 0 <= i < points.len() ==> in_range(#[trigger] points[i])
    &&& distinct_keys(pieces)
    &&& forall|i: int| 0 <= i < pieces.len() ==> points.contains((#[trigger] pieces[i]).0)
}
/// A board: a set of cells, the color on each occupied cell, and whose turn
/// it is.
#[derive(Debug)]
pub struct Board {
    points: Vec<Point>,
    max_size: u32,
    turn: Color,
    pieces: Vec<(Point, Color)>,
}

impl View for Board {
    type V = BoardView;

    closed spec fn view(&self) -> BoardView {
        BoardView {
            cells: self.points@.to_set(),
            max_size: self.max_size,
            turn: self.turn,
            pieces: entries_map(self.pieces@),
        }
    }
}

impl Clone for Board {
    fn clone(&self) -> (copy: Board)
        ensures
            copy@ == self@,
            self.wf() ==> copy.wf(),
    {
        Board {
            points: copy_points(&self.points),
            max_size: self.max_size,
            turn: self.turn,
            pieces: copy_entries(&self.pieces),
        }
    }
}

impl Board {
    /// The board's invariant: no cell and no piece is recorded twice, every
    /// piece stands on a cell, and every cell is within the coordinate limit.
    pub closed spec fn wf(&self) -> bool {
        &&& self.points@.no_duplicates()
        &&& distinct_keys(self.pieces@)
        &&& self@.inv()
    }

    /// A well-formed board has a valid view.
    pub proof fn lemma_wf_inv(&self)
        requires
            self.wf(),
        ensures
            self@.inv(),
    {
    }

    /// The board with the given cells and pieces, if they make one: no cell
    /// and no piece is given twice, every cell is within the coordinate
    /// limit, and every piece stands on one of the cells.
    pub fn new(
        points: Vec<Point>,
        max_size: u32,
        turn: Color,
        pieces: Vec<(Point, Color)>,
    ) -> (board: Option<Board>)
        ensures
            board.is_some() == valid_parts(points@, pieces@),
            match board {
                Some(b) => b.wf() && b@ == (BoardView {
                    cells: points@.to_set(),
                    max_size,
                    turn,
                    pieces: entries_map(pieces@),
                }),
                None => true,
            },
    {
        if check_points(&points) && check_pieces(&points, &pieces) {
            let board = Board { points, max_size, turn, pieces };
            proof {
                assert forall|p: Point| board@.pieces.contains_key(p) implies board@.cells.contains(
                    p,
                ) by {
                    let i = choose|i: int| 0 <= i < pieces@.len() && #[trigger] pieces@[i].0 == p;
                    assert(points@.contains(pieces@[i].0));
                }
            }
            Some(board)
        } else {
            None
        }
    }

    /// The board of a game: every cell within `size` steps of the origin,
    /// exclusive, with two pieces of each color on corners of the hexagon,
    /// those of the second color opposite to those of the first.
    /// `first_turn` moves first.
    pub fn generate_hexagon(size: u32, first_turn: Color, second_color: Color) -> (board: Board)
        requires
            1 <= size <= COORD_LIMIT,
        ensures
            board.wf(),
            board@ == hexagon_board(size, first_turn, second_color),
            forall|p: Point| #[trigger] board@.pieces.contains_key(p) ==> is_corner(size as int, p),
            board@.pieces.dom().finite(),
            size >= 2 ==> board@.pieces.dom().len() == 2 * STARTING_PIECES,
            size >= 2 && first_turn != second_color ==> board@.pieces_of(first_turn).len()
                == STARTING_PIECES && board@.pieces_of(second_color).len() == STARTING_PIECES,
    {
        let mut points: Vec<Point> = Vec::new();
        let width: i32 = size as i32;
        sweep_axis(&mut points, width, Axis::X);
        sweep_axis(&mut points, width, Axis::Y);
        sweep_axis(&mut points, width, Axis::Z);
        assert(forall|p: Point| points@.contains(p) <==> in_hexagon(size as int, p));

        let mut pieces: Vec<(Point, Color)> = Vec::new();
        assert(entries_map(pieces@) =~= Map::empty());
        let far: i32 = width - 1;
        let mut i: u32 = 0;
        while i < STARTING_PIECES
            invariant
                i <= STARTING_PIECES,
                far == size - 1,
                1 <= size <= COORD_LIMIT,
                distinct_keys(pieces@),
                entries_map(pieces@) == corner_pieces_upto(
                    size,
                    first_turn,
                    second_color,
                    i as int,
                ),
            decreases STARTING_PIECES - i,
        {
            let c1: u32 = i;
            let c2: u32 = (i + 1) % 3;
            let c3: u32 = (i + 2) % 3;
            let mine = Cube {
                x: corner_value(c1, far),
                y: corner_value(c2, far),
                z: corner_value(c3, far),
            };
            put_if_absent(&mut pieces, Point::from(AxialCoord::from(mine)), first_turn);
            let theirs = Cube { x: -mine.x, y: -mine.y, z: -mine.z };
            put_if_absent(&mut pieces, Point::from(AxialCoord::from(theirs)), second_color);
            assert(entries_map(pieces@) == corner_pieces_upto(
                size,
                first_turn,
                second_color,
                i as int + 1,
            )) by {
                reveal_with_fuel(corner_pieces_upto, 2);
            }
            i += 1;
        }
        let board = Board { points, max_size: size, turn: first_turn, pieces };
        proof {
            lemma_corner_pieces(size, first_turn, second_color);
            assert(board@.cells =~= hexagon_cells(size as int));
            lemma_starting_pieces(size, first_turn, second_color);
        }
        board
    }

    /// A decorative board: the rectangle of offset columns `-width ..
    /// width` and rows `-height - 2 .. height + 2`, on which each of the two
    /// colors in turn gets a piece on a random free cell, `fill_per_color`
    /// times or until no cell is free. `first_turn` moves first.
    pub fn generate_honeycomb(
        width: i32,
        height: i32,
        fill_per_color: usize,
        first_turn: Color,
        second_color: Color,
    ) -> (board: Board)
        requires
            -COORD_LIMIT / 4 < width < COORD_LIMIT / 4,
            -COORD_LIMIT / 4 < height < COORD_LIMIT / 4,
        ensures
            board.wf(),
            board@.cells == honeycomb_cells(width as int, height as int),
            board@.cells.finite(),
            board@.pieces.dom().finite(),
            board@.pieces.dom().len() == if 2 * fill_per_color <= board@.cells.len() {
                2 * fill_per_color
            } else {
                board@.cells.len() as int
            },
            forall|p: Point| #[trigger]
                board@.pieces.contains_key(p) ==> board@.pieces[p] == first_turn
                    || board@.pieces[p] == second_color,
            first_turn != second_color ==> board@.pieces_of(first_turn).len() == (
            board@.pieces.dom().len() + 1) / 2,
            first_turn != second_color ==> board@.pieces_of(second_color).len()
                == board@.pieces.dom().len() / 2,
            board@.turn == first_turn,
            board@.max_size == width as u32,
    {
        let mut points: Vec<Point> = Vec::new();
        let mut i: i32 = -width;
        while i < width
            invariant
                -COORD_LIMIT / 4 < width < COORD_LIMIT / 4,
                -COORD_LIMIT / 4 < height < COORD_LIMIT / 4,
                -width <= i,
                i <= width || width <= -width,
                points@.no_duplicates(),
                forall|p: Point|
                    #[trigger] points@.contains(p) <==> (in_honeycomb(
                        width as int,
                        height as int,
                        p,
                    ) && p.0 + half_row(p.1 as int) < i),
            decreases width - i,
        {
            honeycomb_column(&mut points, width, height, i);
            i += 1;
        }
        assert forall|p: Point| #[trigger]
            points@.contains(p) <==> in_honeycomb(width as int, height as int, p) by {}

        let mut free = copy_points(&points);
        let mut pieces: Vec<(Point, Color)> = Vec::new();
        assert(entries_map(pieces@) =~= Map::empty());
        let mut round: usize = 0;
        while round < fill_per_color
            invariant
                round <= fill_per_color,
                filled(points@, free@, pieces@, first_turn, second_color),
                pieces@.len() == if 2 * round <= points@.len() {
                    2 * round
                } else {
                    points@.len() as int
                },
                first_turn != second_color ==> colored(pieces@, first_turn) == (pieces@.len() + 1)
                    / 2,
                first_turn != second_color ==> colored(pieces@, second_color) == pieces@.len() / 2,
            decreases fill_per_color - round,
        {
            let picked = pick_one(&free);
            place_piece(
                &mut pieces,
                &mut free,
                picked,
                first_turn,
                Ghost(points@),
                Ghost(first_turn),
                Ghost(second_color),
            );
            let picked = pick_one(&free);
            place_piece(
                &mut pieces,
                &mut free,
                picked,
                second_color,
                Ghost(points@),
                Ghost(first_turn),
                Ghost(second_color),
            );
            round += 1;
        }
        let board = Board {
            points,
            max_size: #[verifier::truncate]
            (width as u32),
            turn: first_turn,
            pieces,
        };
        proof {
            assert(board@.cells =~= honeycomb_cells(width as int, height as int));
            board.points@.unique_seq_to_set();
            vstd::seq_lib::seq_to_set_is_finite(board.points@);
            lemma_entries_dom(board.pieces@);
            lemma_colored_cells(board.pieces@, first_turn);
            lemma_colored_cells(board.pieces@, second_color);
            assert(board@.pieces_of(first_turn) =~= Set::new(
                |p: Point|
                    entries_map(board.pieces@).contains_key(p) && entries_map(board.pieces@)[p]
                        == first_turn,
            ));
            assert(board@.pieces_of(second_color) =~= Set::new(
                |p: Point|
                    entries_map(board.pieces@).contains_key(p) && entries_map(board.pieces@)[p]
                        == second_color,
            ));
            assert forall|p: Point| #[trigger] board@.pieces.contains_key(p) implies (
            board@.pieces[p] == first_turn || board@.pieces[p] == second_color) by {
                let k = choose|k: int|
                    0 <= k < board.pieces@.len() && #[trigger] board.pieces@[k].0 == p;
                lemma_entries_lookup(board.pieces@, k);
            }
        }
        board
    }

    /// Whether `point` is a cell of the board.
    pub fn contains_point(&self, point: &Point) -> (found: bool)
        ensures
            found == self@.cells.contains(*point),
    {
        has_point(&self.points, point)
    }

    /// The color on `point`, if it holds a piece.
    pub fn piece_at(&self, point: &Point) -> (c: Option<Color>)
        requires
            self.wf(),
        ensures
            c == if self@.pieces.contains_key(*point) {
                Some(self@.pieces[*point])
            } else {
                None
            },
    {
        piece_of(&self.pieces, point)
    }

    /// The cells of the board, each once.
    pub fn points(&self) -> (cells: Vec<Point>)
        requires
            self.wf(),
        ensures
            cells@.no_duplicates(),
            cells@.to_set() == self@.cells,
    {
        copy_points(&self.points)
    }

    /// The occupied cells, each once, with the color on it.
    pub fn pieces(&self) -> (entries: Vec<(Point, Color)>)
        requires
            self.wf(),
        ensures
            distinct_keys(entries@),
            entries_map(entries@) == self@.pieces,
    {
        copy_entries(&self.pieces)
    }

    /// How many cells hold a piece of the given color.
    pub fn piece_count(&self, color: Color) -> (n: usize)
        requires
            self.wf(),
        ensures
            self@.pieces_of(color).finite(),
            n == self@.pieces_of(color).len(),
    {
        let mut n: usize = 0;
        let mut i: usize = 0;
        while i < self.pieces.len()
            invariant
                i <= self.pieces.len(),
                n <= i,
                n == colored(self.pieces@.take(i as int), color),
            decreases self.pieces.len() - i,
        {
            proof {
                self.pieces@.lemma_take_succ_push(i as int);
                lemma_colored_push(self.pieces@.take(i as int), self.pieces@[i as int], color);
            }
            if self.pieces[i].1 == color {
                n += 1;
            }
            i += 1;
        }
        proof {
            self.pieces@.lemma_take_len();
            lemma_colored_cells(self.pieces@, color);
            assert(self@.pieces_of(color) =~= Set::new(
                |p: Point|
                    entries_map(self.pieces@).contains_key(p) && entries_map(self.pieces@)[p]
                        == color,
            ));
        }
        n
    }

    /// The color whose turn it is.
    pub fn turn(&self) -> (c: Color)
        ensures
            c == self@.turn,
    {
        self.turn
    }

    /// The size the board was made with.
    pub fn max_size(&self) -> (n: u32)
        ensures
            n == self@.max_size,
    {
        self.max_size
    }

    /// The cells of the board one step from `point`, in direction order.
    pub fn get_neighbours(&self, point: &Point) -> (neighbours: Vec<Point>)
        requires
            self.wf(),
        ensures
            neighbours@ == self@.neighbours(*point),
    {
        let mut neighbours: Vec<Point> = Vec::new();
        if has_point(&self.points, point) {
            let dirs: [Cube; 6] = [
                Cube { x: 1, y: -1, z: 0 },
                Cube { x: 1, y: 0, z: -1 },
                Cube { x: 0, y: 1, z: -1 },
                Cube { x: -1, y: 1, z: 0 },
                Cube { x: -1, y: 0, z: 1 },
                Cube { x: 0, y: -1, z: 1 },
            ];
            assert(self@.cells.contains(*point));
            let cb = Cube::from_axial(AxialCoord::from(*point));
            let mut k: usize = 0;
            while k < 6
                invariant
                    k <= 6,
                    self.wf(),
                    in_range(*point),
                    cb@ == axial_to_cube((point.0 as int, point.1 as int)),
                    dirs@.len() == 6,
                    forall|j: int| 0 <= j < 6 ==> (#[trigger] dirs@[j])@ == cube_directions()[j],
                    neighbours@ == self@.neighbours_upto(*point, k as int),
                decreases 6 - k,
            {
                let dir = dirs[k];
                assert(dir@ == cube_directions()[k as int]);
                let neighbour = cb.add(dir);
                let neighbour_ax = AxialCoord::from(neighbour);
                let pt: Point = (neighbour_ax.q, neighbour_ax.r);
                assert((pt.0 as int, pt.1 as int) == step(*point, k as int));
                if has_point(&self.points, &pt) {
                    neighbours.push(pt);
                }
                assert(neighbours@ == self@.neighbours_upto(*point, k as int + 1)) by {
                    reveal_with_fuel(BoardView::neighbours_upto, 2);
                    assert(neighbours@ =~= self@.neighbours_upto(*point, k as int)
                        + self@.neighbour_at(*point, k as int));
                }
                k += 1;
            }
        }
        neighbours
    }

    /// The neighbours of each neighbour of `point`, one list after the
    /// other. A cell may occur more than once, and `point` itself may occur.
    pub fn get_secondary_neighbours(&self, point: &Point) -> (secondaryneighbours: Vec<Point>)
        requires
            self.wf(),
        ensures
            secondaryneighbours@ == self@.secondary_neighbours(*point),
    {
        let mut secondaryneighbours: Vec<Point> = Vec::new();
        let neighbourpts = self.get_neighbours(point);
        let mut i: usize = 0;
        while i < neighbourpts.len()
            invariant
                i <= neighbourpts.len(),
                self.wf(),
                neighbourpts@ == self@.neighbours(*point),
                secondaryneighbours@ == self@.neighbours_of_all(neighbourpts@, i as int),
            decreases neighbourpts.len() - i,
        {
            let mut more = self.get_neighbours(&neighbourpts[i]);
            secondaryneighbours.append(&mut more);
            i += 1;
        }
        secondaryneighbours
    }

    /// Whether the player to move may make `mov`: the origin holds a piece
    /// of the color to move, and the destination is an empty cell other
    /// than the origin among the origin's secondary neighbours.
    pub fn is_move_legal(&self, mov: &Move) -> (legal: bool)
        requires
            self.wf(),
        ensures
            legal == self@.is_move_legal(*mov),
    {
        if let Some(piece) = piece_of(&self.pieces, &mov.from) {
            if piece != self.turn {
                false
            } else {
                let secondaryneighbours = self.get_secondary_neighbours(&mov.from);
                if has_point(&secondaryneighbours, &mov.to) {
                    if mov.to.0 == mov.from.0 && mov.to.1 == mov.from.1 {
                        false
                    } else {
                        piece_of(&self.pieces, &mov.to).is_none()
                    }
                } else {
                    false
                }
            }
        } else {
            false
        }
    }

    /// The destinations of the legal moves from `pt`, in the order of its
    /// secondary neighbours.
    pub fn get_legal_moves(&self, pt: &Point) -> (moves: Vec<Point>)
        requires
            self.wf(),
        ensures
            moves@ == self@.legal_moves(*pt),
    {
        let secn = self.get_secondary_neighbours(pt);
        let mut moves: Vec<Point> = Vec::new();
        let ghost pred = |m: Point| self@.is_move_legal(Move { from: *pt, to: m });
        let mut i: usize = 0;
        while i < secn.len()
            invariant
                i <= secn.len(),
                self.wf(),
                secn@ == self@.secondary_neighbours(*pt),
                pred == |m: Point| self@.is_move_legal(Move { from: *pt, to: m }),
                moves@ == secn@.take(i as int).filter(pred),
            decreases secn.len() - i,
        {
            let m = secn[i];
            proof {
                secn@.lemma_take_succ_push(i as int);
                secn@.take(i as int).lemma_filter_push(m, pred);
            }
            if self.is_move_legal(&Move { from: *pt, to: m }) {
                moves.push(m);
            }
            i += 1;
        }
        proof {
            secn@.lemma_take_len();
        }
        moves
    }

    /// Makes `mov` if it is legal, and says whether it did. A step to a
    /// neighbour leaves the origin occupied; a longer move vacates it. Then
    /// every occupied neighbour of the destination takes the mover's color.
    pub fn apply_move(&mut self, mov: &Move) -> (applied: bool)
        requires
            old(self).wf(),
        ensures
            final(self).wf(),
            applied == old(self)@.is_move_legal(*mov),
            final(self)@ == old(self)@.apply_move(*mov),
    {
        if !self.is_move_legal(mov) {
            return false;
        }
        let neighbour = self.get_neighbours(&mov.from);
        let neighours = self.get_neighbours(&mov.to);
        let turn = self.turn;
        let ghost before = self@;
        if !has_point(&neighbour, &mov.to) {
            remove_piece(&mut self.pieces, &mov.from);
        }
        set_piece(&mut self.pieces, mov.to, turn);
        let ghost placed = before.placed(*mov);
        assert(entries_map(self.pieces@) == placed);
        proof {
            before.lemma_secondary_is_cell(mov.from, mov.to);
        }
        let mut i: usize = 0;
        while i < neighours.len()
            invariant
                i <= neighours.len(),
                neighours@ == before.neighbours(mov.to),
                distinct_keys(self.pieces@),
                self.points == old(self).points,
                self.max_size == old(self).max_size,
                self.turn == old(self).turn,
                turn == before.turn,
                entries_map(self.pieces@) == Map::new(
                    |p: Point| placed.contains_key(p),
                    |p: Point|
                        if neighours@.take(i as int).contains(p) {
                            turn
                        } else {
                            placed[p]
                        },
                ),
            decreases neighours.len() - i,
        {
            let point = neighours[i];
            let ghost prev = entries_map(self.pieces@);
            proof {
                neighours@.lemma_take_succ_push(i as int);
            }
            if piece_of(&self.pieces, &point).is_some() {
                set_piece(&mut self.pieces, point, turn);
            }
            assert(entries_map(self.pieces@) =~= Map::new(
                |p: Point| placed.contains_key(p),
                |p: Point|
                    if neighours@.take(i as int + 1).contains(p) {
                        turn
                    } else {
                        placed[p]
                    },
            )) by {
                let t0 = neighours@.take(i as int);
                let t1 = neighours@.take(i as int + 1);
                assert(t1 == t0.push(point));
                assert forall|p: Point| t1.contains(p) <==> (t0.contains(p) || p == point) by {
                    if t1.contains(p) {
                        let j = choose|j: int| 0 <= j < t1.len() && t1[j] == p;
                        if j < t0.len() {
                            assert(t0[j] == p);
                        }
                    }
                    if t0.contains(p) {
                        let j = choose|j: int| 0 <= j < t0.len() && t0[j] == p;
                        assert(t1[j] == p);
                    }
                    if p == point {
                        assert(t1[t0.len() as int] == p);
                    }
                }
            }
            i += 1;
        }
        proof {
            neighours@.lemma_take_len();
            assert(self@.pieces =~= before.apply_move(*mov).pieces);
            assert(self@ == before.apply_move(*mov));
        }
        true
    }

    /// Hands the turn to `next_color`.
    pub fn change_turn(&mut self, next_color: Color)
        requires
            old(self).wf(),
        ensures
            final(self).wf(),
            final(self)@ == (BoardView { turn: next_color, ..old(self)@ }),
    {
        self.turn = next_color;
    }
}

} // verus!
