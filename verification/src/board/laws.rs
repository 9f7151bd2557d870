//! What holds of every board: adjacency is symmetric, a legal move starts
//! on the mover's piece and ends on a free cell nearby, and a move captures
//! the occupied neighbours of its destination.

use crate::board::hexagon::{
    hexagon_board, hexagon_pieces, in_hexagon, is_corner, opposite, STARTING_PIECES,
};
use crate::board::{adjacent, step, BoardView, Point};
use crate::colors::Color;
use crate::structures::Move;
use vstd::prelude::*;

verus! {

/// A game starts with two pieces of each color, each on a corner of the
/// hexagon, and the position is the same seen from the other side: the
/// cell opposite to a piece of the first color holds one of the second, and
/// the other way round.
pub proof fn lemma_starting_pieces(size: u32, first_turn: Color, second_color: Color)
    ensures
        forall|p: Point| #[trigger]
            hexagon_pieces(size, first_turn, second_color).contains_key(p) ==> is_corner(
                size as int,
                p,
            ),
        size >= 1 ==> forall|p: Point| #[trigger]
            hexagon_pieces(size, first_turn, second_color).contains_key(p) ==> in_hexagon(
                size as int,
                p,
            ),
        hexagon_pieces(size, first_turn, second_color).dom().finite(),
        hexagon_board(size, first_turn, second_color).pieces_of(first_turn).finite(),
        hexagon_board(size, first_turn, second_color).pieces_of(second_color).finite(),
        2 <= size && size - 1 <= i32::MAX ==> hexagon_pieces(
            size,
            first_turn,
            second_color,
        ).dom().len() == 2 * STARTING_PIECES,
        2 <= size && size - 1 <= i32::MAX && first_turn != second_color ==> hexagon_board(
            size,
            first_turn,
            second_color,
        ).pieces_of(first_turn).len() == STARTING_PIECES && hexagon_board(
            size,
            first_turn,
            second_color,
        ).pieces_of(second_color).len() == STARTING_PIECES,
        2 <= size && size - 1 <= i32::MAX ==> forall|p: Point| #[trigger]
            hexagon_pieces(size, first_turn, second_color).contains_key(p) ==> {
                let pieces = hexagon_pieces(size, first_turn, second_color);
                &&& pieces.contains_key(opposite(p))
                &&& pieces[p] == first_turn ==> pieces[opposite(p)] == second_color
                &&& pieces[p] == second_color ==> pieces[opposite(p)] == first_turn
            },
{
    let pieces = hexagon_pieces(size, first_turn, second_color);
    let board = hexagon_board(size, first_turn, second_color);
    if size - 1 <= i32::MAX {
        let s = (size - 1) as i32;
        let n = (1 - size) as i32;
        let a: Point = (s, 0i32);
        let b: Point = (n, s);
        let c: Point = (n, 0i32);
        let d: Point = (s, n);
        assert(pieces.dom() =~= Set::empty().insert(c).insert(d).insert(a).insert(b));
        if size != 1 {
            assert(a != b && a != c && a != d && b != c && b != d && c != d);
            assert(opposite(a) == c && opposite(c) == a && opposite(b) == d && opposite(d) == b);
            if first_turn != second_color {
                assert(board.pieces_of(first_turn) =~= Set::empty().insert(a).insert(b));
                assert(board.pieces_of(second_color) =~= Set::empty().insert(c).insert(d));
            } else {
                assert(board.pieces_of(first_turn) =~= pieces.dom());
            }
        } else {
            assert(board.pieces_of(first_turn) =~= Set::empty().insert(a));
            if first_turn != second_color {
                assert(board.pieces_of(second_color) =~= Set::empty());
            }
        }
    } else {
        assert(pieces.dom() =~= Set::empty());
        assert(board.pieces_of(first_turn) =~= Set::empty());
        assert(board.pieces_of(second_color) =~= Set::empty());
    }
}

/// One step back undoes one step: adjacency of cells is symmetric.
pub proof fn lemma_adjacent_symmetric(a: Point, b: Point)
    requires
        adjacent(a, b),
    ensures
        adjacent(b, a),
{
    let k = choose|k: int| 0 <= k < 6 && #[trigger] step(a, k) == (b.0 as int, b.1 as int);
    let back = if k < 3 {
        k + 3
    } else {
        k - 3
    };
    assert(step(b, back) == (a.0 as int, a.1 as int));
}

impl BoardView {
    /// A neighbour of a cell is a cell of the board.
    pub proof fn lemma_neighbour_is_cell(self, p: Point, c: Point)
        requires
            self.neighbours(p).contains(c),
        ensures
            self.cells.contains(p),
            self.cells.contains(c),
            adjacent(p, c),
    {
        self.lemma_neighbours_upto(p, 6, c);
    }

    proof fn lemma_neighbours_upto(self, p: Point, k: int, c: Point)
        requires
            0 <= k <= 6,
            self.neighbours_upto(p, k).contains(c),
        ensures
            self.cells.contains(c),
            exists|j: int| 0 <= j < k && #[trigger] step(p, j) == (c.0 as int, c.1 as int),
        decreases k,
    {
        if k > 0 {
            let prev = self.neighbours_upto(p, k - 1);
            let last = self.neighbour_at(p, k - 1);
            let i = choose|i: int| 0 <= i < (prev + last).len() && (prev + last)[i] == c;
            if i < prev.len() {
                assert(prev[i] == c);
                self.lemma_neighbours_upto(p, k - 1, c);
            } else {
                assert(last[i - prev.len()] == c);
                assert(step(p, k - 1) == (c.0 as int, c.1 as int));
            }
        }
    }

    proof fn lemma_neighbours_upto_complete(self, p: Point, k: int, m: int, c: Point)
        requires
            0 <= k < m <= 6,
            self.cells.contains(c),
            step(p, k) == (c.0 as int, c.1 as int),
        ensures
            self.neighbours_upto(p, m).contains(c),
        decreases m,
    {
        let prev = self.neighbours_upto(p, m - 1);
        let last = self.neighbour_at(p, m - 1);
        if k == m - 1 {
            assert(last[0] == c);
            assert((prev + last)[prev.len() as int] == c);
        } else {
            self.lemma_neighbours_upto_complete(p, k, m - 1, c);
            let i = choose|i: int| 0 <= i < prev.len() && prev[i] == c;
            assert((prev + last)[i] == c);
        }
    }

    /// Every cell of the board that is one step from a cell of the board is
    /// among that cell's neighbours.
    pub proof fn lemma_adjacent_cell_is_neighbour(self, p: Point, c: Point)
        requires
            self.cells.contains(p),
            self.cells.contains(c),
            adjacent(p, c),
        ensures
            self.neighbours(p).contains(c),
    {
        let k = choose|k: int| 0 <= k < 6 && #[trigger] step(p, k) == (c.0 as int, c.1 as int);
        self.lemma_neighbours_upto_complete(p, k, 6, c);
    }

    /// Adjacency is symmetric: a cell is a neighbour of each of its
    /// neighbours.
    pub proof fn lemma_neighbours_symmetric(self, a: Point, b: Point)
        requires
            self.neighbours(a).contains(b),
        ensures
            self.neighbours(b).contains(a),
    {
        self.lemma_neighbour_is_cell(a, b);
        lemma_adjacent_symmetric(a, b);
        self.lemma_adjacent_cell_is_neighbour(b, a);
    }

    /// A legal move starts on a piece of the color to move: from an empty
    /// cell, or from a cell that another color holds, no move is legal.
    pub proof fn lemma_legal_move_owns_origin(self, mov: Move)
        requires
            !self.pieces.contains_key(mov.from) || self.pieces[mov.from] != self.turn,
        ensures
            !self.is_move_legal(mov),
    {
    }

    /// A legal move ends on an unoccupied cell of the board, other than the
    /// origin, that is a neighbour of a neighbour of the origin.
    pub proof fn lemma_legal_move_destination(self, mov: Move)
        requires
            self.is_move_legal(mov),
        ensures
            self.secondary_neighbours(mov.from).contains(mov.to),
            self.cells.contains(mov.to),
            !self.pieces.contains_key(mov.to),
            mov.from != mov.to,
            exists|n: Point|
                self.neighbours(mov.from).contains(n) && #[trigger] self.neighbours(n).contains(
                    mov.to,
                ),
    {
        self.lemma_secondary_is_cell(mov.from, mov.to);
    }

    /// After a legal move the destination holds the mover's color, and so
    /// does every neighbour of the destination that held a piece before.
    pub proof fn lemma_move_captures(self, mov: Move, n: Point)
        requires
            self.is_move_legal(mov),
            self.neighbours(mov.to).contains(n),
            self.pieces.contains_key(n),
        ensures
            self.apply_move(mov).pieces.contains_key(mov.to),
            self.apply_move(mov).pieces[mov.to] == self.turn,
            self.apply_move(mov).pieces.contains_key(n),
            self.apply_move(mov).pieces[n] == self.turn,
    {
        if n == mov.from {
            self.lemma_neighbours_symmetric(mov.to, mov.from);
        }
    }

    /// A legal move changes no cell, turn or size, and no piece other than
    /// the origin, the destination and the destination's neighbours.
    pub proof fn lemma_move_frame(self, mov: Move, p: Point)
        requires
            self.is_move_legal(mov),
            p != mov.from,
            p != mov.to,
            !self.neighbours(mov.to).contains(p),
        ensures
            self.apply_move(mov).cells == self.cells,
            self.apply_move(mov).turn == self.turn,
            self.apply_move(mov).max_size == self.max_size,
            self.apply_move(mov).pieces.contains_key(p) == self.pieces.contains_key(p),
            self.pieces.contains_key(p) ==> self.apply_move(mov).pieces[p] == self.pieces[p],
    {
    }

    /// A legal step to a neighbour leaves the origin occupied by the mover.
    pub proof fn lemma_step_keeps_origin(self, mov: Move)
        requires
            self.is_move_legal(mov),
            self.neighbours(mov.from).contains(mov.to),
        ensures
            self.apply_move(mov).pieces.contains_key(mov.from),
            self.apply_move(mov).pieces[mov.from] == self.turn,
    {
    }

    /// A legal move to a cell that is no neighbour of the origin vacates the
    /// origin.
    pub proof fn lemma_jump_vacates_origin(self, mov: Move)
        requires
            self.is_move_legal(mov),
            !self.neighbours(mov.from).contains(mov.to),
        ensures
            !self.apply_move(mov).pieces.contains_key(mov.from),
    {
    }

    /// A move keeps a valid board valid.
    pub proof fn lemma_move_keeps_inv(self, mov: Move)
        requires
            self.inv(),
        ensures
            self.apply_move(mov).inv(),
    {
        if self.is_move_legal(mov) {
            self.lemma_secondary_is_cell(mov.from, mov.to);
        }
    }

    /// A secondary neighbour of a cell is a cell of the board.
    pub proof fn lemma_secondary_is_cell(self, p: Point, c: Point)
        requires
            self.secondary_neighbours(p).contains(c),
        ensures
            self.cells.contains(c),
            exists|n: Point|
                self.neighbours(p).contains(n) && #[trigger] self.neighbours(n).contains(c),
    {
        self.lemma_neighbours_of_all(self.neighbours(p), self.neighbours(p).len() as int, c);
    }

    proof fn lemma_neighbours_of_all(self, via: Seq<Point>, k: int, c: Point)
        requires
            0 <= k <= via.len(),
            self.neighbours_of_all(via, k).contains(c),
        ensures
            self.cells.contains(c),
            exists|n: Point| via.contains(n) && #[trigger] self.neighbours(n).contains(c),
        decreases k,
    {
        if k > 0 {
            let prev = self.neighbours_of_all(via, k - 1);
            let last = self.neighbours(via[k - 1]);
            let i = choose|i: int| 0 <= i < (prev + last).len() && (prev + last)[i] == c;
            if i < prev.len() {
                assert(prev[i] == c);
                self.lemma_neighbours_of_all(via, k - 1, c);
            } else {
                assert(last[i - prev.len()] == c);
                assert(last.contains(c));
                self.lemma_neighbour_is_cell(via[k - 1], c);
                assert(via.contains(via[k - 1]));
            }
        }
    }
}

} // verus!
