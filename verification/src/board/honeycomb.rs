//! The rectangular board behind the interface: its cells, and the random
//! placement of its pieces.

use crate::board::entries::{
    colored, distinct_keys, entries_map, lemma_colored_push, lemma_entries_push,
    lemma_push_contains,
};
use crate::board::{Point, COORD_LIMIT};
use crate::colors::Color;
use crate::models::{half_row, AxialCoord, Cube, OffsetCoord};
use rand::seq::SliceRandom;
use vstd::prelude::*;

verus! {

/// Whether `p` lies in the rectangle of the given half width and half
/// height: its row is one of `-height - 2 .. height + 2`, its column one of
/// `-width .. width`.
pub open spec fn in_honeycomb(width: int, height: int, p: Point) -> bool {
    &&& -height - 2 <= p.1 < height + 2
    &&& -width <= p.0 + half_row(p.1 as int) < width
}

/// The cells of the rectangle of the given half width and half height.
pub open spec fn honeycomb_cells(width: int, height: int) -> Set<Point> {
    Set::new(|p: Point| in_honeycomb(width, height, p))
}

/// Adds the cells of column `col` of the rectangle, none of which `points`
/// holds yet.
pub(super) fn honeycomb_column(points: &mut Vec<Point>, width: i32, height: i32, col: i32)
    requires
        -COORD_LIMIT / 4 < width < COORD_LIMIT / 4,
        -COORD_LIMIT / 4 < height < COORD_LIMIT / 4,
        -width <= col < width,
        old(points)@.no_duplicates(),
        forall|p: Point|
            #[trigger] old(points)@.contains(p) <==> (in_honeycomb(width as int, height as int, p)
                && p.0 + half_row(p.1 as int) < col),
    ensures
        final(points)@.no_duplicates(),
        forall|p: Point|
            #[trigger] final(points)@.contains(p) <==> (in_honeycomb(
                width as int,
                height as int,
                p,
            ) && p.0 + half_row(p.1 as int) < col + 1),
{
    let mut j: i32 = -height - 2;
    while j < height + 2
        invariant
            -COORD_LIMIT / 4 < width < COORD_LIMIT / 4,
            -COORD_LIMIT / 4 < height < COORD_LIMIT / 4,
            -width <= col < width,
            -height - 2 <= j,
            j <= height + 2 || height + 2 <= -height - 2,
            points@.no_duplicates(),
            forall|p: Point|
                #[trigger] points@.contains(p) <==> (in_honeycomb(width as int, height as int, p)
                    && (p.0 + half_row(p.1 as int) < col || (p.0 + half_row(p.1 as int) == col
                    && p.1 < j))),
        decreases height + 2 - j,
    {
        let ax = AxialCoord::from(Cube::from_offset(OffsetCoord { row: j, col }));
        let point: Point = (ax.q, ax.r);
        let ghost before = points@;
        assert(!before.contains(point));
        points.push(point);
        proof {
            lemma_push_contains(before, point);
            assert forall|p: Point|
                #[trigger] points@.contains(p) <==> (in_honeycomb(width as int, height as int, p)
                    && (p.0 + half_row(p.1 as int) < col || (p.0 + half_row(p.1 as int) == col
                    && p.1 < j + 1))) by {
                assert(points@.contains(p) <==> (before.contains(p) || p == point));
            }
        }
        j += 1;
    }
}

/// One of `cells`, picked by `rand::seq::SliceRandom::choose` with the
/// thread's generator: some element of the list, or nothing when the list
/// is empty. Nothing is claimed of which one is picked.
#[verifier::external_body]
pub(crate) fn pick_one(cells: &Vec<Point>) -> (picked: Option<Point>)
    ensures
        match picked {
            Some(p) => cells@.contains(p),
            None => cells@.len() == 0,
        },
{
    cells.choose(&mut rand::thread_rng()).copied()
}

/// Whether `free` and `pieces` split `points`: every cell is free or holds
/// a piece and not both, and every piece has one of the two colors.
pub(super) open spec fn filled(
    points: Seq<Point>,
    free: Seq<Point>,
    pieces: Seq<(Point, Color)>,
    first_turn: Color,
    second_color: Color,
) -> bool {
    &&& free.no_duplicates()
    &&& distinct_keys(pieces)
    &&& free.len() + pieces.len() == points.len()
    &&& forall|p: Point|
        #[trigger] points.contains(p) <==> (free.contains(p) || entries_map(pieces).contains_key(p))
    &&& forall|p: Point| #[trigger] free.contains(p) ==> !entries_map(pieces).contains_key(p)
    &&& forall|i: int|
        0 <= i < pieces.len() ==> (#[trigger] pieces[i]).1 == first_turn || pieces[i].1
            == second_color
}

/// Puts a piece of `color` on the cell that was picked among the free
/// ones, which is free no longer. Where nothing was picked, nothing
/// changes.
pub(super) fn place_piece(
    pieces: &mut Vec<(Point, Color)>,
    free: &mut Vec<Point>,
    picked: Option<Point>,
    color: Color,
    Ghost(points): Ghost<Seq<Point>>,
    Ghost(first_turn): Ghost<Color>,
    Ghost(second_color): Ghost<Color>,
)
    requires
        filled(points, old(free)@, old(pieces)@, first_turn, second_color),
        color == first_turn || color == second_color,
        match picked {
            Some(p) => old(free)@.contains(p),
            None => old(free)@.len() == 0,
        },
    ensures
        filled(points, final(free)@, final(pieces)@, first_turn, second_color),
        final(pieces)@.len() == if old(pieces)@.len() < points.len() {
            old(pieces)@.len() + 1
        } else {
            old(pieces)@.len()
        },
        forall|c: Color|
            #[trigger] colored(final(pieces)@, c) == colored(old(pieces)@, c) + if c == color
                && old(pieces)@.len() < points.len() {
                1nat
            } else {
                0nat
            },
{
    if let Some(p) = picked {
        let mut at: usize = 0;
        while at < free.len()
            invariant_except_break
                forall|j: int| 0 <= j < at ==> free@[j] != p,
            invariant
                at <= free.len(),
                free@ == old(free)@,
                free@.contains(p),
            ensures
                at < free.len() && free@[at as int] == p,
            decreases free.len() - at,
        {
            if free[at].0 == p.0 && free[at].1 == p.1 {
                break;
            }
            at += 1;
        }
        let ghost free0 = free@;
        let ghost pieces0 = pieces@;
        free.remove(at);
        proof {
            lemma_entries_push(pieces0, p, color);
        }
        pieces.push((p, color));
        proof {
            assert forall|c: Color|
                #[trigger] colored(pieces@, c) == colored(pieces0, c) + if c == color {
                    1nat
                } else {
                    0nat
                } by {
                lemma_colored_push(pieces0, (p, color), c);
            }
            let free1 = free@;
            assert forall|a: int| 0 <= a < free1.len() implies #[trigger] free1[a] == free0[if a
                < at {
                a
            } else {
                a + 1
            }] by {}
            assert forall|q: Point| #[trigger] free1.contains(q) <==> (free0.contains(q) && q
                != p) by {
                if free1.contains(q) {
                    let a = choose|a: int| 0 <= a < free1.len() && free1[a] == q;
                    let a2 = if a < at { a } else { a + 1 };
                    assert(free1[a] == free0[a2]);
                    assert(free0[a2] == q);
                }
                if free0.contains(q) && q != p {
                    let a = choose|a: int| 0 <= a < free0.len() && free0[a] == q;
                    let a2 = if a < at { a } else { a - 1 };
                    assert(free1[a2] == free0[a]);
                }
            }
            assert forall|a: int, b: int| 0 <= a < free1.len() && 0 <= b < free1.len() && a
                != b implies free1[a] != free1[b] by {
                let a2 = if a < at { a } else { a + 1 };
                let b2 = if b < at { b } else { b + 1 };
                assert(free1[a] == free0[a2] && free1[b] == free0[b2]);
            }
            assert forall|i: int| 0 <= i < pieces@.len() implies (#[trigger] pieces@[i]).1
                == first_turn || pieces@[i].1 == second_color by {
                if i < pieces0.len() {
                    assert(pieces@[i] == pieces0[i]);
                }
            }
        }
    } else {
        assert(old(pieces)@.len() == points.len());
    }
}

} // verus!
