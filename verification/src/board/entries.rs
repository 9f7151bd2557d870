//! Lists of cells and of (cell, color) entries, and the set and the map
//! that they stand for.

use crate::board::{in_range, Point, COORD_LIMIT};
use crate::colors::Color;
use vstd::prelude::*;

verus! {

/// The map that a list of (cell, color) entries stands for, when no cell
/// occurs twice in it.
pub open spec fn entries_map(s: Seq<(Point, Color)>) -> Map<Point, Color> {
    Map::new(
        |p: Point| exists|i: int| 0 <= i < s.len() && #[trigger] s[i].0 == p,
        |p: Point| s[choose|i: int| 0 <= i < s.len() && #[trigger] s[i].0 == p].1,
    )
}

/// Whether no cell occurs twice in a list of (cell, color) entries.
pub open spec fn distinct_keys(s: Seq<(Point, Color)>) -> bool {
    forall|i: int, j: int| 0 <= i < j < s.len() ==> #[trigger] s[i].0 != #[trigger] s[j].0
}

pub(crate) proof fn lemma_entries_lookup(s: Seq<(Point, Color)>, i: int)
    requires
        distinct_keys(s),
        0 <= i < s.len(),
    ensures
        entries_map(s).contains_key(s[i].0),
        entries_map(s)[s[i].0] == s[i].1,
{
    let p = s[i].0;
    let j = choose|j: int| 0 <= j < s.len() && #[trigger] s[j].0 == p;
    assert(j == i) by {
        if j < i {
            assert(s[j].0 != s[i].0);
        } else if i < j {
            assert(s[i].0 != s[j].0);
        }
    }
}

pub(super) proof fn lemma_entries_absent(s: Seq<(Point, Color)>, p: Point)
    requires
        forall|i: int| 0 <= i < s.len() ==> (#[trigger] s[i]).0 != p,
    ensures
        !entries_map(s).contains_key(p),
{
}

pub(super) proof fn lemma_entries_push(s: Seq<(Point, Color)>, p: Point, c: Color)
    requires
        distinct_keys(s),
        !entries_map(s).contains_key(p),
    ensures
        distinct_keys(s.push((p, c))),
        entries_map(s.push((p, c))) == entries_map(s).insert(p, c),
{
    let t = s.push((p, c));
    assert forall|i: int, j: int| 0 <= i < j < t.len() implies #[trigger] t[i].0
        != #[trigger] t[j].0 by {
        if j == s.len() {
            assert(t[i] == s[i]);
            if s[i].0 == p {
                assert(entries_map(s).contains_key(p));
            }
        } else {
            assert(t[i] == s[i] && t[j] == s[j]);
        }
    }
    assert forall|q: Point|
        #[trigger] entries_map(t).contains_key(q) <==> (q == p || entries_map(s).contains_key(
            q,
        )) by {
        if entries_map(t).contains_key(q) {
            let i = choose|i: int| 0 <= i < t.len() && #[trigger] t[i].0 == q;
            if i < s.len() {
                assert(s[i].0 == q);
            }
        }
        if q == p {
            assert(t[s.len() as int].0 == q);
        }
        if entries_map(s).contains_key(q) {
            let i = choose|i: int| 0 <= i < s.len() && #[trigger] s[i].0 == q;
            assert(t[i].0 == q);
        }
    }
    assert forall|q: Point| entries_map(t).contains_key(q) implies #[trigger] entries_map(t)[q]
        == entries_map(s).insert(p, c)[q] by {
        let i = choose|i: int| 0 <= i < t.len() && #[trigger] t[i].0 == q;
        lemma_entries_lookup(t, i);
        if i < s.len() {
            assert(t[i] == s[i]);
            lemma_entries_lookup(s, i);
        }
    }
    assert(entries_map(t) =~= entries_map(s).insert(p, c));
}

pub(super) proof fn lemma_entries_update(s: Seq<(Point, Color)>, i: int, c: Color)
    requires
        distinct_keys(s),
        0 <= i < s.len(),
    ensures
        distinct_keys(s.update(i, (s[i].0, c))),
        entries_map(s.update(i, (s[i].0, c))) == entries_map(s).insert(s[i].0, c),
{
    let p = s[i].0;
    let t = s.update(i, (p, c));
    assert forall|a: int, b: int| 0 <= a < b < t.len() implies #[trigger] t[a].0
        != #[trigger] t[b].0 by {
        assert(t[a].0 == s[a].0 && t[b].0 == s[b].0);
    }
    assert forall|q: Point|
        #[trigger] entries_map(t).contains_key(q) <==> (q == p || entries_map(s).contains_key(
            q,
        )) by {
        if entries_map(t).contains_key(q) {
            let k = choose|k: int| 0 <= k < t.len() && #[trigger] t[k].0 == q;
            assert(s[k].0 == q);
        }
        if q == p {
            assert(t[i].0 == q);
        }
        if entries_map(s).contains_key(q) {
            let k = choose|k: int| 0 <= k < s.len() && #[trigger] s[k].0 == q;
            assert(t[k].0 == q);
        }
    }
    assert forall|q: Point| entries_map(t).contains_key(q) implies #[trigger] entries_map(t)[q]
        == entries_map(s).insert(p, c)[q] by {
        let k = choose|k: int| 0 <= k < t.len() && #[trigger] t[k].0 == q;
        lemma_entries_lookup(t, k);
        if k != i {
            assert(t[k] == s[k]);
            lemma_entries_lookup(s, k);
        }
    }
    assert(entries_map(t) =~= entries_map(s).insert(p, c));
}

pub(super) proof fn lemma_entries_remove(s: Seq<(Point, Color)>, i: int)
    requires
        distinct_keys(s),
        0 <= i < s.len(),
    ensures
        distinct_keys(s.remove(i)),
        entries_map(s.remove(i)) == entries_map(s).remove(s[i].0),
{
    let p = s[i].0;
    let t = s.remove(i);
    assert forall|a: int| 0 <= a < t.len() implies #[trigger] t[a] == s[if a < i {
        a
    } else {
        a + 1
    }] by {}
    assert forall|a: int, b: int| 0 <= a < b < t.len() implies #[trigger] t[a].0
        != #[trigger] t[b].0 by {
        let a2 = if a < i { a } else { a + 1 };
        let b2 = if b < i { b } else { b + 1 };
        assert(t[a] == s[a2] && t[b] == s[b2]);
        assert(s[a2].0 != s[b2].0);
    }
    assert forall|q: Point|
        #[trigger] entries_map(t).contains_key(q) <==> (q != p && entries_map(s).contains_key(
            q,
        )) by {
        if entries_map(t).contains_key(q) {
            let k = choose|k: int| 0 <= k < t.len() && #[trigger] t[k].0 == q;
            let k2 = if k < i { k } else { k + 1 };
            assert(t[k] == s[k2]);
            assert(s[k2].0 == q);
            if q == p {
                if k2 < i {
                    assert(s[k2].0 != s[i].0);
                } else {
                    assert(s[i].0 != s[k2].0);
                }
            }
        }
        if q != p && entries_map(s).contains_key(q) {
            let k = choose|k: int| 0 <= k < s.len() && #[trigger] s[k].0 == q;
            let k2 = if k < i { k } else { k - 1 };
            assert(t[k2] == s[k]);
            assert(t[k2].0 == q);
        }
    }
    assert forall|q: Point| entries_map(t).contains_key(q) implies #[trigger] entries_map(t)[q]
        == entries_map(s).remove(p)[q] by {
        let k = choose|k: int| 0 <= k < t.len() && #[trigger] t[k].0 == q;
        lemma_entries_lookup(t, k);
        let k2 = if k < i { k } else { k + 1 };
        assert(t[k] == s[k2]);
        lemma_entries_lookup(s, k2);
    }
    assert(entries_map(t) =~= entries_map(s).remove(p));
}

/// Whether `p` occurs in `points`.
pub(super) fn has_point(points: &Vec<Point>, p: &Point) -> (found: bool)
    ensures
        found == points@.contains(*p),
{
    let mut i: usize = 0;
    while i < points.len()
        invariant
            i <= points.len(),
            forall|j: int| 0 <= j < i ==> points@[j] != *p,
        decreases points.len() - i,
    {
        if points[i].0 == p.0 && points[i].1 == p.1 {
            return true;
        }
        i += 1;
    }
    false
}

/// Where the entry of cell `p` stands in `pieces`, if it has one.
pub(super) fn piece_index(pieces: &Vec<(Point, Color)>, p: &Point) -> (at: Option<usize>)
    ensures
        match at {
            Some(i) => i < pieces.len() && pieces@[i as int].0 == *p,
            None => forall|j: int| 0 <= j < pieces.len() ==> (#[trigger] pieces@[j]).0 != *p,
        },
{
    let mut i: usize = 0;
    while i < pieces.len()
        invariant
            i <= pieces.len(),
            forall|j: int| 0 <= j < i ==> (#[trigger] pieces@[j]).0 != *p,
        decreases pieces.len() - i,
    {
        if pieces[i].0.0 == p.0 && pieces[i].0.1 == p.1 {
            return Some(i);
        }
        i += 1;
    }
    None
}

/// The color on cell `p`, if it holds a piece.
pub(super) fn piece_of(pieces: &Vec<(Point, Color)>, p: &Point) -> (c: Option<Color>)
    requires
        distinct_keys(pieces@),
    ensures
        c == if entries_map(pieces@).contains_key(*p) {
            Some(entries_map(pieces@)[*p])
        } else {
            None
        },
{
    match piece_index(pieces, p) {
        Some(i) => {
            proof {
                lemma_entries_lookup(pieces@, i as int);
            }
            Some(pieces[i].1)
        },
        None => {
            proof {
                lemma_entries_absent(pieces@, *p);
            }
            None
        },
    }
}

/// Puts color `c` on cell `p`, over whatever stood there.
pub(super) fn set_piece(pieces: &mut Vec<(Point, Color)>, p: Point, c: Color)
    requires
        distinct_keys(old(pieces)@),
    ensures
        distinct_keys(final(pieces)@),
        entries_map(final(pieces)@) == entries_map(old(pieces)@).insert(p, c),
{
    match piece_index(pieces, &p) {
        Some(i) => {
            proof {
                lemma_entries_update(pieces@, i as int, c);
            }
            pieces.set(i, (p, c));
        },
        None => {
            proof {
                lemma_entries_absent(pieces@, p);
                lemma_entries_push(pieces@, p, c);
            }
            pieces.push((p, c));
        },
    }
}

/// Takes the piece off cell `p`, if one stands there.
pub(super) fn remove_piece(pieces: &mut Vec<(Point, Color)>, p: &Point)
    requires
        distinct_keys(old(pieces)@),
    ensures
        distinct_keys(final(pieces)@),
        entries_map(final(pieces)@) == entries_map(old(pieces)@).remove(*p),
{
    match piece_index(pieces, p) {
        Some(i) => {
            proof {
                lemma_entries_remove(pieces@, i as int);
            }
            pieces.remove(i);
        },
        None => {
            proof {
                lemma_entries_absent(pieces@, *p);
                assert(entries_map(pieces@) =~= entries_map(pieces@).remove(*p));
            }
        },
    }
}

/// Puts color `c` on cell `p` unless a piece stands there already.
pub(super) fn put_if_absent(pieces: &mut Vec<(Point, Color)>, p: Point, c: Color)
    requires
        distinct_keys(old(pieces)@),
    ensures
        distinct_keys(final(pieces)@),
        entries_map(final(pieces)@) == if entries_map(old(pieces)@).contains_key(p) {
            entries_map(old(pieces)@)
        } else {
            entries_map(old(pieces)@).insert(p, c)
        },
{
    match piece_index(pieces, &p) {
        Some(i) => {
            proof {
                lemma_entries_lookup(pieces@, i as int);
            }
        },
        None => {
            proof {
                lemma_entries_absent(pieces@, p);
                lemma_entries_push(pieces@, p, c);
            }
            pieces.push((p, c));
        },
    }
}

pub(super) proof fn lemma_push_contains(s: Seq<Point>, x: Point)
    requires
        s.no_duplicates(),
        !s.contains(x),
    ensures
        s.push(x).no_duplicates(),
        forall|p: Point| s.push(x).contains(p) <==> (s.contains(p) || p == x),
{
    let t = s.push(x);
    assert forall|p: Point| t.contains(p) <==> (s.contains(p) || p == x) by {
        if t.contains(p) {
            let i = choose|i: int| 0 <= i < t.len() && t[i] == p;
            if i < s.len() {
                assert(s[i] == p);
            }
        }
        if s.contains(p) {
            let i = choose|i: int| 0 <= i < s.len() && s[i] == p;
            assert(t[i] == p);
        }
        if p == x {
            assert(t[s.len() as int] == p);
        }
    }
    assert forall|i: int, j: int| 0 <= i < t.len() && 0 <= j < t.len() && i != j implies t[i]
        != t[j] by {
        if i < s.len() && j < s.len() {
            assert(s[i] != s[j]);
        } else if i < s.len() {
            assert(s.contains(s[i]));
        } else {
            assert(s.contains(s[j]));
        }
    }
}

/// The cells of a list of (cell, color) entries, in the list's order.
pub open spec fn entry_keys(s: Seq<(Point, Color)>) -> Seq<Point> {
    s.map_values(|e: (Point, Color)| e.0)
}

pub(super) proof fn lemma_entries_dom(s: Seq<(Point, Color)>)
    requires
        distinct_keys(s),
    ensures
        entries_map(s).dom() == entry_keys(s).to_set(),
        entries_map(s).dom().len() == s.len(),
        entries_map(s).dom().finite(),
{
    let keys = entry_keys(s);
    assert forall|i: int, j: int|
        0 <= i < keys.len() && 0 <= j < keys.len() && i != j implies keys[i] != keys[j] by {
        if i < j {
            assert(s[i].0 != s[j].0);
        } else {
            assert(s[j].0 != s[i].0);
        }
    }
    assert forall|p: Point| entries_map(s).dom().contains(p) <==> keys.to_set().contains(p) by {
        if entries_map(s).dom().contains(p) {
            let i = choose|i: int| 0 <= i < s.len() && #[trigger] s[i].0 == p;
            assert(keys[i] == p);
        }
        if keys.to_set().contains(p) {
            let i = choose|i: int| 0 <= i < keys.len() && keys[i] == p;
            assert(s[i].0 == p);
        }
    }
    assert(entries_map(s).dom() =~= keys.to_set());
    keys.unique_seq_to_set();
    vstd::seq_lib::seq_to_set_is_finite(keys);
}

/// Whether no cell occurs twice in `points` and each is within the
/// coordinate limit.
pub(super) fn check_points(points: &Vec<Point>) -> (ok: bool)
    ensures
        ok == (points@.no_duplicates() && forall|i: int|
            0 <= i < points.len() ==> in_range(#[trigger] points@[i])),
{
    let mut i: usize = 0;
    while i < points.len()
        invariant
            i <= points.len(),
            forall|a: int| 0 <= a < i ==> in_range(#[trigger] points@[a]),
            forall|a: int, b: int| 0 <= a < b < i ==> points@[a] != points@[b],
        decreases points.len() - i,
    {
        let p = points[i];
        if !(-COORD_LIMIT < p.0 && p.0 < COORD_LIMIT && -COORD_LIMIT < p.1 && p.1 < COORD_LIMIT) {
            return false;
        }
        let mut j: usize = 0;
        while j < i
            invariant
                j <= i,
                i < points.len(),
                p == points@[i as int],
                forall|a: int| 0 <= a < j ==> points@[a] != p,
            decreases i - j,
        {
            if points[j].0 == p.0 && points[j].1 == p.1 {
                return false;
            }
            j += 1;
        }
        i += 1;
    }
    true
}

/// Whether no cell occurs twice in `pieces` and each stands on one of
/// `points`.
pub(super) fn check_pieces(points: &Vec<Point>, pieces: &Vec<(Point, Color)>) -> (ok: bool)
    ensures
        ok == (distinct_keys(pieces@) && forall|i: int|
            0 <= i < pieces.len() ==> points@.contains((#[trigger] pieces@[i]).0)),
{
    let mut i: usize = 0;
    while i < pieces.len()
        invariant
            i <= pieces.len(),
            forall|a: int| 0 <= a < i ==> points@.contains((#[trigger] pieces@[a]).0),
            forall|a: int, b: int|
                0 <= a < b < i ==> (#[trigger] pieces@[a]).0 != (#[trigger] pieces@[b]).0,
        decreases pieces.len() - i,
    {
        let p = pieces[i].0;
        if !has_point(points, &p) {
            return false;
        }
        let mut j: usize = 0;
        while j < i
            invariant
                j <= i,
                i < pieces.len(),
                p == pieces@[i as int].0,
                forall|a: int| 0 <= a < j ==> (#[trigger] pieces@[a]).0 != p,
            decreases i - j,
        {
            if pieces[j].0.0 == p.0 && pieces[j].0.1 == p.1 {
                assert(pieces@[j as int].0 == pieces@[i as int].0);
                return false;
            }
            j += 1;
        }
        i += 1;
    }
    true
}

/// A copy of a list of cells.
pub(super) fn copy_points(points: &Vec<Point>) -> (copy: Vec<Point>)
    ensures
        copy@ == points@,
{
    let mut copy: Vec<Point> = Vec::new();
    let mut i: usize = 0;
    while i < points.len()
        invariant
            i <= points.len(),
            copy@ == points@.take(i as int),
        decreases points.len() - i,
    {
        proof {
            points@.lemma_take_succ_push(i as int);
        }
        copy.push(points[i]);
        i += 1;
    }
    proof {
        points@.lemma_take_len();
    }
    copy
}

/// A copy of a list of (cell, color) entries.
pub(super) fn copy_entries(entries: &Vec<(Point, Color)>) -> (copy: Vec<(Point, Color)>)
    ensures
        copy@ == entries@,
{
    let mut copy: Vec<(Point, Color)> = Vec::new();
    let mut i: usize = 0;
    while i < entries.len()
        invariant
            i <= entries.len(),
            copy@ == entries@.take(i as int),
        decreases entries.len() - i,
    {
        proof {
            entries@.lemma_take_succ_push(i as int);
        }
        copy.push(entries[i]);
        i += 1;
    }
    proof {
        entries@.lemma_take_len();
    }
    copy
}

/// How many of the entries have color `c`.
pub(super) open spec fn colored(s: Seq<(Point, Color)>, c: Color) -> nat
    decreases s.len(),
{
    if s.len() == 0 {
        0
    } else {
        colored(s.drop_last(), c) + if s.last().1 == c {
            1nat
        } else {
            0nat
        }
    }
}

pub(super) proof fn lemma_colored_push(s: Seq<(Point, Color)>, e: (Point, Color), c: Color)
    ensures
        colored(s.push(e), c) == colored(s, c) + if e.1 == c {
            1nat
        } else {
            0nat
        },
{
    assert(s.push(e).drop_last() =~= s);
}

/// The cells that hold color `c` are as many as the entries of that color.
pub(super) proof fn lemma_colored_cells(s: Seq<(Point, Color)>, c: Color)
    requires
        distinct_keys(s),
    ensures
        Set::new(|p: Point| entries_map(s).contains_key(p) && entries_map(s)[p] == c).finite(),
        Set::new(|p: Point| entries_map(s).contains_key(p) && entries_map(s)[p] == c).len()
            == colored(s, c),
    decreases s.len(),
{
    let cells = Set::new(|p: Point| entries_map(s).contains_key(p) && entries_map(s)[p] == c);
    if s.len() == 0 {
        assert(cells =~= Set::empty());
    } else {
        let t = s.drop_last();
        let e = s.last();
        assert(s =~= t.push(e));
        assert forall|i: int, j: int| 0 <= i < j < t.len() implies #[trigger] t[i].0
            != #[trigger] t[j].0 by {
            assert(t[i] == s[i] && t[j] == s[j]);
        }
        lemma_colored_cells(t, c);
        let before = Set::new(
            |p: Point| entries_map(t).contains_key(p) && entries_map(t)[p] == c,
        );
        assert(!entries_map(t).contains_key(e.0)) by {
            if entries_map(t).contains_key(e.0) {
                let i = choose|i: int| 0 <= i < t.len() && #[trigger] t[i].0 == e.0;
                assert(s[i].0 != s[s.len() - 1].0);
            }
        }
        lemma_entries_push(t, e.0, e.1);
        if e.1 == c {
            assert(cells =~= before.insert(e.0));
        } else {
            assert(cells =~= before);
        }
    }
}

} // verus!
