//! The order of player ids: that of strings, character by character.

use itertools::Itertools;
use vstd::prelude::*;

verus! {

/// Whether `a` comes no later than `b` in the order of strings: at the
/// first position where they differ the character of `a` has the lower
/// code, or `a` ends there.
pub open spec fn lex_le(a: Seq<char>, b: Seq<char>) -> bool
    decreases a.len(),
{
    if a.len() == 0 {
        true
    } else if b.len() == 0 {
        false
    } else if a[0] != b[0] {
        (a[0] as int) < (b[0] as int)
    } else {
        lex_le(a.drop_first(), b.drop_first())
    }
}

/// Whether `a` comes before `b` in the order of strings.
pub open spec fn lex_lt(a: Seq<char>, b: Seq<char>) -> bool {
    lex_le(a, b) && a != b
}

/// Whether each string of the list comes no later than those behind it.
pub open spec fn ascending(s: Seq<Seq<char>>) -> bool {
    forall|i: int, j: int| 0 <= i < j < s.len() ==> lex_le(#[trigger] s[i], #[trigger] s[j])
}

/// The strings of a list, as what they are.
pub open spec fn strings_view(v: Seq<String>) -> Seq<Seq<char>> {
    v.map_values(|s: String| s@)
}

/// Every string comes no later than itself.
pub proof fn lemma_lex_le_reflexive(a: Seq<char>)
    ensures
        lex_le(a, a),
    decreases a.len(),
{
    if a.len() > 0 {
        lemma_lex_le_reflexive(a.drop_first());
    }
}

/// Two strings that each come no later than the other are the same.
pub proof fn lemma_lex_le_antisymmetric(a: Seq<char>, b: Seq<char>)
    requires
        lex_le(a, b),
        lex_le(b, a),
    ensures
        a == b,
    decreases a.len(),
{
    if a.len() == 0 {
        assert(a =~= b);
    } else {
        lemma_lex_le_antisymmetric(a.drop_first(), b.drop_first());
        assert(a =~= seq![a[0]] + a.drop_first());
        assert(b =~= seq![b[0]] + b.drop_first());
    }
}

/// Of two strings, one comes no later than the other.
pub proof fn lemma_lex_le_total(a: Seq<char>, b: Seq<char>)
    ensures
        lex_le(a, b) || lex_le(b, a),
    decreases a.len(),
{
    if a.len() > 0 && b.len() > 0 && a[0] == b[0] {
        lemma_lex_le_total(a.drop_first(), b.drop_first());
    }
}

/// The order of strings is transitive.
pub proof fn lemma_lex_le_transitive(a: Seq<char>, b: Seq<char>, c: Seq<char>)
    requires
        lex_le(a, b),
        lex_le(b, c),
    ensures
        lex_le(a, c),
    decreases a.len(),
{
    if a.len() > 0 && a[0] == b[0] && b[0] == c[0] {
        lemma_lex_le_transitive(a.drop_first(), b.drop_first(), c.drop_first());
    }
}

/// Whether one of `ids` comes after `leader` in order.
pub open spec fn has_later(ids: Seq<Seq<char>>, leader: Seq<char>) -> bool {
    exists|m: Seq<char>| ids.contains(m) && #[trigger] lex_lt(leader, m)
}

/// Whether `n` is the id that leads after `leader`: the next id of `ids`
/// in order when `leader` is one of them and is not the last, and the first
/// id in order otherwise.
pub open spec fn is_next_leader(ids: Seq<Seq<char>>, leader: Seq<char>, n: Seq<char>) -> bool {
    &&& ids.contains(n)
    &&& if ids.contains(leader) && has_later(ids, leader) {
        &&& lex_lt(leader, n)
        &&& forall|m: Seq<char>| ids.contains(m) && #[trigger] lex_lt(leader, m) ==> lex_le(n, m)
    } else {
        forall|m: Seq<char>| #[trigger] ids.contains(m) ==> lex_le(n, m)
    }
}

/// The id that leads after `leader`, where `ids` is not empty.
pub open spec fn next_leader(ids: Seq<Seq<char>>, leader: Seq<char>) -> Seq<char> {
    choose|n: Seq<char>| is_next_leader(ids, leader, n)
}

/// Only one id leads after `leader`.
pub proof fn lemma_next_leader_unique(ids: Seq<Seq<char>>, leader: Seq<char>, n: Seq<char>)
    requires
        is_next_leader(ids, leader, n),
    ensures
        next_leader(ids, leader) == n,
{
    let c = next_leader(ids, leader);
    assert(is_next_leader(ids, leader, c));
    if ids.contains(leader) && has_later(ids, leader) {
        assert(lex_lt(leader, n) && lex_lt(leader, c));
        assert(lex_le(n, c));
        assert(lex_le(c, n));
    } else {
        assert(lex_le(n, c));
        assert(lex_le(c, n));
    }
    lemma_lex_le_antisymmetric(n, c);
}

/// A list of strings that is not empty has a first in order.
pub proof fn lemma_least_exists(s: Seq<Seq<char>>) -> (m: Seq<char>)
    requires
        s.len() > 0,
    ensures
        s.contains(m),
        forall|x: Seq<char>| #[trigger] s.contains(x) ==> lex_le(m, x),
    decreases s.len(),
{
    let last = s.last();
    if s.len() == 1 {
        assert(s[0] == last);
        assert forall|x: Seq<char>| #[trigger] s.contains(x) implies lex_le(last, x) by {
            let i = choose|i: int| 0 <= i < s.len() && s[i] == x;
            lemma_lex_le_reflexive(last);
        }
        last
    } else {
        let front = s.drop_last();
        let m0 = lemma_least_exists(front);
        let i0 = choose|i: int| 0 <= i < front.len() && front[i] == m0;
        assert(s[i0] == m0);
        assert(s[s.len() - 1] == last);
        lemma_lex_le_total(m0, last);
        let m = if lex_le(m0, last) {
            m0
        } else {
            last
        };
        assert forall|x: Seq<char>| #[trigger] s.contains(x) implies lex_le(m, x) by {
            let i = choose|i: int| 0 <= i < s.len() && s[i] == x;
            if i < front.len() {
                assert(front[i] == x);
                assert(front.contains(x));
                if !lex_le(m0, last) {
                    lemma_lex_le_transitive(last, m0, x);
                }
            } else {
                lemma_lex_le_reflexive(last);
            }
        }
        m
    }
}

/// Where somebody is there, somebody leads after `leader`.
pub proof fn lemma_next_leader_exists(ids: Seq<Seq<char>>, leader: Seq<char>)
    requires
        ids.len() > 0,
    ensures
        is_next_leader(ids, leader, next_leader(ids, leader)),
{
    if ids.contains(leader) && has_later(ids, leader) {
        let later = |m: Seq<char>| lex_lt(leader, m);
        let behind = ids.filter(later);
        let w = choose|m: Seq<char>| ids.contains(m) && #[trigger] lex_lt(leader, m);
        let iw = choose|i: int| 0 <= i < ids.len() && ids[i] == w;
        ids.lemma_filter_contains(later, iw);
        let n = lemma_least_exists(behind);
        let k = choose|k: int| 0 <= k < behind.len() && behind[k] == n;
        ids.lemma_filter_pred(later, k);
        ids.lemma_filter_contains_rev(later, n);
        assert forall|m: Seq<char>| ids.contains(m) && #[trigger] lex_lt(leader, m) implies lex_le(
            n,
            m,
        ) by {
            let i = choose|i: int| 0 <= i < ids.len() && ids[i] == m;
            ids.lemma_filter_contains(later, i);
        }
        assert(is_next_leader(ids, leader, n));
    } else {
        let n = lemma_least_exists(ids);
        assert(is_next_leader(ids, leader, n));
    }
}

/// Among two or more ids, the one that leads after one of them is another
/// of them.
pub proof fn lemma_next_leader_differs(ids: Seq<Seq<char>>, leader: Seq<char>)
    requires
        ids.no_duplicates(),
        ids.len() >= 2,
        ids.contains(leader),
    ensures
        ids.contains(next_leader(ids, leader)),
        next_leader(ids, leader) != leader,
{
    lemma_next_leader_exists(ids, leader);
    let n = next_leader(ids, leader);
    if n == leader {
        let i = choose|i: int| 0 <= i < ids.len() && ids[i] == leader;
        let j = if i == 0 {
            1int
        } else {
            0int
        };
        let other = ids[j];
        assert(ids.contains(other));
        assert(other != leader);
        assert(lex_le(leader, other));
        assert(lex_lt(leader, other));
    }
}

/// A list that holds the ids of a list without repetition, each as often,
/// holds the same ids and none twice.
pub proof fn lemma_same_ids(ids: Seq<Seq<char>>, sorted: Seq<Seq<char>>)
    requires
        ids.no_duplicates(),
        sorted.to_multiset() == ids.to_multiset(),
    ensures
        sorted.no_duplicates(),
        sorted.len() == ids.len(),
        forall|x: Seq<char>| #[trigger] sorted.contains(x) <==> ids.contains(x),
{
    ids.to_multiset_ensures();
    sorted.to_multiset_ensures();
    ids.lemma_multiset_has_no_duplicates();
    sorted.lemma_multiset_has_no_duplicates_conv();
    assert forall|x: Seq<char>| #[trigger] sorted.contains(x) <==> ids.contains(x) by {
        assert(sorted.contains(x) <==> sorted.to_multiset().count(x) > 0);
        assert(ids.contains(x) <==> ids.to_multiset().count(x) > 0);
    }
}

/// In the ids in ascending order, the id behind `leader` leads after it;
/// the first id does where `leader` is the last or is not among them.
pub proof fn lemma_successor_is_next(
    ids: Seq<Seq<char>>,
    sorted: Seq<Seq<char>>,
    leader: Seq<char>,
    k: int,
)
    requires
        ids.no_duplicates(),
        sorted.to_multiset() == ids.to_multiset(),
        ascending(sorted),
        0 <= k < sorted.len(),
        (k >= 1 && sorted[k - 1] == leader) || (k == 0 && forall|i: int|
            0 <= i < sorted.len() - 1 ==> #[trigger] sorted[i] != leader),
    ensures
        is_next_leader(ids, leader, sorted[k]),
        next_leader(ids, leader) == sorted[k],
{
    lemma_same_ids(ids, sorted);
    let n = sorted[k];
    assert(sorted.contains(n));
    if k >= 1 {
        assert(sorted.contains(leader));
        assert(lex_le(sorted[k - 1], sorted[k]));
        assert(sorted[k - 1] != sorted[k]);
        assert(lex_lt(leader, n));
        assert forall|m: Seq<char>| ids.contains(m) && #[trigger] lex_lt(leader, m) implies lex_le(
            n,
            m,
        ) by {
            assert(sorted.contains(m));
            let j = choose|j: int| 0 <= j < sorted.len() && sorted[j] == m;
            if j < k - 1 {
                assert(lex_le(sorted[j], sorted[k - 1]));
                lemma_lex_le_antisymmetric(m, leader);
            } else if j == k {
                lemma_lex_le_reflexive(n);
            } else if j > k {
                assert(lex_le(sorted[k], sorted[j]));
            }
        }
    } else {
        if ids.contains(leader) && has_later(ids, leader) {
            let m = choose|m: Seq<char>| ids.contains(m) && #[trigger] lex_lt(leader, m);
            assert(sorted.contains(leader));
            assert(sorted.contains(m));
            let i = choose|i: int| 0 <= i < sorted.len() && sorted[i] == leader;
            let j = choose|j: int| 0 <= j < sorted.len() && sorted[j] == m;
            assert(i == sorted.len() - 1);
            assert(j < i);
            assert(lex_le(sorted[j], sorted[i]));
            lemma_lex_le_antisymmetric(m, leader);
        }
        assert forall|m: Seq<char>| #[trigger] ids.contains(m) implies lex_le(n, m) by {
            assert(sorted.contains(m));
            let j = choose|j: int| 0 <= j < sorted.len() && sorted[j] == m;
            if j == 0 {
                lemma_lex_le_reflexive(n);
            } else {
                assert(lex_le(sorted[0], sorted[j]));
            }
        }
    }
    lemma_next_leader_unique(ids, leader, n);
}

/// Leadership goes round: among three ids `a`, `b`, `c` in ascending
/// order, `c` leads after `b`, and `a` leads after `c`.
pub proof fn lemma_next_leader_wraps(
    ids: Seq<Seq<char>>,
    a: Seq<char>,
    b: Seq<char>,
    c: Seq<char>,
)
    requires
        forall|x: Seq<char>| #[trigger] ids.contains(x) <==> (x == a || x == b || x == c),
        lex_lt(a, b),
        lex_lt(b, c),
    ensures
        next_leader(ids, a) == b,
        next_leader(ids, b) == c,
        next_leader(ids, c) == a,
{
    lemma_lex_le_transitive(a, b, c);
    lemma_lex_le_reflexive(a);
    lemma_lex_le_reflexive(b);
    lemma_lex_le_reflexive(c);
    if a == c {
        lemma_lex_le_antisymmetric(a, b);
    }
    assert(lex_lt(a, c));
    assert(ids.contains(a) && ids.contains(b) && ids.contains(c));
    assert(is_next_leader(ids, a, b)) by {
        assert(lex_lt(a, b));
    }
    assert(is_next_leader(ids, b, c)) by {
        assert(lex_lt(b, c));
        if lex_lt(b, a) {
            lemma_lex_le_antisymmetric(a, b);
        }
    }
    assert(is_next_leader(ids, c, a)) by {
        if lex_lt(c, a) {
            lemma_lex_le_antisymmetric(a, c);
        }
        if lex_lt(c, b) {
            lemma_lex_le_antisymmetric(b, c);
        }
    }
    lemma_next_leader_unique(ids, a, b);
    lemma_next_leader_unique(ids, b, c);
    lemma_next_leader_unique(ids, c, a);
}

/// The ids in ascending order, by `itertools::Itertools::sorted`, which
/// sorts with the order that `String` has: the result holds the same ids,
/// each as often as before, and each comes no later than those behind it.
#[verifier::external_body]
pub(crate) fn sorted_ids(ids: Vec<String>) -> (sorted: Vec<String>)
    ensures
        strings_view(sorted@).to_multiset() == strings_view(ids@).to_multiset(),
        ascending(strings_view(sorted@)),
{
    ids.into_iter().sorted().collect()
}

} // verus!
