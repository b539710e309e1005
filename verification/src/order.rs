//! The order of texts, and stable sorting by it.

use vstd::prelude::*;

use crate::text::{chars_of, texts};

verus! {

/// Whether `a` comes before `b`: at the first place where they differ it has
/// the smaller character, or it ends there.
pub open spec fn text_lt(a: Seq<char>, b: Seq<char>) -> bool
    decreases a.len(),
{
    if b.len() == 0 {
        false
    } else if a.len() == 0 {
        true
    } else if a[0] == b[0] {
        text_lt(a.skip(1), b.skip(1))
    } else {
        (a[0] as int) < (b[0] as int)
    }
}

fn code_point(c: char) -> (n: u32)
    ensures
        n as int == c as int,
{
    c as u32
}

/// Tells whether `a` comes before `b`.
pub fn comes_before(a: &str, b: &str) -> (yes: bool)
    ensures
        yes == text_lt(a@, b@),
{
    let left = chars_of(a);
    let right = chars_of(b);
    let n: usize = left.len();
    let m: usize = right.len();
    let mut i: usize = 0;
    assert(a@.skip(0) == a@ && b@.skip(0) == b@);
    while i < n && i < m && left[i] == right[i]
        invariant
            left@ == a@,
            right@ == b@,
            n == left@.len(),
            m == right@.len(),
            i <= n,
            i <= m,
            text_lt(a@, b@) == text_lt(a@.skip(i as int), b@.skip(i as int)),
        decreases n - i,
    {
        assert(a@.skip(i as int).skip(1) == a@.skip(i + 1));
        assert(b@.skip(i as int).skip(1) == b@.skip(i + 1));
        i = i + 1;
    }
    if i == m {
        false
    } else if i == n {
        true
    } else {
        code_point(left[i]) < code_point(right[i])
    }
}

/// No text comes before itself.
pub proof fn lemma_text_lt_irreflexive(a: Seq<char>)
    ensures
        !text_lt(a, a),
    decreases a.len(),
{
    if a.len() > 0 {
        lemma_text_lt_irreflexive(a.skip(1));
    }
}

/// The order of texts is transitive.
pub proof fn lemma_text_lt_transitive(a: Seq<char>, b: Seq<char>, c: Seq<char>)
    requires
        text_lt(a, b),
        text_lt(b, c),
    ensures
        text_lt(a, c),
    decreases a.len(),
{
    if a.len() > 0 && a[0] == b[0] && b[0] == c[0] {
        lemma_text_lt_transitive(a.skip(1), b.skip(1), c.skip(1));
    }
}

/// Of two different texts one comes before the other.
pub proof fn lemma_text_lt_total(a: Seq<char>, b: Seq<char>)
    ensures
        a == b || text_lt(a, b) || text_lt(b, a),
    decreases a.len(),
{
    if a.len() > 0 && b.len() > 0 && a[0] == b[0] {
        lemma_text_lt_total(a.skip(1), b.skip(1));
        if a.skip(1) == b.skip(1) {
            assert(a == seq![a[0]] + a.skip(1));
            assert(b == seq![b[0]] + b.skip(1));
        }
    } else if a.len() == 0 && b.len() == 0 {
        assert(a == b);
    }
}

// ---------------------------------------------------------------------------
// Sorting

/// The places that a list of machine integers names.
pub open spec fn places(list: Seq<usize>) -> Seq<int> {
    list.map_values(|i: usize| i as int)
}

/// Puts place `i` into a list of places sorted by their keys, behind those
/// whose key is not greater.
pub open spec fn insert_by(keys: Seq<Seq<char>>, sorted: Seq<int>, i: int) -> Seq<int>
    decreases sorted.len(),
{
    if sorted.len() > 0 && text_lt(keys[i], keys[sorted.last()]) {
        insert_by(keys, sorted.drop_last(), i).push(sorted.last())
    } else {
        sorted.push(i)
    }
}

/// A list of places sorted by their keys; places with equal keys keep their
/// order.
pub open spec fn sorted_by(keys: Seq<Seq<char>>, picks: Seq<int>) -> Seq<int>
    decreases picks.len(),
{
    if picks.len() == 0 {
        Seq::empty()
    } else {
        insert_by(keys, sorted_by(keys, picks.drop_last()), picks.last())
    }
}

/// Inserting in the middle is inserting into the front part.
proof fn lemma_insert_at(keys: Seq<Seq<char>>, sorted: Seq<int>, i: int, at: int)
    requires
        0 <= at <= sorted.len(),
        forall|j: int|
            at <= j < sorted.len() ==> text_lt(keys[i], keys[#[trigger] sorted[j]]),
        at == 0 || !text_lt(keys[i], keys[sorted[at - 1]]),
    ensures
        insert_by(keys, sorted, i) == sorted.insert(at, i),
    decreases sorted.len(),
{
    if at < sorted.len() {
        assert(sorted.last() == sorted[sorted.len() - 1]);
        lemma_insert_at(keys, sorted.drop_last(), i, at);
        assert(sorted.insert(at, i) == sorted.drop_last().insert(at, i).push(sorted.last()));
    } else {
        assert(sorted.insert(at, i) == sorted.push(i));
    }
}

/// Sorts places by their keys, keeping the order of those with equal keys.
pub fn sort_places(keys: &Vec<String>, picks: &Vec<usize>) -> (out: Vec<usize>)
    requires
        forall|j: int| 0 <= j < picks@.len() ==> #[trigger] picks@[j] < keys@.len(),
    ensures
        places(out@) == sorted_by(texts(keys@), places(picks@)),
{
    let n: usize = picks.len();
    let mut out: Vec<usize> = Vec::new();
    let ghost marks = texts(keys@);
    assert(places(picks@).take(0) == Seq::<int>::empty());
    for k in 0..n
        invariant
            n == picks@.len(),
            marks == texts(keys@),
            out@.len() == k,
            forall|j: int| 0 <= j < picks@.len() ==> #[trigger] picks@[j] < keys@.len(),
            forall|j: int| 0 <= j < out@.len() ==> #[trigger] out@[j] < keys@.len(),
            places(out@) == sorted_by(marks, places(picks@).take(k as int)),
    {
        let i: usize = picks[k];
        let mut at: usize = out.len();
        while at > 0 && comes_before(keys[i].as_str(), keys[out[at - 1]].as_str())
            invariant
                at <= out@.len(),
                i < keys@.len(),
                marks == texts(keys@),
                forall|j: int| 0 <= j < out@.len() ==> #[trigger] out@[j] < keys@.len(),
                forall|j: int|
                    at <= j < out@.len() ==> text_lt(
                        marks[i as int],
                        marks[#[trigger] out@[j] as int],
                    ),
            ensures
                at <= out@.len(),
                forall|j: int|
                    at <= j < out@.len() ==> text_lt(
                        marks[i as int],
                        marks[#[trigger] out@[j] as int],
                    ),
                at == 0 || !text_lt(marks[i as int], marks[out@[at - 1] as int]),
            decreases at,
        {
            at = at - 1;
        }
        proof {
            let before = places(out@);
            assert forall|j: int| at <= j < before.len() implies text_lt(
                marks[i as int],
                marks[#[trigger] before[j]],
            ) by {
                assert(before[j] == out@[j] as int);
            }
            lemma_insert_at(marks, before, i as int, at as int);
            let next = places(picks@).take(k + 1);
            assert(next.drop_last() == places(picks@).take(k as int));
            assert(next.last() == i as int);
            assert(places(out@.insert(at as int, i)) == before.insert(at as int, i as int));
        }
        out.insert(at, i);
    }
    assert(places(picks@).take(n as int) == places(picks@));
    out
}

/// Whether a list of places is sorted by their keys.
pub open spec fn in_order(keys: Seq<Seq<char>>, list: Seq<int>) -> bool {
    forall|i: int, j: int|
        0 <= i < j < list.len() ==> !text_lt(keys[#[trigger] list[j]], keys[#[trigger] list[i]])
}

/// A sorted list of places is in order.
pub proof fn law_sorted_in_order(keys: Seq<Seq<char>>, picks: Seq<int>)
    ensures
        in_order(keys, sorted_by(keys, picks)),
    decreases picks.len(),
{
    if picks.len() > 0 {
        let sorted = sorted_by(keys, picks.drop_last());
        law_sorted_in_order(keys, picks.drop_last());
        lemma_insert_in_order(keys, sorted, picks.last());
    }
}

proof fn lemma_insert_in_order(keys: Seq<Seq<char>>, sorted: Seq<int>, i: int)
    requires
        in_order(keys, sorted),
    ensures
        in_order(keys, insert_by(keys, sorted, i)),
        insert_by(keys, sorted, i).len() == sorted.len() + 1,
        forall|j: int|
            0 <= j <= sorted.len() ==> #[trigger] insert_by(keys, sorted, i)[j] == i
                || sorted.contains(insert_by(keys, sorted, i)[j]),
    decreases sorted.len(),
{
    let out = insert_by(keys, sorted, i);
    if sorted.len() > 0 && text_lt(keys[i], keys[sorted.last()]) {
        let front = sorted.drop_last();
        lemma_insert_in_order(keys, front, i);
        let inner = insert_by(keys, front, i);
        lemma_text_lt_irreflexive(keys[i]);
        assert forall|j: int| 0 <= j < inner.len() implies !text_lt(
            keys[sorted.last()],
            keys[#[trigger] inner[j]],
        ) by {
            if inner[j] == i {
                if text_lt(keys[sorted.last()], keys[i]) {
                    lemma_text_lt_transitive(keys[i], keys[sorted.last()], keys[i]);
                }
            } else {
                let k = choose|k: int| 0 <= k < front.len() && front[k] == inner[j];
                assert(sorted[k] == inner[j]);
                assert(sorted[sorted.len() - 1] == sorted.last());
            }
        }
        assert forall|j: int| 0 <= j <= sorted.len() implies #[trigger] out[j] == i
            || sorted.contains(out[j]) by {
            if j < inner.len() && inner[j] != i {
                let k = choose|k: int| 0 <= k < front.len() && front[k] == inner[j];
                assert(sorted[k] == out[j]);
            } else if j == inner.len() {
                assert(sorted[sorted.len() - 1] == out[j]);
            }
        }
    } else {
        assert forall|a: int| 0 <= a < sorted.len() implies !text_lt(
            keys[i],
            keys[#[trigger] sorted[a]],
        ) by {
            if text_lt(keys[i], keys[sorted[a]]) {
                let last = sorted[sorted.len() - 1];
                lemma_text_lt_total(keys[sorted[a]], keys[last]);
                if text_lt(keys[sorted[a]], keys[last]) {
                    lemma_text_lt_transitive(keys[i], keys[sorted[a]], keys[last]);
                }
                if a < sorted.len() - 1 {
                    assert(!text_lt(keys[last], keys[sorted[a]]));
                }
            }
        }
        assert forall|j: int| 0 <= j <= sorted.len() implies #[trigger] out[j] == i
            || sorted.contains(out[j]) by {
            if j < sorted.len() {
                assert(sorted[j] == out[j]);
            }
        }
    }
}

/// Whether a list of places is sorted by their keys, and where keys are equal by
/// place.
pub open spec fn in_stable_order(keys: Seq<Seq<char>>, list: Seq<int>) -> bool {
    forall|i: int, j: int|
        #![trigger list[i], list[j]]
        0 <= i < j < list.len() ==> text_lt(keys[list[i]], keys[list[j]]) || (keys[list[i]]
            == keys[list[j]] && list[i] < list[j])
}

/// Sorting is stable: of two places with equal keys, the one that came first
/// still does.
pub proof fn law_sorted_stable(keys: Seq<Seq<char>>, picks: Seq<int>)
    requires
        forall|i: int, j: int| 0 <= i < j < picks.len() ==> picks[i] < picks[j],
    ensures
        in_stable_order(keys, sorted_by(keys, picks)),
    decreases picks.len(),
{
    if picks.len() > 0 {
        let front = picks.drop_last();
        let sorted = sorted_by(keys, front);
        law_sorted_stable(keys, front);
        law_sorted_in_order(keys, front);
        law_sorted_same_places(keys, front);
        assert forall|j: int| 0 <= j < sorted.len() implies #[trigger] sorted[j] < picks.last() by {
            broadcast use vstd::seq_lib::group_to_multiset_ensures;

            assert(sorted.contains(sorted[j]));
            assert(sorted.to_multiset().count(sorted[j]) > 0);
            assert(front.contains(sorted[j]));
            let k = choose|k: int| 0 <= k < front.len() && front[k] == sorted[j];
            assert(picks[k] < picks[picks.len() - 1]);
        }
        lemma_insert_stable(keys, sorted, picks.last());
    }
}

proof fn lemma_insert_stable(keys: Seq<Seq<char>>, sorted: Seq<int>, i: int)
    requires
        in_order(keys, sorted),
        in_stable_order(keys, sorted),
        forall|j: int| 0 <= j < sorted.len() ==> #[trigger] sorted[j] < i,
    ensures
        in_stable_order(keys, insert_by(keys, sorted, i)),
    decreases sorted.len(),
{
    let out = insert_by(keys, sorted, i);
    lemma_insert_in_order(keys, sorted, i);
    if sorted.len() > 0 && text_lt(keys[i], keys[sorted.last()]) {
        let front = sorted.drop_last();
        lemma_insert_stable(keys, front, i);
        lemma_insert_in_order(keys, front, i);
        let inner = insert_by(keys, front, i);
        assert forall|a: int| 0 <= a < inner.len() implies text_lt(
            keys[#[trigger] inner[a]],
            keys[sorted.last()],
        ) || (keys[inner[a]] == keys[sorted.last()] && inner[a] < sorted.last()) by {
            if inner[a] != i {
                let k = choose|k: int| 0 <= k < front.len() && front[k] == inner[a];
                assert(sorted[k] == inner[a]);
                assert(sorted[sorted.len() - 1] == sorted.last());
            }
        }
        assert forall|a: int, b: int|
            #![trigger out[a], out[b]]
            0 <= a < b < out.len() implies text_lt(keys[out[a]], keys[out[b]]) || (keys[out[a]]
            == keys[out[b]] && out[a] < out[b]) by {
            if b < inner.len() {
                assert(out[a] == inner[a] && out[b] == inner[b]);
            } else {
                assert(out[a] == inner[a]);
            }
        }
    } else {
        assert forall|a: int, b: int|
            #![trigger out[a], out[b]]
            0 <= a < b < out.len() implies text_lt(keys[out[a]], keys[out[b]]) || (keys[out[a]]
            == keys[out[b]] && out[a] < out[b]) by {
            if b < sorted.len() {
                assert(out[a] == sorted[a] && out[b] == sorted[b]);
            } else {
                assert(out[a] == sorted[a]);
                assert(out[b] == i);
                lemma_text_lt_total(keys[sorted[a]], keys[i]);
                assert(!text_lt(keys[out[b]], keys[out[a]]));
            }
        }
    }
}

/// Sorting loses no place, adds none and repeats none.
pub proof fn law_sorted_same_places(keys: Seq<Seq<char>>, picks: Seq<int>)
    ensures
        sorted_by(keys, picks).to_multiset() == picks.to_multiset(),
    decreases picks.len(),
{
    broadcast use vstd::seq_lib::group_to_multiset_ensures;

    if picks.len() > 0 {
        law_sorted_same_places(keys, picks.drop_last());
        lemma_insert_same_places(keys, sorted_by(keys, picks.drop_last()), picks.last());
        assert(picks == picks.drop_last().push(picks.last()));
    } else {
        assert(sorted_by(keys, picks) == picks);
    }
}

proof fn lemma_insert_same_places(keys: Seq<Seq<char>>, sorted: Seq<int>, i: int)
    ensures
        insert_by(keys, sorted, i).to_multiset() == sorted.to_multiset().insert(i),
    decreases sorted.len(),
{
    broadcast use vstd::seq_lib::group_to_multiset_ensures;

    if sorted.len() > 0 && text_lt(keys[i], keys[sorted.last()]) {
        lemma_insert_same_places(keys, sorted.drop_last(), i);
        assert(sorted == sorted.drop_last().push(sorted.last()));
        assert(sorted.drop_last().to_multiset().insert(i).insert(sorted.last())
            == sorted.drop_last().to_multiset().insert(sorted.last()).insert(i));
    }
}

/// A place stands in the sorted list exactly where it stood in the list, and where
/// none stood twice none does.
pub proof fn lemma_sorted_members(keys: Seq<Seq<char>>, picks: Seq<int>)
    ensures
        sorted_by(keys, picks).len() == picks.len(),
        forall|x: int| #![auto] sorted_by(keys, picks).contains(x) == picks.contains(x),
        picks.no_duplicates() ==> sorted_by(keys, picks).no_duplicates(),
{
    broadcast use vstd::seq_lib::group_to_multiset_ensures;

    let sorted = sorted_by(keys, picks);
    law_sorted_same_places(keys, picks);
    assert forall|x: int| #![auto] sorted.contains(x) == picks.contains(x) by {
        assert(sorted.contains(x) == (sorted.to_multiset().count(x) > 0));
        assert(picks.contains(x) == (picks.to_multiset().count(x) > 0));
    }
    assert(sorted.to_multiset().len() == picks.to_multiset().len());
    if picks.no_duplicates() {
        picks.lemma_multiset_has_no_duplicates();
        sorted.lemma_multiset_has_no_duplicates_conv();
    }
}

// ---------------------------------------------------------------------------
// Lists in strict order

/// Whether the keys of a list grow from one item to the next.
pub open spec fn strictly_sorted<A>(list: Seq<A>, key: spec_fn(A) -> Seq<char>) -> bool {
    forall|i: int, j: int|
        0 <= i < j < list.len() ==> text_lt(key(#[trigger] list[i]), key(#[trigger] list[j]))
}

/// Two lists of the same items, each in strict order, are the same list.
pub proof fn lemma_strictly_sorted_unique<A>(
    a: Seq<A>,
    b: Seq<A>,
    key: spec_fn(A) -> Seq<char>,
)
    requires
        strictly_sorted(a, key),
        strictly_sorted(b, key),
        forall|x: A| a.contains(x) == b.contains(x),
    ensures
        a == b,
    decreases a.len(),
{
    if a.len() == 0 {
        if b.len() > 0 {
            assert(b.contains(b[0]));
        }
    } else {
        assert(a.contains(a[0]));
        assert(b.len() > 0);
        let p = a.last();
        let q = b.last();
        assert(a.contains(a[a.len() - 1]));
        assert(b.contains(b[b.len() - 1]));
        let j = choose|j: int| 0 <= j < b.len() && b[j] == p;
        let i = choose|i: int| 0 <= i < a.len() && a[i] == q;
        if j < b.len() - 1 {
            assert(text_lt(key(b[j]), key(b[b.len() - 1])));
            assert(i < a.len() - 1) by {
                if i == a.len() - 1 {
                    lemma_text_lt_irreflexive(key(p));
                }
            }
            assert(text_lt(key(a[i]), key(a[a.len() - 1])));
            lemma_text_lt_transitive(key(p), key(q), key(p));
            lemma_text_lt_irreflexive(key(p));
        }
        assert(p == q);
        let front = a.drop_last();
        let other = b.drop_last();
        assert forall|x: A| front.contains(x) == other.contains(x) by {
            lemma_strict_front(a, key, x);
            lemma_strict_front(b, key, x);
        }
        assert forall|m: int, n: int| 0 <= m < n < front.len() implies text_lt(
            key(#[trigger] front[m]),
            key(#[trigger] front[n]),
        ) by {
            assert(front[m] == a[m] && front[n] == a[n]);
        }
        assert forall|m: int, n: int| 0 <= m < n < other.len() implies text_lt(
            key(#[trigger] other[m]),
            key(#[trigger] other[n]),
        ) by {
            assert(other[m] == b[m] && other[n] == b[n]);
        }
        lemma_strictly_sorted_unique(front, other, key);
        assert(a == front.push(p));
        assert(b == other.push(q));
    }
}

proof fn lemma_strict_front<A>(list: Seq<A>, key: spec_fn(A) -> Seq<char>, x: A)
    requires
        list.len() > 0,
        strictly_sorted(list, key),
    ensures
        list.drop_last().contains(x) == (list.contains(x) && x != list.last()),
{
    let front = list.drop_last();
    if front.contains(x) {
        let k = choose|k: int| 0 <= k < front.len() && front[k] == x;
        assert(list[k] == x);
        assert(text_lt(key(list[k]), key(list[list.len() - 1])));
        lemma_text_lt_irreflexive(key(x));
    }
    if list.contains(x) && x != list.last() {
        let k = choose|k: int| 0 <= k < list.len() && list[k] == x;
        assert(front[k] == x);
    }
}

/// What decides the order of two texts: at the first place where they differ, the smaller
/// character; where one ends there, it comes first.
pub proof fn law_first_difference_decides(
    front: Seq<char>,
    a: char,
    b: char,
    one: Seq<char>,
    two: Seq<char>,
)
    ensures
        a != b ==> (text_lt(front + seq![a] + one, front + seq![b] + two) <==> (a as int) < (
        b as int)),
        text_lt(front, front + seq![b] + two),
        !text_lt(front + seq![a] + one, front),
    decreases front.len(),
{
    let x = front + seq![a] + one;
    let y = front + seq![b] + two;
    if front.len() == 0 {
        assert(x[0] == a && y[0] == b);
    } else {
        let rest = front.skip(1);
        law_first_difference_decides(rest, a, b, one, two);
        assert(x.skip(1) =~= rest + seq![a] + one);
        assert(y.skip(1) =~= rest + seq![b] + two);
        assert(x[0] == front[0] && y[0] == front[0]);
    }
}

} // verus!
