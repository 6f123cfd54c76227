//! Putting things in the order of their keys.
use vstd::prelude::*;

use crate::text;

verus! {

/// The indices with `next` put behind all whose key does not come after its
/// own.
pub open spec fn placed(order: Seq<int>, keys: Seq<Seq<u8>>, next: int) -> Seq<int>
    decreases order.len(),
{
    if order.len() > 0 && text::bytes_before(keys[next], keys[order.last()]) {
        placed(order.drop_last(), keys, next).push(order.last())
    } else {
        order.push(next)
    }
}

/// The indices of the first `n` keys in the order of the keys. Equal keys stay
/// in the order they were given in.
pub open spec fn order_of_first(keys: Seq<Seq<u8>>, n: nat) -> Seq<int>
    decreases n,
{
    if n == 0 {
        Seq::empty()
    } else {
        placed(order_of_first(keys, (n - 1) as nat), keys, n - 1)
    }
}

/// The indices of the keys in the order of the keys. Equal keys stay in the
/// order they were given in.
pub open spec fn sorted_order(keys: Seq<Seq<u8>>) -> Seq<int> {
    order_of_first(keys, keys.len())
}

/// Whether every index below `n` occurs exactly once.
pub open spec fn is_permutation(order: Seq<int>, n: nat) -> bool {
    &&& order.len() == n
    &&& order.no_duplicates()
    &&& forall|i: int| 0 <= i < order.len() ==> 0 <= (#[trigger] order[i]) < n
}

/// Whether no key comes before an earlier one, and equal keys are in the order
/// they were given in.
pub open spec fn is_ascending(order: Seq<int>, keys: Seq<Seq<u8>>) -> bool {
    forall|i: int, j: int|
        0 <= i < j < order.len() ==> !text::bytes_before(keys[#[trigger] order[j]], keys[#[trigger] order[i]]) && (
        keys[order[i]] == keys[order[j]] ==> order[i] < order[j])
}

proof fn lemma_placed(order: Seq<int>, keys: Seq<Seq<u8>>, next: int)
    requires
        is_ascending(order, keys),
        forall|i: int| 0 <= i < order.len() ==> 0 <= (#[trigger] order[i]) < next,
        order.no_duplicates(),
    ensures
        is_ascending(placed(order, keys, next), keys),
        placed(order, keys, next).len() == order.len() + 1,
        placed(order, keys, next).no_duplicates(),
        forall|i: int| 0 <= i < placed(order, keys, next).len() ==> (#[trigger] placed(order, keys, next)[i]) == next
            || order.contains(placed(order, keys, next)[i]),
    decreases order.len(),
{
    let result = placed(order, keys, next);
    if order.len() > 0 && text::bytes_before(keys[next], keys[order.last()]) {
        let head = order.drop_last();
        let last = order.last();
        assert(last == order[order.len() - 1]);
        assert forall|i: int| 0 <= i < head.len() implies 0 <= (#[trigger] head[i]) < next by {
            assert(head[i] == order[i]);
        }
        assert(is_ascending(head, keys)) by {
            assert forall|i: int, j: int| 0 <= i < j < head.len() implies !text::bytes_before(
                keys[#[trigger] head[j]],
                keys[#[trigger] head[i]],
            ) && (keys[head[i]] == keys[head[j]] ==> head[i] < head[j]) by {
                assert(head[i] == order[i] && head[j] == order[j]);
            }
        }
        lemma_placed(head, keys, next);
        let inner = placed(head, keys, next);
        assert forall|i: int, j: int| 0 <= i < j < result.len() implies !text::bytes_before(
            keys[#[trigger] result[j]],
            keys[#[trigger] result[i]],
        ) && (keys[result[i]] == keys[result[j]] ==> result[i] < result[j]) by {
            assert(result[i] == inner[i]);
            if j < inner.len() {
                assert(result[j] == inner[j]);
            } else {
                assert(result[j] == last);
                if inner[i] == next {
                    text::lemma_bytes_total(keys[next], keys[last]);
                    text::lemma_bytes_irreflexive(keys[next]);
                } else {
                    assert(head.contains(inner[i]));
                    let k = choose|k: int| 0 <= k < head.len() && head[k] == inner[i];
                    assert(order[k] == inner[i]);
                    assert(order[order.len() - 1] == last);
                }
            }
        }
        assert forall|i: int| 0 <= i < result.len() implies (#[trigger] result[i]) == next || order.contains(
            result[i],
        ) by {
            if i < inner.len() {
                assert(result[i] == inner[i]);
                if inner[i] != next {
                    let k = choose|k: int| 0 <= k < head.len() && head[k] == inner[i];
                    assert(order[k] == inner[i]);
                }
            } else {
                assert(result[i] == last);
            }
        }
        assert(result.no_duplicates()) by {
            assert forall|i: int, j: int| 0 <= i < result.len() && 0 <= j < result.len() && i != j implies result[i]
                != result[j] by {
                if i < inner.len() && j < inner.len() {
                    assert(result[i] == inner[i] && result[j] == inner[j]);
                } else {
                    let m = if i < inner.len() { i } else { j };
                    assert(result[m] == inner[m]);
                    if inner[m] != next {
                        let k = choose|k: int| 0 <= k < head.len() && head[k] == inner[m];
                        assert(order[k] == inner[m]);
                        assert(order[order.len() - 1] == last);
                    }
                }
            }
        }
    } else {
        assert(result =~= order.push(next));
        assert forall|i: int, j: int| 0 <= i < j < result.len() implies !text::bytes_before(
            keys[#[trigger] result[j]],
            keys[#[trigger] result[i]],
        ) && (keys[result[i]] == keys[result[j]] ==> result[i] < result[j]) by {
            assert(result[i] == order[i]);
            if j < order.len() {
                assert(result[j] == order[j]);
            } else {
                let last = order.last();
                assert(order[order.len() - 1] == last);
                if i < order.len() - 1 {
                    assert(!text::bytes_before(keys[last], keys[order[i]]));
                    if text::bytes_before(keys[next], keys[order[i]]) {
                        text::lemma_bytes_total(keys[order[i]], keys[last]);
                        if keys[order[i]] != keys[last] {
                            text::lemma_bytes_transitive(keys[next], keys[order[i]], keys[last]);
                        }
                    }
                }
            }
        }
        assert forall|i: int| 0 <= i < result.len() implies (#[trigger] result[i]) == next || order.contains(
            result[i],
        ) by {
            if i < order.len() {
                assert(result[i] == order[i]);
            }
        }
    }
}

proof fn lemma_order_of_first(keys: Seq<Seq<u8>>, n: nat)
    requires
        n <= keys.len(),
    ensures
        is_permutation(order_of_first(keys, n), n),
        is_ascending(order_of_first(keys, n), keys),
    decreases n,
{
    if n > 0 {
        let before = order_of_first(keys, (n - 1) as nat);
        lemma_order_of_first(keys, (n - 1) as nat);
        lemma_placed(before, keys, n - 1);
        let result = order_of_first(keys, n);
        assert forall|i: int| 0 <= i < result.len() implies 0 <= (#[trigger] result[i]) < n by {
            if result[i] != n - 1 {
                assert(before.contains(result[i]));
            }
        }
    }
}

/// Sorting keeps every item, puts no key before a smaller one, and keeps equal
/// keys in the order they were given in.
pub proof fn law_sorted_order(keys: Seq<Seq<u8>>)
    ensures
        is_permutation(sorted_order(keys), keys.len()),
        is_ascending(sorted_order(keys), keys),
{
    lemma_order_of_first(keys, keys.len());
}

/// A permutation reaches every index.
pub proof fn lemma_permutation_reaches(order: Seq<int>, n: nat, i: int)
    requires
        is_permutation(order, n),
        0 <= i < n,
    ensures
        order.contains(i),
{
    order.unique_seq_to_set();
    let all = vstd::set_lib::set_int_range(0, n as int);
    vstd::set_lib::lemma_int_range(0, n as int);
    let reached = order.to_set();
    assert(reached.subset_of(all)) by {
        assert forall|x: int| reached.contains(x) implies all.contains(x) by {
            let k = choose|k: int| 0 <= k < order.len() && order[k] == x;
            assert(0 <= order[k] < n);
        }
    }
    vstd::set_lib::lemma_subset_equality(reached, all);
    assert(reached.contains(i));
}

/// The keys of a list of keys.
pub open spec fn key_views(keys: Seq<Vec<u8>>) -> Seq<Seq<u8>> {
    keys.map_values(|k: Vec<u8>| k@)
}

/// Indices, as numbers.
pub open spec fn index_views(order: Seq<usize>) -> Seq<int> {
    order.map_values(|i: usize| i as int)
}

/// The indices of the keys in the order of the keys.
pub fn sort_order(keys: &Vec<Vec<u8>>) -> (order: Vec<usize>)
    ensures
        index_views(order@) == sorted_order(key_views(keys@)),
        is_permutation(index_views(order@), keys@.len()),
{
    let ghost views = key_views(keys@);
    let mut order: Vec<usize> = Vec::new();
    assert(index_views(order@) =~= order_of_first(views, 0));
    for n in 0..keys.len()
        invariant
            views == key_views(keys@),
            index_views(order@) == order_of_first(views, n as nat),
            order@.len() == n,
            forall|i: int| 0 <= i < order@.len() ==> (#[trigger] order@[i]) < keys@.len(),
    {
        let ghost before = index_views(order@);
        let mut at: usize = order.len();
        assert(before.take(before.len() as int) =~= before);
        assert(before.skip(before.len() as int) =~= Seq::empty());
        while at > 0 && text::bytes_less(keys[n].as_slice(), keys[order[at - 1]].as_slice())
            invariant
                n < keys@.len(),
                views == key_views(keys@),
                at <= order@.len(),
                before == index_views(order@),
                forall|i: int| 0 <= i < order@.len() ==> (#[trigger] order@[i]) < keys@.len(),
                placed(before, views, n as int) == placed(before.take(at as int), views, n as int)
                    + before.skip(at as int),
            decreases at,
        {
            let ghost head = before.take(at as int);
            assert(head.last() == order@[at - 1] as int);
            assert(head.drop_last() =~= before.take(at - 1));
            assert(placed(head, views, n as int) == placed(before.take(at - 1), views, n as int).push(
                before[at - 1],
            ));
            assert(placed(before.take(at - 1), views, n as int).push(before[at - 1]) + before.skip(
                at as int,
            ) =~= placed(before.take(at - 1), views, n as int) + before.skip(at - 1));
            at = at - 1;
        }
        let ghost head = before.take(at as int);
        proof {
            if at > 0 {
                assert(head.last() == order@[at - 1] as int);
            }
            assert(placed(head, views, n as int) == head.push(n as int));
        }
        order.insert(at, n);
        assert(index_views(order@) =~= head.push(n as int) + before.skip(at as int));
    }
    proof {
        law_sorted_order(views);
    }
    order
}

/// Whether each key comes before all later ones.
pub open spec fn strictly_ascending(keys: Seq<Seq<u8>>) -> bool {
    forall|i: int, j: int|
        0 <= i < j < keys.len() ==> text::bytes_before(#[trigger] keys[i], #[trigger] keys[j])
}

/// The same keys stand in one strict order only.
pub proof fn lemma_one_strict_order(a: Seq<Seq<u8>>, b: Seq<Seq<u8>>)
    requires
        strictly_ascending(a),
        strictly_ascending(b),
        forall|k: Seq<u8>| #[trigger] a.contains(k) <==> b.contains(k),
    ensures
        a == b,
    decreases a.len(),
{
    if a.len() == 0 {
        if b.len() > 0 {
            assert(b.contains(b[0]));
            assert(a.contains(b[0]));
        }
        assert(a =~= b);
    } else {
        assert(a[0] == a[0]);
        assert(a.contains(a[0]));
        assert(b.contains(a[0]));
        assert(b.len() > 0);
        let x = a.last();
        let y = b.last();
        assert(a.contains(x)) by {
            assert(a[a.len() - 1] == x);
        }
        assert(b.contains(y)) by {
            assert(b[b.len() - 1] == y);
        }
        assert(b.contains(x));
        assert(a.contains(y));
        let k = choose|k: int| 0 <= k < b.len() && b[k] == x;
        let m = choose|m: int| 0 <= m < a.len() && a[m] == y;
        if x != y {
            assert(text::bytes_before(b[k], b[b.len() - 1]));
            assert(text::bytes_before(a[m], a[a.len() - 1]));
            text::lemma_bytes_total(x, y);
        }
        assert(x == y);
        let p = a.drop_last();
        let q = b.drop_last();
        assert forall|key: Seq<u8>| #[trigger] p.contains(key) <==> q.contains(key) by {
            if p.contains(key) {
                let i = choose|i: int| 0 <= i < p.len() && p[i] == key;
                assert(a[i] == key);
                assert(a.contains(key));
                let j = choose|j: int| 0 <= j < b.len() && b[j] == key;
                assert(text::bytes_before(a[i], a[a.len() - 1]));
                text::lemma_bytes_irreflexive(x);
                assert(q[j] == key);
            }
            if q.contains(key) {
                let i = choose|i: int| 0 <= i < q.len() && q[i] == key;
                assert(b[i] == key);
                assert(b.contains(key));
                assert(a.contains(key));
                let j = choose|j: int| 0 <= j < a.len() && a[j] == key;
                assert(text::bytes_before(b[i], b[b.len() - 1]));
                text::lemma_bytes_irreflexive(y);
                assert(key != x);
                assert(j != a.len() - 1);
                assert(p[j] == key);
            }
        }
        assert(strictly_ascending(p)) by {
            assert forall|i: int, j: int| 0 <= i < j < p.len() implies text::bytes_before(
                #[trigger] p[i],
                #[trigger] p[j],
            ) by {
                assert(p[i] == a[i] && p[j] == a[j]);
            }
        }
        assert(strictly_ascending(q)) by {
            assert forall|i: int, j: int| 0 <= i < j < q.len() implies text::bytes_before(
                #[trigger] q[i],
                #[trigger] q[j],
            ) by {
                assert(q[i] == b[i] && q[j] == b[j]);
            }
        }
        lemma_one_strict_order(p, q);
        assert(a =~= p.push(x));
        assert(b =~= q.push(y));
    }
}

/// The keys in their order.
pub open spec fn sorted_keys(keys: Seq<Seq<u8>>) -> Seq<Seq<u8>> {
    let order = sorted_order(keys);
    Seq::new(order.len(), |i: int| keys[order[i]])
}

/// Different keys stand in a strict order, and are the keys that were given.
pub proof fn lemma_sorted_keys(keys: Seq<Seq<u8>>)
    requires
        keys.no_duplicates(),
    ensures
        strictly_ascending(sorted_keys(keys)),
        forall|k: Seq<u8>| #[trigger] sorted_keys(keys).contains(k) <==> keys.contains(k),
{
    law_sorted_order(keys);
    let order = sorted_order(keys);
    let sorted = sorted_keys(keys);
    assert forall|i: int, j: int| 0 <= i < j < sorted.len() implies text::bytes_before(
        #[trigger] sorted[i],
        #[trigger] sorted[j],
    ) by {
        assert(order[i] != order[j]);
        assert(keys[order[i]] != keys[order[j]]);
        text::lemma_bytes_total(keys[order[i]], keys[order[j]]);
    }
    assert forall|k: Seq<u8>| #[trigger] sorted.contains(k) <==> keys.contains(k) by {
        if sorted.contains(k) {
            let i = choose|i: int| 0 <= i < sorted.len() && sorted[i] == k;
            assert(keys[order[i]] == k);
        }
        if keys.contains(k) {
            let i = choose|i: int| 0 <= i < keys.len() && keys[i] == k;
            lemma_permutation_reaches(order, keys.len(), i);
            let m = choose|m: int| 0 <= m < order.len() && order[m] == i;
            assert(sorted[m] == k);
        }
    }
}

} // verus!
