//! Ordering rows by an integer key, keeping rows with equal keys in the
//! order in which they were stored.

use vstd::prelude::*;

verus! {

/// Row `a` comes before row `b`: its key is smaller, or the keys are equal
/// and it was stored earlier.
pub open spec fn precedes(keys: Seq<i128>, a: int, b: int) -> bool {
    keys[a] < keys[b] || (keys[a] == keys[b] && a < b)
}

/// Whether `order` lists the positions of all the rows, each once, so that
/// every row comes before the rows listed after it.
pub open spec fn is_stable_order(keys: Seq<i128>, order: Seq<usize>) -> bool {
    &&& order.len() == keys.len()
    &&& forall|k: int| 0 <= k < order.len() ==> (#[trigger] order[k]) < keys.len()
    &&& forall|j: usize| j < keys.len() ==> order.contains(j)
    &&& forall|a: int, b: int|
        0 <= a < b < order.len() ==> precedes(keys, #[trigger] order[a] as int, #[trigger] order[b] as int)
}

/// Where a row with the key `key`, stored after all the rows listed in
/// `order`, goes: behind the last row whose key is not greater.
pub open spec fn insertion_point(keys: Seq<i128>, order: Seq<usize>, key: i128) -> int
    decreases order.len(),
{
    if order.len() == 0 {
        0
    } else if keys[order.last() as int] <= key {
        order.len() as int
    } else {
        insertion_point(keys, order.drop_last(), key)
    }
}

/// The positions of the rows in ascending order of their keys, rows with
/// equal keys in the order in which they were stored.
pub open spec fn stable_order(keys: Seq<i128>) -> Seq<usize>
    decreases keys.len(),
{
    if keys.len() == 0 {
        Seq::empty()
    } else {
        let earlier = stable_order(keys.drop_last());
        earlier.insert(
            insertion_point(keys, earlier, keys.last()),
            (keys.len() - 1) as usize,
        )
    }
}

/// The rows in ascending order of their keys, rows with equal keys in the
/// order in which they were stored.
pub open spec fn arranged<T>(rows: Seq<T>, keys: Seq<i128>) -> Seq<T> {
    stable_order(keys).map_values(|k: usize| rows[k as int])
}

proof fn lemma_insertion_point_bounds(keys: Seq<i128>, order: Seq<usize>, key: i128)
    ensures
        0 <= insertion_point(keys, order, key) <= order.len(),
        forall|k: int|
            insertion_point(keys, order, key) <= k < order.len() ==> keys[(#[trigger] order[k]) as int] > key,
        insertion_point(keys, order, key) > 0 ==> keys[order[insertion_point(keys, order, key)
            - 1] as int] <= key,
    decreases order.len(),
{
    if order.len() > 0 && keys[order.last() as int] > key {
        let shorter = order.drop_last();
        lemma_insertion_point_bounds(keys, shorter, key);
        let p = insertion_point(keys, order, key);
        assert forall|k: int| p <= k < order.len() implies keys[(#[trigger] order[k]) as int]
            > key by {
            if k < shorter.len() {
                assert(shorter[k] == order[k]);
            }
        }
        if p > 0 {
            assert(shorter[p - 1] == order[p - 1]);
        }
    }
}

/// The order that [`stable_order`] gives is the one that
/// [`is_stable_order`] describes.
pub proof fn lemma_stable_order(keys: Seq<i128>)
    requires
        keys.len() <= usize::MAX,
    ensures
        is_stable_order(keys, stable_order(keys)),
    decreases keys.len(),
{
    if keys.len() > 0 {
        let before = keys.drop_last();
        let earlier = stable_order(before);
        let key = keys.last();
        let last = (keys.len() - 1) as usize;
        let p = insertion_point(keys, earlier, key);
        let order = stable_order(keys);
        lemma_stable_order(before);
        lemma_insertion_point_bounds(keys, earlier, key);
        assert(order == earlier.insert(p, last));
        assert forall|j: usize| j < keys.len() implies order.contains(j) by {
            if j == last {
                assert(order[p] == last);
            } else {
                assert(earlier.contains(j));
                let k = choose|k: int| 0 <= k < earlier.len() && earlier[k] == j;
                if k < p {
                    assert(order[k] == j);
                } else {
                    assert(order[k + 1] == j);
                }
            }
        }
        assert forall|a: int, b: int| 0 <= a < b < order.len() implies precedes(
            keys,
            #[trigger] order[a] as int,
            #[trigger] order[b] as int,
        ) by {
            let ea = if a < p { a } else { a - 1 };
            let eb = if b < p { b } else { b - 1 };
            if a != p && b != p {
                assert(precedes(before, earlier[ea] as int, earlier[eb] as int));
            } else if a == p {
                assert(keys[earlier[eb] as int] > key);
            } else {
                // The sorted prefix ends in a key that is not greater.
                if ea < p - 1 {
                    assert(precedes(before, earlier[ea] as int, earlier[p - 1] as int));
                }
            }
        }
    }
}

/// A row whose key is not smaller than any other key, stored after all the
/// others, comes last.
pub proof fn lemma_arranged_push_greatest<T>(rows: Seq<T>, keys: Seq<i128>, row: T, key: i128)
    requires
        keys.len() == rows.len(),
        rows.len() < usize::MAX,
        forall|i: int| 0 <= i < keys.len() ==> keys[i] <= key,
    ensures
        arranged(rows.push(row), keys.push(key)) == arranged(rows, keys).push(row),
{
    let longer = keys.push(key);
    let earlier = stable_order(keys);
    assert(longer.drop_last() == keys);
    assert(longer.last() == key);
    lemma_stable_order(keys);
    if earlier.len() > 0 {
        let last = earlier.last();
        assert(earlier[earlier.len() - 1] < keys.len());
        assert(longer[last as int] == keys[last as int]);
    }
    assert(insertion_point(longer, earlier, key) == earlier.len());
    assert(stable_order(longer) == earlier.push(keys.len() as usize));
    assert forall|k: int| 0 <= k < earlier.len() implies (#[trigger] earlier[k]) < rows.len() by {}
    assert(arranged(rows.push(row), longer) =~= arranged(rows, keys).push(row));
}

/// Sorts the positions `0..keys.len()` by key, ascending; positions with
/// equal keys stay in ascending order.
pub fn sort_positions(keys: &Vec<i128>) -> (order: Vec<usize>)
    ensures
        order@ == stable_order(keys@),
        is_stable_order(keys@, order@),
{
    let mut order: Vec<usize> = Vec::new();
    let mut i: usize = 0;
    while i < keys.len()
        invariant
            i <= keys.len(),
            order@ == stable_order(keys@.take(i as int)),
            order@.len() == i,
            forall|k: int| 0 <= k < order@.len() ==> (#[trigger] order@[k]) < i,
        decreases keys.len() - i,
    {
        let key: i128 = keys[i];
        let ghost prefix = keys@.take(i as int + 1);
        let mut p: usize = order.len();
        assert(order@.take(p as int) == order@);
        while p > 0 && keys[order[p - 1]] > key
            invariant
                p <= order@.len(),
                order@.len() == i,
                i < keys.len(),
                key == keys@[i as int],
                prefix == keys@.take(i as int + 1),
                forall|k: int| 0 <= k < order@.len() ==> (#[trigger] order@[k]) < i,
                insertion_point(prefix, order@, key) == insertion_point(
                    prefix,
                    order@.take(p as int),
                    key,
                ),
            decreases p,
        {
            assert(order@.take(p as int).drop_last() == order@.take(p as int - 1));
            p = p - 1;
        }
        proof {
            assert(prefix.drop_last() == keys@.take(i as int));
            assert(prefix.last() == key);
            assert(insertion_point(prefix, order@, key) == p);
        }
        order.insert(p, i);
        i = i + 1;
    }
    proof {
        assert(keys@.take(keys.len() as int) == keys@);
        lemma_stable_order(keys@);
    }
    order
}

/// The rows in ascending order of their keys, rows with equal keys in the
/// order in which they stand in `rows`.
pub fn arrange<T: Copy>(rows: &Vec<T>, keys: &Vec<i128>) -> (sorted: Vec<T>)
    requires
        keys@.len() == rows@.len(),
    ensures
        sorted@ == arranged(rows@, keys@),
{
    let order = sort_positions(keys);
    let mut sorted: Vec<T> = Vec::new();
    let mut i: usize = 0;
    while i < order.len()
        invariant
            i <= order@.len(),
            keys@.len() == rows@.len(),
            is_stable_order(keys@, order@),
            sorted@ == arranged(rows@, keys@).take(i as int),
            order@ == stable_order(keys@),
        decreases order.len() - i,
    {
        sorted.push(rows[order[i]]);
        proof {
            assert(sorted@ =~= arranged(rows@, keys@).take(i as int + 1));
        }
        i = i + 1;
    }
    proof {
        assert(sorted@ =~= arranged(rows@, keys@));
    }
    sorted
}

/// The id that a table gives its next row: one more than the greatest id in
/// use, and 1 where no id above 0 is in use.
pub open spec fn next_id(ids: Seq<i64>) -> int
    decreases ids.len(),
{
    if ids.len() == 0 {
        1
    } else {
        let earlier = next_id(ids.drop_last());
        if ids.last() + 1 > earlier {
            ids.last() + 1
        } else {
            earlier
        }
    }
}

/// The next id is greater than every id in use, and can be written as an
/// `i64` unless the greatest `i64` is in use.
pub proof fn lemma_next_id(ids: Seq<i64>)
    ensures
        1 <= next_id(ids) <= i64::MAX + 1,
        forall|i: int| 0 <= i < ids.len() ==> (#[trigger] ids[i]) < next_id(ids),
        next_id(ids) == i64::MAX + 1 <==> exists|i: int|
            0 <= i < ids.len() && #[trigger] ids[i] == i64::MAX,
    decreases ids.len(),
{
    if ids.len() > 0 {
        let earlier = ids.drop_last();
        lemma_next_id(earlier);
        assert forall|i: int| 0 <= i < ids.len() implies (#[trigger] ids[i]) < next_id(ids) by {
            if i < earlier.len() {
                assert(earlier[i] == ids[i]);
            }
        }
        if next_id(ids) == i64::MAX + 1 {
            if ids.last() == i64::MAX {
                assert(ids[ids.len() - 1] == i64::MAX);
            } else {
                let i = choose|i: int| 0 <= i < earlier.len() && #[trigger] earlier[i] == i64::MAX;
                assert(ids[i] == i64::MAX);
            }
        }
        if exists|i: int| 0 <= i < ids.len() && #[trigger] ids[i] == i64::MAX {
            let i = choose|i: int| 0 <= i < ids.len() && #[trigger] ids[i] == i64::MAX;
            if i < earlier.len() {
                assert(earlier[i] == i64::MAX);
            }
        }
    }
}

} // verus!
