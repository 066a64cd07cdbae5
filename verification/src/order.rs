//! A stable sort by integer keys, and rotation.

use vstd::prelude::*;

verus! {

/// Something to sort: its key, and where it stood.
#[derive(Debug, Clone, Copy, PartialEq, Eq, Structural)]
pub struct Item {
    pub key: i128,
    pub pos: usize,
}

/// The items with one key, in order.
pub open spec fn with_key(items: Seq<Item>, key: i128) -> Seq<Item> {
    items.filter(|x: Item| x.key == key)
}

/// Whether the keys never fall.
pub open spec fn ascending(items: Seq<Item>) -> bool {
    forall|i: int, j: int|
        0 <= i <= j < items.len() ==> (#[trigger] items[i]).key <= (#[trigger] items[j]).key
}

/// Whether `out` holds the items of `items` sorted by key, those of one key in
/// the order in which they stood.
pub open spec fn stably_sorted(items: Seq<Item>, out: Seq<Item>) -> bool {
    &&& ascending(out)
    &&& out.len() == items.len()
    &&& forall|key: i128| #[trigger] with_key(out, key) == with_key(items, key)
}

proof fn lemma_none_with_key(items: Seq<Item>, key: i128)
    requires
        forall|i: int| 0 <= i < items.len() ==> (#[trigger] items[i]).key != key,
    ensures
        with_key(items, key) == Seq::<Item>::empty(),
    decreases items.len(),
{
    reveal(Seq::filter);
    if items.len() > 0 {
        lemma_none_with_key(items.drop_last(), key);
    }
}

proof fn lemma_push_with_key(items: Seq<Item>, x: Item, key: i128)
    ensures
        with_key(items.push(x), key) == (if x.key == key {
            with_key(items, key).push(x)
        } else {
            with_key(items, key)
        }),
{
    reveal(Seq::filter);
    assert(items.push(x).drop_last() =~= items);
}

/// Merges two sorted runs; of equal keys those of the first come first.
fn merge(a: &Vec<Item>, b: &Vec<Item>) -> (r: Vec<Item>)
    requires
        ascending(a@),
        ascending(b@),
    ensures
        stably_sorted(a@ + b@, r@),
{
    let mut out: Vec<Item> = Vec::new();
    let mut i: usize = 0;
    let mut j: usize = 0;
    proof {
        reveal(Seq::filter);
        assert forall|key: i128| #[trigger] with_key(out@, key) == with_key(a@.take(0), key)
            + with_key(b@.take(0), key) by {
            assert(a@.take(0).len() == 0 && b@.take(0).len() == 0);
        }
    }
    while i < a.len() || j < b.len()
        invariant
            i <= a@.len(),
            j <= b@.len(),
            ascending(a@),
            ascending(b@),
            ascending(out@),
            out@.len() == i + j,
            forall|k: int, l: int|
                0 <= k < i && j <= l < b@.len() ==> (#[trigger] a@[k]).key <= (#[trigger] b@[l]).key,
            forall|k: int, l: int|
                i <= k < a@.len() && 0 <= l < j ==> (#[trigger] b@[l]).key < (#[trigger] a@[k]).key,
            forall|k: int, l: int|
                0 <= k < out@.len() && i <= l < a@.len() ==> (#[trigger] out@[k]).key <= (
                #[trigger] a@[l]).key,
            forall|k: int, l: int|
                0 <= k < out@.len() && j <= l < b@.len() ==> (#[trigger] out@[k]).key <= (
                #[trigger] b@[l]).key,
            forall|key: i128| #[trigger]
                with_key(out@, key) == with_key(a@.take(i as int), key) + with_key(
                    b@.take(j as int),
                    key,
                ),
        decreases a@.len() - i + b@.len() - j,
    {
        let ghost before = out@;
        let first: bool = if i < a.len() {
            if j < b.len() {
                a[i].key <= b[j].key
            } else {
                true
            }
        } else {
            false
        };
        if first {
            let x = a[i];
            out.push(x);
            proof {
                assert(a@.take(i + 1) =~= a@.take(i as int).push(x));
                assert forall|key: i128| #[trigger] with_key(out@, key) == with_key(
                    a@.take(i + 1),
                    key,
                ) + with_key(b@.take(j as int), key) by {
                    lemma_push_with_key(before, x, key);
                    lemma_push_with_key(a@.take(i as int), x, key);
                    assert(with_key(before, key) == with_key(a@.take(i as int), key) + with_key(
                        b@.take(j as int),
                        key,
                    ));
                    if x.key == key {
                        assert forall|k: int| 0 <= k < b@.take(j as int).len() implies (
                        #[trigger] b@.take(j as int)[k]).key != key by {
                            assert(b@[k].key < a@[i as int].key);
                        }
                        lemma_none_with_key(b@.take(j as int), key);
                        assert(with_key(out@, key) =~= with_key(a@.take(i + 1), key) + with_key(
                            b@.take(j as int),
                            key,
                        ));
                    }
                }
            }
            i = i + 1;
        } else {
            let x = b[j];
            out.push(x);
            proof {
                assert(b@.take(j + 1) =~= b@.take(j as int).push(x));
                assert forall|key: i128| #[trigger] with_key(out@, key) == with_key(
                    a@.take(i as int),
                    key,
                ) + with_key(b@.take(j + 1), key) by {
                    lemma_push_with_key(before, x, key);
                    lemma_push_with_key(b@.take(j as int), x, key);
                    assert(with_key(before, key) == with_key(a@.take(i as int), key) + with_key(
                        b@.take(j as int),
                        key,
                    ));
                    assert(with_key(out@, key) =~= with_key(a@.take(i as int), key) + with_key(
                        b@.take(j + 1),
                        key,
                    ));
                }
            }
            j = j + 1;
        }
    }
    proof {
        assert(a@.take(a@.len() as int) =~= a@);
        assert(b@.take(b@.len() as int) =~= b@);
        assert forall|key: i128| #[trigger] with_key(out@, key) == with_key(a@ + b@, key) by {
            Seq::filter_distributes_over_add(a@, b@, |x: Item| x.key == key);
            assert(with_key(out@, key) == with_key(a@, key) + with_key(b@, key));
        }
    }
    out
}

/// Sorts by key; items of one key keep their order.
pub fn stable_sort(items: Vec<Item>) -> (r: Vec<Item>)
    ensures
        stably_sorted(items@, r@),
    decreases items@.len(),
{
    if items.len() <= 1 {
        return items;
    }
    let mut first = items;
    let mid: usize = first.len() / 2;
    let rest = first.split_off(mid);
    let a = stable_sort(first);
    let b = stable_sort(rest);
    let out = merge(&a, &b);
    proof {
        assert(first@ + rest@ =~= items@);
        assert forall|key: i128| #[trigger] with_key(out@, key) == with_key(items@, key) by {
            Seq::filter_distributes_over_add(a@, b@, |x: Item| x.key == key);
            Seq::filter_distributes_over_add(first@, rest@, |x: Item| x.key == key);
            assert(with_key(out@, key) == with_key(a@ + b@, key));
            assert(with_key(a@, key) == with_key(first@, key));
            assert(with_key(b@, key) == with_key(rest@, key));
        }
    }
    out
}

/// Whether `order` lists the positions of some keys by key, those of one key as
/// they stand.
pub open spec fn is_stable_order(keys: Seq<i128>, order: Seq<usize>) -> bool {
    &&& order.len() == keys.len()
    &&& forall|i: int| 0 <= i < order.len() ==> (#[trigger] order[i]) < keys.len()
    &&& forall|i: int, j: int|
        0 <= i < j < order.len() ==> comes_before(keys, #[trigger] order[i], #[trigger] order[j])
}

/// Whether one position comes before another in the order by key.
pub open spec fn comes_before(keys: Seq<i128>, a: usize, b: usize) -> bool {
    keys[a as int] < keys[b as int] || (keys[a as int] == keys[b as int] && a < b)
}

/// Whether the positions rise.
spec fn rising(items: Seq<Item>) -> bool {
    forall|i: int, j: int|
        0 <= i < j < items.len() ==> (#[trigger] items[i]).pos < (#[trigger] items[j]).pos
}

proof fn lemma_filter_has(items: Seq<Item>, key: i128)
    ensures
        forall|i: int|
            0 <= i < with_key(items, key).len() ==> items.contains(
                #[trigger] with_key(items, key)[i],
            ) && with_key(items, key)[i].key == key,
        forall|i: int|
            0 <= i < items.len() && (#[trigger] items[i]).key == key ==> with_key(
                items,
                key,
            ).contains(items[i]),
    decreases items.len(),
{
    reveal(Seq::filter);
    if items.len() > 0 {
        let head = items.drop_last();
        lemma_filter_has(head, key);
        let f = with_key(items, key);
        let g = with_key(head, key);
        assert forall|i: int| 0 <= i < f.len() implies items.contains(#[trigger] f[i])
            && f[i].key == key by {
            if i < g.len() {
                assert(f[i] == g[i]);
                let k = choose|k: int| 0 <= k < head.len() && head[k] == g[i];
                assert(items[k] == f[i]);
            } else {
                assert(items[items.len() - 1] == f[i]);
            }
        }
        assert forall|i: int| 0 <= i < items.len() && (#[trigger] items[i]).key == key implies f.contains(
            items[i],
        ) by {
            if i < head.len() {
                assert(head[i] == items[i]);
                let k = choose|k: int| 0 <= k < g.len() && g[k] == head[i];
                assert(f[k] == items[i]);
            } else {
                assert(f[f.len() - 1] == items[i]);
            }
        }
    }
}

proof fn lemma_filter_rises(items: Seq<Item>, key: i128)
    requires
        rising(items),
    ensures
        rising(with_key(items, key)),
    decreases items.len(),
{
    reveal(Seq::filter);
    if items.len() > 0 {
        let head = items.drop_last();
        assert forall|i: int, j: int| 0 <= i < j < head.len() implies (#[trigger] head[i]).pos < (
        #[trigger] head[j]).pos by {
            assert(items[i].pos < items[j].pos);
        }
        lemma_filter_rises(head, key);
        lemma_filter_has(head, key);
        let f = with_key(items, key);
        let g = with_key(head, key);
        assert forall|i: int, j: int| 0 <= i < j < f.len() implies (#[trigger] f[i]).pos < (
        #[trigger] f[j]).pos by {
            if j < g.len() {
                assert(g[i].pos < g[j].pos);
            } else {
                assert(f[i] == g[i]);
                let k = choose|k: int| 0 <= k < head.len() && head[k] == g[i];
                assert(items[k].pos < items[items.len() - 1].pos);
            }
        }
    }
}

proof fn lemma_order_kept(items: Seq<Item>, i: int, j: int)
    requires
        0 <= i < j < items.len(),
        items[i].key == items[j].key,
        rising(with_key(items, items[i].key)),
    ensures
        items[i].pos < items[j].pos,
    decreases items.len(),
{
    reveal(Seq::filter);
    let key = items[i].key;
    let head = items.drop_last();
    let f = with_key(items, key);
    let g = with_key(head, key);
    if j < head.len() {
        assert forall|a: int, b: int| 0 <= a < b < g.len() implies (#[trigger] g[a]).pos < (
        #[trigger] g[b]).pos by {
            assert(f[a] == g[a] && f[b] == g[b]);
            assert(f[a].pos < f[b].pos);
        }
        lemma_order_kept(head, i, j);
    } else {
        lemma_filter_has(head, key);
        assert(head[i].key == key);
        let k = choose|k: int| 0 <= k < g.len() && g[k] == head[i];
        assert(f[k] == items[i]);
        assert(f[f.len() - 1] == items[j]);
        assert(f[k].pos < f[f.len() - 1].pos);
    }
}

/// The positions of some keys in the order of the keys; those of one key as
/// they stand.
pub fn order_by_key(keys: &Vec<i128>) -> (r: Vec<usize>)
    ensures
        is_stable_order(keys@, r@),
{
    let mut items: Vec<Item> = Vec::new();
    let mut i: usize = 0;
    while i < keys.len()
        invariant
            i <= keys@.len(),
            items@.len() == i,
            forall|k: int|
                0 <= k < i ==> (#[trigger] items@[k]).pos == k && items@[k].key == keys@[k],
        decreases keys@.len() - i,
    {
        items.push(Item { key: keys[i], pos: i });
        i = i + 1;
    }
    let ghost all = items@;
    let sorted = stable_sort(items);
    proof {
        assert forall|k: int| 0 <= k < sorted@.len() implies (#[trigger] sorted@[k]).pos
            < keys@.len() && sorted@[k].key == keys@[sorted@[k].pos as int] by {
            let key = sorted@[k].key;
            lemma_filter_has(sorted@, key);
            lemma_filter_has(all, key);
            assert(with_key(sorted@, key) == with_key(all, key));
            let m = choose|m: int|
                0 <= m < with_key(all, key).len() && with_key(all, key)[m] == sorted@[k];
            assert(all.contains(with_key(all, key)[m]));
            let n = choose|n: int| 0 <= n < all.len() && all[n] == sorted@[k];
            assert(all[n].pos == n);
        }
        assert forall|a: int, b: int| 0 <= a < b < sorted@.len() && sorted@[a].key
            == sorted@[b].key implies (#[trigger] sorted@[a]).pos < (#[trigger] sorted@[b]).pos by {
            lemma_filter_rises(all, sorted@[a].key);
            assert(with_key(sorted@, sorted@[a].key) == with_key(all, sorted@[a].key));
            lemma_order_kept(sorted@, a, b);
        }
    }
    let mut out: Vec<usize> = Vec::new();
    let mut j: usize = 0;
    while j < sorted.len()
        invariant
            j <= sorted@.len(),
            out@.len() == j,
            forall|k: int| 0 <= k < j ==> (#[trigger] out@[k]) == sorted@[k].pos,
        decreases sorted@.len() - j,
    {
        out.push(sorted[j].pos);
        j = j + 1;
    }
    proof {
        assert forall|a: int, b: int| 0 <= a < b < out@.len() implies comes_before(
            keys@,
            #[trigger] out@[a],
            #[trigger] out@[b],
        ) by {
            assert(sorted@[a].key <= sorted@[b].key);
            assert(sorted@[a].key == keys@[sorted@[a].pos as int]);
            assert(sorted@[b].key == keys@[sorted@[b].pos as int]);
        }
    }
    out
}

/// A list turned so that the item at `offset` comes first.
pub open spec fn rotated<T>(s: Seq<T>, offset: int) -> Seq<T> {
    s.skip(offset) + s.take(offset)
}

/// Turns a list so that the item at `offset` comes first.
pub fn rotate_left<T>(items: Vec<T>, offset: usize) -> (r: Vec<T>)
    requires
        offset <= items@.len(),
    ensures
        r@ == rotated(items@, offset as int),
{
    let mut first = items;
    let mut out = first.split_off(offset);
    proof {
        assert(first@ =~= items@.take(offset as int));
        assert(out@ =~= items@.skip(offset as int));
    }
    out.append(&mut first);
    out
}

/// An order by key lists every position once, keys rising, and positions of one
/// key as they stand.
pub proof fn law_orders_list_positions_once(keys: Seq<i128>, order: Seq<usize>, i: int, j: int)
    requires
        is_stable_order(keys, order),
        0 <= i < j < keys.len(),
    ensures
        order.len() == keys.len(),
        order[i] != order[j],
        keys[order[i] as int] <= keys[order[j] as int],
        keys[order[i] as int] == keys[order[j] as int] ==> order[i] < order[j],
{
    assert(comes_before(keys, order[i], order[j]));
}

/// A rotation moves every item the same way round and loses none.
pub proof fn law_rotations_go_round<T>(s: Seq<T>, offset: int, i: int)
    requires
        0 <= offset <= s.len(),
        0 <= i < s.len(),
    ensures
        rotated(s, offset).len() == s.len(),
        i + offset < s.len() ==> rotated(s, offset)[i] == s[i + offset],
        i + offset >= s.len() ==> rotated(s, offset)[i] == s[i + offset - s.len()],
{
}

/// Sorting keeps the items of each key, in their order, and puts the keys in
/// theirs.
pub proof fn law_sorting_keeps_items(items: Seq<Item>, out: Seq<Item>, i: int, j: int, key: i128)
    requires
        stably_sorted(items, out),
    ensures
        out.len() == items.len(),
        0 <= i <= j < out.len() ==> out[i].key <= out[j].key,
        items.filter(|x: Item| x.key == key) == out.filter(|x: Item| x.key == key),
{
    assert(with_key(out, key) == with_key(items, key));
}

} // verus!
