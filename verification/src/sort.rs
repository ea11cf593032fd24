//! Stable ordering of items by a string key.
//!
//! The order is given as a sequence of positions: the item to take first, the
//! item to take second, and so on. Items whose keys are equal keep the order
//! in which they were given.

use vstd::prelude::*;
use crate::order::{
    bytes_le, key_of, lemma_bytes_le_antisymmetric, lemma_bytes_le_reflexive,
    lemma_bytes_le_total, lemma_bytes_le_transitive, str_le,
};

verus! {

/// What it means for `p` to list the positions of `keys` in stable ascending
/// order: every position occurs once, keys never descend along `p`, and
/// positions with equal keys appear in increasing order.
pub open spec fn is_stable_order(keys: Seq<Seq<u8>>, p: Seq<int>) -> bool {
    &&& p.len() == keys.len()
    &&& forall|k: int| 0 <= k < p.len() ==> 0 <= #[trigger] p[k] < keys.len()
    &&& forall|a: int, b: int| 0 <= a < b < p.len() ==> p[a] != p[b]
    &&& forall|a: int, b: int|
        0 <= a < b < p.len() ==> bytes_le(#[trigger] keys[p[a]], #[trigger] keys[p[b]])
    &&& forall|a: int, b: int|
        0 <= a < b < p.len() && #[trigger] keys[p[a]] == #[trigger] keys[p[b]] ==> p[a] < p[b]
}

/// Where position `i` goes in `order`: behind the last listed position whose
/// key is no later than the key at `i`.
pub open spec fn insert_pos(order: Seq<int>, keys: Seq<Seq<u8>>, i: int) -> int
    decreases order.len(),
{
    if order.len() == 0 {
        0
    } else if bytes_le(keys[order.last()], keys[i]) {
        order.len() as int
    } else {
        insert_pos(order.drop_last(), keys, i)
    }
}

/// The stable order of the first `n` positions of `keys`.
pub open spec fn order_of_first(keys: Seq<Seq<u8>>, n: nat) -> Seq<int>
    decreases n,
{
    if n == 0 {
        Seq::empty()
    } else {
        let rest = order_of_first(keys, (n - 1) as nat);
        rest.insert(insert_pos(rest, keys, n - 1), n - 1)
    }
}

/// The positions of `keys` in stable ascending order.
pub open spec fn sorted_order(keys: Seq<Seq<u8>>) -> Seq<int> {
    order_of_first(keys, keys.len())
}

/// The keys of a sequence of strings.
pub open spec fn keys_of(names: Seq<&str>) -> Seq<Seq<u8>> {
    Seq::new(names.len(), |i: int| key_of(names[i]@))
}

/// What lies on either side of the place found for position `i`: directly
/// before it a key no later than the key at `i`, behind it only keys that come
/// strictly later.
proof fn lemma_insert_pos_splits(order: Seq<int>, keys: Seq<Seq<u8>>, i: int)
    ensures
        0 <= insert_pos(order, keys, i) <= order.len(),
        insert_pos(order, keys, i) > 0 ==> bytes_le(
            keys[order[insert_pos(order, keys, i) - 1]],
            keys[i],
        ),
        forall|k: int|
            insert_pos(order, keys, i) <= k < order.len() ==> !bytes_le(
                keys[#[trigger] order[k]],
                keys[i],
            ),
    decreases order.len(),
{
    if order.len() > 0 && !bytes_le(keys[order.last()], keys[i]) {
        let front = order.drop_last();
        lemma_insert_pos_splits(front, keys, i);
        let pos = insert_pos(order, keys, i);
        assert(pos == insert_pos(front, keys, i));
        if pos > 0 {
            assert(front[pos - 1] == order[pos - 1]);
        }
        assert forall|k: int| pos <= k < order.len() implies !bytes_le(
            keys[#[trigger] order[k]],
            keys[i],
        ) by {
            if k < front.len() {
                assert(front[k] == order[k]);
            }
        }
    }
}

proof fn lemma_order_of_first_is_stable(keys: Seq<Seq<u8>>, n: nat)
    requires
        n <= keys.len(),
    ensures
        is_stable_order(keys.take(n as int), order_of_first(keys, n)),
    decreases n,
{
    let p = order_of_first(keys, n);
    let ks = keys.take(n as int);
    if n > 0 {
        let i = n - 1;
        let rest = order_of_first(keys, i as nat);
        let pos = insert_pos(rest, keys, i);
        lemma_order_of_first_is_stable(keys, i as nat);
        lemma_insert_pos_splits(rest, keys, i);
        let ki = keys.take(i);
        assert(is_stable_order(ki, rest));
        assert forall|k: int| 0 <= k < rest.len() implies ki[rest[k]] == keys[#[trigger] rest[k]] by {}
        assert forall|k: int| 0 <= k < p.len() implies 0 <= #[trigger] p[k] < ks.len() by {
            if k < pos {
                assert(p[k] == rest[k]);
            } else if k > pos {
                assert(p[k] == rest[k - 1]);
            }
        }
        assert forall|k: int| 0 <= k < p.len() implies ks[p[k]] == keys[#[trigger] p[k]] by {}
        // Every key before the place found is no later than the key at `i`.
        assert forall|k: int| 0 <= k < pos implies bytes_le(keys[#[trigger] rest[k]], keys[i]) by {
            if k < pos - 1 {
                assert(bytes_le(ki[rest[k]], ki[rest[pos - 1]]));
                lemma_bytes_le_transitive(keys[rest[k]], keys[rest[pos - 1]], keys[i]);
            }
        }
        assert forall|a: int, b: int| 0 <= a < b < p.len() implies p[a] != p[b] by {
            let ra = if a < pos { a } else { a - 1 };
            let rb = if b < pos { b } else { b - 1 };
            if a != pos && b != pos {
                assert(p[a] == rest[ra] && p[b] == rest[rb]);
            } else if a == pos {
                assert(p[b] == rest[rb]);
            } else {
                assert(p[a] == rest[ra]);
            }
        }
        assert forall|a: int, b: int| 0 <= a < b < p.len() implies bytes_le(
            #[trigger] ks[p[a]],
            #[trigger] ks[p[b]],
        ) by {
            let ra = if a < pos { a } else { a - 1 };
            let rb = if b < pos { b } else { b - 1 };
            if a != pos && b != pos {
                assert(p[a] == rest[ra] && p[b] == rest[rb]);
                assert(bytes_le(ki[rest[ra]], ki[rest[rb]]));
            } else if a == pos {
                assert(p[b] == rest[rb]);
                assert(!bytes_le(keys[rest[rb]], keys[i]));
                lemma_bytes_le_total(keys[rest[rb]], keys[i]);
            } else {
                assert(p[a] == rest[ra]);
                assert(bytes_le(keys[rest[ra]], keys[i]));
            }
        }
        assert forall|a: int, b: int|
            0 <= a < b < p.len() && #[trigger] ks[p[a]] == #[trigger] ks[p[b]] implies p[a]
            < p[b] by {
            let ra = if a < pos { a } else { a - 1 };
            let rb = if b < pos { b } else { b - 1 };
            if a != pos && b != pos {
                assert(p[a] == rest[ra] && p[b] == rest[rb]);
                assert(ki[rest[ra]] == ki[rest[rb]]);
            } else if a == pos {
                assert(p[b] == rest[rb]);
                assert(!bytes_le(keys[rest[rb]], keys[i]));
                lemma_bytes_le_reflexive(keys[i]);
            } else {
                assert(p[a] == rest[ra]);
            }
        }
    }
}

/// The order that `sorted_order` gives is a stable ascending order.
pub proof fn lemma_sorted_order_is_stable(keys: Seq<Seq<u8>>)
    ensures
        is_stable_order(keys, sorted_order(keys)),
{
    lemma_order_of_first_is_stable(keys, keys.len());
    assert(keys.take(keys.len() as int) =~= keys);
}

/// A listing of the positions `0..n` without repeats has every position.
proof fn lemma_listing_covers(q: Seq<int>, v: int)
    requires
        forall|k: int| 0 <= k < q.len() ==> 0 <= #[trigger] q[k] < q.len(),
        forall|a: int, b: int| 0 <= a < b < q.len() ==> q[a] != q[b],
        0 <= v < q.len(),
    ensures
        exists|m: int| 0 <= m < q.len() && q[m] == v,
{
    let n = q.len() as int;
    let range = vstd::set_lib::set_int_range(0, n);
    assert(q.no_duplicates()) by {
        assert forall|i: int, j: int| 0 <= i < q.len() && 0 <= j < q.len() && i != j implies q[i]
            != q[j] by {
            if i < j {
                assert(q[i] != q[j]);
            } else {
                assert(q[j] != q[i]);
            }
        }
    }
    q.unique_seq_to_set();
    vstd::set_lib::lemma_int_range(0, n);
    assert(q.to_set().subset_of(range)) by {
        assert forall|a: int| q.to_set().contains(a) implies range.contains(a) by {
            let i = choose|i: int| 0 <= i < q.len() && q[i] == a;
            assert(0 <= q[i] < q.len());
        }
    }
    vstd::set_lib::lemma_set_subset_finite(range, q.to_set());
    vstd::set_lib::lemma_subset_equality(q.to_set(), range);
    assert(range.contains(v));
    assert(q.to_set().contains(v));
    assert(q.contains(v));
}

/// Two stable ascending orders of the same keys agree on their first `k`
/// places.
proof fn lemma_stable_orders_agree(keys: Seq<Seq<u8>>, p: Seq<int>, q: Seq<int>, k: int)
    requires
        is_stable_order(keys, p),
        is_stable_order(keys, q),
        0 <= k <= keys.len(),
    ensures
        forall|j: int| 0 <= j < k ==> p[j] == q[j],
    decreases k,
{
    if k > 0 {
        let j = k - 1;
        lemma_stable_orders_agree(keys, p, q, j);
        if p[j] != q[j] {
            lemma_listing_covers(q, p[j]);
            lemma_listing_covers(p, q[j]);
            let m = choose|m: int| 0 <= m < q.len() && q[m] == p[j];
            let w = choose|w: int| 0 <= w < p.len() && p[w] == q[j];
            if m < j {
                assert(p[m] == q[m]);
                assert(p[m] != p[j]);
            }
            if w < j {
                assert(q[w] == p[w]);
                assert(q[w] != q[j]);
            }
            // Behind place j, each order holds what the other has at j:
            // each of the two positions would come before the other.
            assert(bytes_le(keys[q[j]], keys[q[m]]));
            assert(bytes_le(keys[p[j]], keys[p[w]]));
            lemma_bytes_le_antisymmetric(keys[p[j]], keys[q[j]]);
            assert(keys[q[j]] == keys[q[m]] ==> q[j] < q[m]);
            assert(keys[p[j]] == keys[p[w]] ==> p[j] < p[w]);
        }
    }
}

/// There is one stable ascending order of given keys, and no other: what
/// `is_stable_order` asks of an order decides it.
pub proof fn lemma_stable_order_is_unique(keys: Seq<Seq<u8>>, p: Seq<int>, q: Seq<int>)
    requires
        is_stable_order(keys, p),
        is_stable_order(keys, q),
    ensures
        p == q,
{
    lemma_stable_orders_agree(keys, p, q, keys.len() as int);
    assert(p =~= q);
}

/// Computes the stable ascending order of `names`: element `k` of the
/// result is the position in `names` of the string to take as number `k`.
pub fn stable_order(names: &Vec<&str>) -> (order: Vec<usize>)
    ensures
        order@.len() == names@.len(),
        forall|k: int|
            0 <= k < order@.len() ==> #[trigger] order@[k] as int == sorted_order(
                keys_of(names@),
            )[k],
        is_stable_order(keys_of(names@), sorted_order(keys_of(names@))),
{
    let ghost keys = keys_of(names@);
    let n = names.len();
    let mut order: Vec<usize> = Vec::new();
    let mut i: usize = 0;
    while i < n
        invariant
            n == names@.len(),
            keys == keys_of(names@),
            i <= n,
            order@.len() == i,
            forall|k: int|
                0 <= k < i ==> #[trigger] order@[k] as int == order_of_first(keys, i as nat)[k],
        decreases n - i,
    {
        let ghost rest = order_of_first(keys, i as nat);
        proof {
            lemma_order_of_first_is_stable(keys, i as nat);
            assert(rest.len() == i);
            assert(rest.take(i as int) =~= rest);
        }
        let mut pos: usize = order.len();
        let mut found = false;
        while pos > 0 && !found
            invariant
                n == names@.len(),
                keys == keys_of(names@),
                i < n,
                order@.len() == i,
                rest.len() == i,
                pos <= i,
                forall|k: int| 0 <= k < i ==> #[trigger] order@[k] as int == rest[k],
                forall|k: int| 0 <= k < i ==> 0 <= #[trigger] rest[k] < i,
                !found ==> insert_pos(rest, keys, i as int) == insert_pos(
                    rest.take(pos as int),
                    keys,
                    i as int,
                ),
                found ==> insert_pos(rest, keys, i as int) == pos,
            decreases pos + (if found { 0int } else { 1int }),
        {
            let j = order[pos - 1];
            assert(j as int == rest[pos - 1]);
            assert(rest.take(pos as int).last() == rest[pos - 1]);
            assert(rest.take(pos as int).drop_last() =~= rest.take(pos - 1));
            if str_le(names[j], names[i]) {
                found = true;
            } else {
                pos -= 1;
            }
        }
        order.insert(pos, i);
        i += 1;
        proof {
            let next = order_of_first(keys, i as nat);
            assert(next == rest.insert(pos as int, i - 1));
            assert forall|k: int| 0 <= k < i implies #[trigger] order@[k] as int == next[k] by {
                if k > pos {
                    assert(next[k] == rest[k - 1]);
                }
            }
        }
    }
    proof {
        lemma_sorted_order_is_stable(keys);
    }
    order
}

} // verus!
