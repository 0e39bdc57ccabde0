//! Drag-to-reorder planning: move a group of rows to a new position while the
//! other rows keep their relative order.

use vstd::prelude::*;

verus! {

/// The indices `0..n` that are not in `indices`, in increasing order.
pub open spec fn remaining_below(n: nat, indices: Seq<usize>) -> Seq<usize>
    decreases n,
{
    if n == 0 {
        Seq::empty()
    } else {
        let r = remaining_below((n - 1) as nat, indices);
        if indices.contains((n - 1) as usize) {
            r
        } else {
            r.push((n - 1) as usize)
        }
    }
}

/// The insertion point, clamped to `len - indices_len` (saturating at 0).
pub open spec fn clamped_insert(len: nat, indices_len: nat, insert_at: nat) -> nat {
    let room: nat = if len >= indices_len { (len - indices_len) as nat } else { 0 };
    if insert_at < room { insert_at } else { room }
}

/// The final order after a drag: the dragged rows `indices` (in the given
/// order) are placed at position `insert_at` of the list that remains once they
/// are removed; the other rows keep their order. `order[k]` is the old index of
/// the row that ends at position `k`.
pub open spec fn spec_plan_order(len: nat, indices: Seq<usize>, insert_at: nat) -> Seq<usize> {
    let rem = remaining_below(len, indices);
    let at = clamped_insert(len, indices.len(), insert_at) as int;
    rem.take(at) + indices + rem.skip(at)
}

/// `indices` name distinct rows of a list of length `len`.
pub open spec fn valid_selection(len: nat, indices: Seq<usize>) -> bool {
    &&& indices.no_duplicates()
    &&& forall|i: int| 0 <= i < indices.len() ==> (#[trigger] indices[i] as nat) < len
}

/// `order` lists each of `0..len` exactly once.
pub open spec fn is_permutation_of_range(order: Seq<usize>, len: nat) -> bool {
    &&& order.len() == len
    &&& order.no_duplicates()
    &&& forall|k: int| 0 <= k < order.len() ==> (#[trigger] order[k] as nat) < len
}

spec fn hit_set(n: nat, indices: Seq<usize>) -> Set<usize> {
    Set::new(|k: usize| (k as nat) < n && indices.contains(k))
}

proof fn lemma_remaining_shape(n: nat, indices: Seq<usize>)
    requires
        n <= usize::MAX + 1,
    ensures
        forall|i: int, j: int|
            0 <= i < j < remaining_below(n, indices).len() ==> #[trigger] remaining_below(n, indices)[i]
                < #[trigger] remaining_below(n, indices)[j],
        forall|i: int|
            0 <= i < remaining_below(n, indices).len() ==> (#[trigger] remaining_below(n, indices)[i] as nat)
                < n && !indices.contains(remaining_below(n, indices)[i]),
        forall|k: usize|
            (k as nat) < n && !indices.contains(k) ==> #[trigger] remaining_below(n, indices).contains(k),
        hit_set(n, indices).finite(),
        hit_set(n, indices).subset_of(indices.to_set()),
        remaining_below(n, indices).len() + hit_set(n, indices).len() == n,
    decreases n,
{
    if n == 0 {
        assert(hit_set(0, indices) =~= Set::empty());
    } else {
        let m = (n - 1) as nat;
        lemma_remaining_shape(m, indices);
        let r = remaining_below(m, indices);
        let x = m as usize;
        if indices.contains(x) {
            assert(hit_set(n, indices) =~= hit_set(m, indices).insert(x));
            assert(!hit_set(m, indices).contains(x));
            assert forall|k: usize| (k as nat) < n && !indices.contains(k) implies #[trigger] remaining_below(
                n,
                indices,
            ).contains(k) by {
                assert(k != x);
                assert(r.contains(k));
            }
        } else {
            assert(hit_set(n, indices) =~= hit_set(m, indices));
            let rp = r.push(x);
            assert forall|k: usize| (k as nat) < n && !indices.contains(k) implies #[trigger] remaining_below(
                n,
                indices,
            ).contains(k) by {
                if k == x {
                    assert(rp[r.len() as int] == x);
                } else {
                    assert(r.contains(k));
                    let j = choose|j: int| 0 <= j < r.len() && r[j] == k;
                    assert(rp[j] == k);
                }
            }
        }
    }
}

/// `remaining_below(len, indices)` is long enough for the clamped insertion point,
/// and, for a valid selection, has exactly `len - indices.len()` rows.
proof fn lemma_remaining_len(len: nat, indices: Seq<usize>)
    requires
        len <= usize::MAX,
    ensures
        remaining_below(len, indices).len() >= clamped_insert(len, indices.len(), 0),
        remaining_below(len, indices).len() + indices.len() >= len,
        valid_selection(len, indices) ==> remaining_below(len, indices).len() + indices.len() == len,
{
    lemma_remaining_shape(len, indices);
    indices.lemma_cardinality_of_set();
    vstd::set_lib::lemma_len_subset(hit_set(len, indices), indices.to_set());
    if valid_selection(len, indices) {
        indices.unique_seq_to_set();
        assert forall|k: usize| indices.to_set().contains(k) implies hit_set(len, indices).contains(k) by {
            let i = choose|i: int| 0 <= i < indices.len() && indices[i] == k;
            assert((indices[i] as nat) < len);
        }
        assert(hit_set(len, indices) =~= indices.to_set());
    }
}

/// For a valid selection the planned order is a permutation of `0..len`.
pub proof fn lemma_plan_order_is_permutation(len: nat, indices: Seq<usize>, insert_at: nat)
    requires
        len <= usize::MAX,
        valid_selection(len, indices),
    ensures
        is_permutation_of_range(spec_plan_order(len, indices, insert_at), len),
        forall|j: usize| (j as nat) < len ==> #[trigger] spec_plan_order(len, indices, insert_at).contains(j),
{
    lemma_remaining_shape(len, indices);
    lemma_remaining_len(len, indices);
    let rem = remaining_below(len, indices);
    let at = clamped_insert(len, indices.len(), insert_at) as int;
    let a = rem.take(at);
    let b = rem.skip(at);
    let order = spec_plan_order(len, indices, insert_at);
    assert(order =~= a + indices + b);
    assert forall|k: int| 0 <= k < order.len() implies (#[trigger] order[k] as nat) < len by {
        if k < a.len() {
            assert(order[k] == rem[k]);
        } else if k < a.len() + indices.len() {
            assert(order[k] == indices[k - a.len()]);
        } else {
            assert(order[k] == rem[k - a.len() - indices.len() + at]);
        }
    }
    // Each position of `order` comes from one source position; equal values
    // would come from equal source positions.
    assert forall|i: int, j: int| 0 <= i < j < order.len() implies order[i] != order[j] by {
        let ai = a.len() as int;
        let bi = ai + indices.len();
        if i < ai && j < ai {
            assert(rem[i] < rem[j]);
        } else if i < ai && j < bi {
            assert(!indices.contains(rem[i]));
            assert(order[j] == indices[j - ai]);
        } else if i < ai {
            assert(order[j] == rem[j - bi + at]);
            assert(rem[i] < rem[j - bi + at]);
        } else if i < bi && j < bi {
            assert(order[i] == indices[i - ai]);
            assert(order[j] == indices[j - ai]);
        } else if i < bi {
            assert(order[i] == indices[i - ai]);
            assert(order[j] == rem[j - bi + at]);
            assert(!indices.contains(rem[j - bi + at]));
        } else {
            assert(order[i] == rem[i - bi + at]);
            assert(order[j] == rem[j - bi + at]);
            assert(rem[i - bi + at] < rem[j - bi + at]);
        }
    }
    assert forall|j: usize| (j as nat) < len implies #[trigger] order.contains(j) by {
        if indices.contains(j) {
            let i = choose|i: int| 0 <= i < indices.len() && indices[i] == j;
            assert(order[a.len() + i] == j);
        } else {
            assert(rem.contains(j));
            let i = choose|i: int| 0 <= i < rem.len() && rem[i] == j;
            if i < at {
                assert(order[i] == j);
            } else {
                assert(order[i - at + a.len() + indices.len()] == j);
            }
        }
    }
}

/// The dragged rows form one block, in the order given, starting at the
/// insertion point clamped to the number of rows left once they are removed
/// (`min(insert_at, len - indices.len())`); every other row is a row that was
/// not dragged, and those keep their increasing order around the block.
pub proof fn lemma_plan_order_block_at_insert_point(len: nat, indices: Seq<usize>, insert_at: nat)
    requires
        len <= usize::MAX,
    ensures
        ({
            let order = spec_plan_order(len, indices, insert_at);
            let room: int = if len >= indices.len() { len - indices.len() } else { 0 };
            let at: int = if insert_at <= room { insert_at as int } else { room };
            &&& order.len() >= at + indices.len()
            &&& forall|k: int| at <= k < at + indices.len() ==> #[trigger] order[k] == indices[k - at]
            &&& forall|k: int|
                0 <= k < order.len() && !(at <= k < at + indices.len()) ==> (#[trigger] order[k] as nat) < len
                    && !indices.contains(order[k])
            &&& forall|k1: int, k2: int|
                0 <= k1 < k2 < order.len() && !(at <= k1 < at + indices.len()) && !(at <= k2 < at
                    + indices.len()) ==> #[trigger] order[k1] < #[trigger] order[k2]
        }),
{
    lemma_remaining_shape(len, indices);
    lemma_remaining_len(len, indices);
    let rem = remaining_below(len, indices);
    let at = clamped_insert(len, indices.len(), insert_at) as int;
    let a = rem.take(at);
    let b = rem.skip(at);
    let order = spec_plan_order(len, indices, insert_at);
    assert(order =~= a + indices + b);
    let bi = at + indices.len();
    assert forall|k: int| at <= k < bi implies #[trigger] order[k] == indices[k - at] by {}
    assert forall|k: int| 0 <= k < order.len() && !(at <= k < bi) implies (#[trigger] order[k] as nat) < len
        && !indices.contains(order[k]) by {
        if k < at {
            assert(order[k] == rem[k]);
        } else {
            assert(order[k] == rem[k - bi + at]);
        }
    }
    assert forall|k1: int, k2: int|
        0 <= k1 < k2 < order.len() && !(at <= k1 < bi) && !(at <= k2 < bi) implies #[trigger] order[k1]
        < #[trigger] order[k2] by {
        let r1 = if k1 < at { k1 } else { k1 - bi + at };
        let r2 = if k2 < at { k2 } else { k2 - bi + at };
        assert(order[k1] == rem[r1]);
        assert(order[k2] == rem[r2]);
        assert(r1 < r2);
    }
}

/// Computes the final order of a drag: the rows `indices` move, as a block and
/// in the given order, to position `insert_at` of the list that remains once
/// they are removed (clamped to its end); the other rows keep their order.
pub fn plan_order(len: usize, indices: &[usize], insert_at: usize) -> (order: Vec<usize>)
    ensures
        order@ == spec_plan_order(len as nat, indices@, insert_at as nat),
{
    let ilen = indices.len();
    let room: usize = if len >= ilen { len - ilen } else { 0 };
    let at: usize = if insert_at < room { insert_at } else { room };
    let mut remaining: Vec<usize> = Vec::new();
    let mut i: usize = 0;
    while i < len
        invariant
            i <= len,
            ilen == indices@.len(),
            remaining@ == remaining_below(i as nat, indices@),
        decreases len - i,
    {
        let mut found = false;
        let mut j: usize = 0;
        while j < ilen
            invariant
                j <= ilen,
                ilen == indices@.len(),
                found == (exists|t: int| 0 <= t < j && indices@[t] == i),
            decreases ilen - j,
        {
            if indices[j] == i {
                found = true;
            }
            j += 1;
        }
        proof {
            if found {
                let t = choose|t: int| 0 <= t < ilen && indices@[t] == i;
                assert(indices@.contains(i));
            }
        }
        if !found {
            remaining.push(i);
        }
        i += 1;
    }
    proof {
        lemma_remaining_len(len as nat, indices@);
    }
    let mut order: Vec<usize> = Vec::new();
    let mut k: usize = 0;
    while k < at
        invariant
            k <= at,
            at <= remaining@.len(),
            order@ == remaining@.take(k as int),
        decreases at - k,
    {
        order.push(remaining[k]);
        k += 1;
        proof {
            assert(order@ =~= remaining@.take(k as int));
        }
    }
    let mut t: usize = 0;
    while t < ilen
        invariant
            t <= ilen,
            ilen == indices@.len(),
            at <= remaining@.len(),
            order@ == remaining@.take(at as int) + indices@.take(t as int),
        decreases ilen - t,
    {
        order.push(indices[t]);
        t += 1;
        proof {
            assert(order@ =~= remaining@.take(at as int) + indices@.take(t as int));
        }
    }
    let mut k: usize = at;
    while k < remaining.len()
        invariant
            at <= k <= remaining@.len(),
            order@ == remaining@.take(at as int) + indices@ + remaining@.subrange(at as int, k as int),
        decreases remaining@.len() - k,
    {
        order.push(remaining[k]);
        k += 1;
        proof {
            assert(order@ =~= remaining@.take(at as int) + indices@ + remaining@.subrange(
                at as int,
                k as int,
            ));
        }
    }
    proof {
        assert(indices@.take(ilen as int) =~= indices@);
        assert(remaining@.subrange(at as int, remaining@.len() as int) =~= remaining@.skip(at as int));
    }
    order
}

/// Reorders `items` in place as `plan_order` says, without cloning them.
///
/// The dragged rows must be distinct positions of `items`.
pub fn apply_reorder_noclone<T>(items: &mut Vec<T>, indices: &[usize], insert_at: usize)
    requires
        valid_selection(old(items)@.len(), indices@),
    ensures
        final(items)@.len() == old(items)@.len(),
        final(items)@ == spec_plan_order(old(items)@.len(), indices@, insert_at as nat).map_values(
            |j: usize| old(items)@[j as int],
        ),
{
    let len = items.len();
    let order = plan_order(len, indices, insert_at);
    let ghost old_items = items@;
    proof {
        lemma_plan_order_is_permutation(len as nat, indices@, insert_at as nat);
    }
    // slots[len - 1 - j] holds the item that was at position j.
    let mut slots: Vec<Option<T>> = Vec::new();
    while items.len() > 0
        invariant
            items@.len() + slots@.len() == len,
            old_items.len() == len,
            items@ == old_items.take(items@.len() as int),
            forall|t: int| 0 <= t < slots@.len() ==> #[trigger] slots@[t] == Some(old_items[len - 1 - t]),
        decreases items@.len(),
    {
        let x = items.pop();
        proof {
            assert(x == Some(old_items[items@.len() as int]));
        }
        slots.push(x);
        proof {
            assert(items@ =~= old_items.take(items@.len() as int));
        }
    }
    let mut result: Vec<T> = Vec::new();
    let mut k: usize = 0;
    while k < order.len()
        invariant
            is_permutation_of_range(order@, len as nat),
            old_items.len() == len,
            slots@.len() == len,
            0 <= k <= order@.len(),
            result@ == order@.take(k as int).map_values(|j: usize| old_items[j as int]),
            forall|j: int|
                0 <= j < len ==> #[trigger] slots@[len - 1 - j] == (if order@.take(k as int).contains(
                    j as usize,
                ) {
                    None
                } else {
                    Some(old_items[j])
                }),
        decreases order@.len() - k,
    {
        let idx = order[k];
        let pos = len - 1 - idx;
        proof {
            assert(!order@.take(k as int).contains(idx)) by {
                if order@.take(k as int).contains(idx) {
                    let t = choose|t: int| 0 <= t < k && order@.take(k as int)[t] == idx;
                    assert(order@[t] == order@[k as int]);
                }
            }
            assert(slots@[len - 1 - idx] == Some(old_items[idx as int]));
        }
        slots.push(None);
        let v = slots.swap_remove(pos);
        let x = v.unwrap();
        result.push(x);
        let ghost prev_take = order@.take(k as int);
        k += 1;
        proof {
            assert(order@.take(k as int) =~= prev_take.push(idx));
            assert(result@ =~= order@.take(k as int).map_values(|j: usize| old_items[j as int]));
            assert forall|j: int| 0 <= j < len implies #[trigger] slots@[len - 1 - j] == (if order@.take(
                k as int,
            ).contains(j as usize) {
                None
            } else {
                Some(old_items[j])
            }) by {
                if j == idx as int {
                    assert(order@.take(k as int)[k - 1] == idx);
                } else {
                    assert(order@.take(k as int).contains(j as usize) == prev_take.contains(j as usize)) by {
                        if order@.take(k as int).contains(j as usize) {
                            let t = choose|t: int|
                                0 <= t < k && order@.take(k as int)[t] == j as usize;
                            assert(t < k - 1);
                            assert(prev_take[t] == j as usize);
                        }
                        if prev_take.contains(j as usize) {
                            let t = choose|t: int| 0 <= t < k - 1 && prev_take[t] == j as usize;
                            assert(order@.take(k as int)[t] == j as usize);
                        }
                    }
                }
            }
        }
    }
    proof {
        assert(order@.take(order@.len() as int) =~= order@);
    }
    *items = result;
}

} // verus!
