//! Undo and redo of recorded actions: field edits of the project, and
//! event-list deltas that remove some events and merge new ones into a list
//! kept in tick order.

use vstd::prelude::*;
use vstd::multiset::Multiset;
use crate::document::{DocModel, Document, ModelView};
use crate::history::UndoAction;
use crate::text::owned;

verus! {

/// An event: its tick and the rest of its data.
pub type TickEvent<V> = (u32, V);

/// The ticks of a list of events.
pub open spec fn ticks_of<V>(s: Seq<TickEvent<V>>) -> Set<u32> {
    Set::new(|t: u32| exists|i: int| 0 <= i < s.len() && #[trigger] s[i].0 == t)
}

/// The events of `s` whose tick is not in `ticks`, in order.
pub open spec fn without_ticks<V>(s: Seq<TickEvent<V>>, ticks: Set<u32>) -> Seq<TickEvent<V>>
    decreases s.len(),
{
    if s.len() == 0 {
        Seq::empty()
    } else {
        let r = without_ticks(s.drop_last(), ticks);
        if ticks.contains(s.last().0) {
            r
        } else {
            r.push(s.last())
        }
    }
}

/// Inserts `e` into `s` after every event whose tick is not greater.
pub open spec fn insert_by_tick<V>(s: Seq<TickEvent<V>>, e: TickEvent<V>) -> Seq<TickEvent<V>>
    decreases s.len(),
{
    if s.len() == 0 {
        seq![e]
    } else if s.last().0 <= e.0 {
        s.push(e)
    } else {
        insert_by_tick(s.drop_last(), e).push(s.last())
    }
}

/// Stable sort by tick (events with equal ticks keep their order).
pub open spec fn sort_by_tick<V>(s: Seq<TickEvent<V>>) -> Seq<TickEvent<V>>
    decreases s.len(),
{
    if s.len() == 0 {
        Seq::empty()
    } else {
        insert_by_tick(sort_by_tick(s.drop_last()), s.last())
    }
}

/// Two-way merge by tick; on equal ticks the event of `a` comes first.
pub open spec fn merge_by_tick<V>(a: Seq<TickEvent<V>>, b: Seq<TickEvent<V>>) -> Seq<TickEvent<V>>
    decreases a.len() + b.len(),
{
    if a.len() == 0 {
        b
    } else if b.len() == 0 {
        a
    } else if a[0].0 <= b[0].0 {
        seq![a[0]] + merge_by_tick(a.drop_first(), b)
    } else {
        seq![b[0]] + merge_by_tick(a, b.drop_first())
    }
}

/// Ticks do not decrease along `s`.
pub open spec fn tick_sorted<V>(s: Seq<TickEvent<V>>) -> bool {
    forall|i: int, j: int| 0 <= i <= j < s.len() ==> #[trigger] s[i].0 <= #[trigger] s[j].0
}

/// The event list after the delta: the events whose tick is among the
/// removed events' ticks go, and the inserted events, sorted by tick, are
/// merged in.
pub open spec fn spec_event_diff<V>(
    events: Seq<TickEvent<V>>,
    remove: Seq<TickEvent<V>>,
    insert: Seq<TickEvent<V>>,
) -> Seq<TickEvent<V>> {
    merge_by_tick(without_ticks(events, ticks_of(remove)), sort_by_tick(insert))
}

fn contains_tick<V: Copy>(s: &[TickEvent<V>], t: u32) -> (r: bool)
    ensures
        r == ticks_of(s@).contains(t),
{
    let mut i: usize = 0;
    while i < s.len()
        invariant
            i <= s@.len(),
            forall|j: int| 0 <= j < i ==> s@[j].0 != t,
        decreases s@.len() - i,
    {
        if s[i].0 == t {
            proof {
                assert(s@[i as int].0 == t);
            }
            return true;
        }
        i += 1;
    }
    false
}

/// `events` without the events whose tick is the tick of one in `remove`.
fn retain_not_removed<V: Copy>(events: &Vec<TickEvent<V>>, remove: &[TickEvent<V>]) -> (r: Vec<TickEvent<V>>)
    ensures
        r@ == without_ticks(events@, ticks_of(remove@)),
{
    let mut r: Vec<TickEvent<V>> = Vec::new();
    let mut i: usize = 0;
    while i < events.len()
        invariant
            i <= events@.len(),
            r@ == without_ticks(events@.take(i as int), ticks_of(remove@)),
        decreases events@.len() - i,
    {
        let e = events[i];
        proof {
            assert(events@.take(i + 1).drop_last() =~= events@.take(i as int));
        }
        if !contains_tick(remove, e.0) {
            r.push(e);
        }
        i += 1;
    }
    proof {
        assert(events@.take(i as int) =~= events@);
    }
    r
}

/// Inserts `e` after every event of `s` whose tick is not greater.
fn insert_sorted<V: Copy>(s: &mut Vec<TickEvent<V>>, e: TickEvent<V>)
    ensures
        final(s)@ == insert_by_tick(old(s)@, e),
{
    let n = s.len();
    // Position of insertion: after the last event with a tick not above e's.
    let mut k: usize = n;
    proof {
        assert(old(s)@.take(n as int) =~= old(s)@);
        assert(insert_by_tick(old(s)@, e) + old(s)@.skip(n as int) =~= insert_by_tick(old(s)@, e));
    }
    while k > 0 && s[k - 1].0 > e.0
        invariant
            k <= n,
            n == s@.len(),
            *s == *old(s),
            insert_by_tick(old(s)@, e) == insert_by_tick(old(s)@.take(k as int), e) + old(s)@.skip(k as int),
        decreases k,
    {
        proof {
            let t = old(s)@.take(k as int);
            assert(t.drop_last() =~= old(s)@.take(k - 1));
            assert(t.last() == old(s)@[k - 1]);
            assert(insert_by_tick(t, e) == insert_by_tick(t.drop_last(), e).push(t.last()));
            assert(old(s)@.skip(k - 1) =~= seq![old(s)@[k - 1]] + old(s)@.skip(k as int));
            assert(insert_by_tick(old(s)@.take(k - 1), e).push(old(s)@[k - 1]) + old(s)@.skip(k as int)
                =~= insert_by_tick(old(s)@.take(k - 1), e) + old(s)@.skip(k - 1));
        }
        k -= 1;
    }
    proof {
        let t = old(s)@.take(k as int);
        if k > 0 {
            assert(t.last() == old(s)@[k - 1]);
            assert(insert_by_tick(t, e) == t.push(e));
        } else {
            assert(t =~= Seq::<TickEvent<V>>::empty());
        }
        assert(insert_by_tick(t, e) =~= t.push(e));
    }
    s.insert(k, e);
    proof {
        assert(s@ =~= old(s)@.take(k as int).push(e) + old(s)@.skip(k as int));
    }
}

/// Stable sort by tick.
pub(crate) fn sorted_by_tick<V: Copy>(s: &[TickEvent<V>]) -> (r: Vec<TickEvent<V>>)
    ensures
        r@ == sort_by_tick(s@),
{
    let mut r: Vec<TickEvent<V>> = Vec::new();
    let mut i: usize = 0;
    while i < s.len()
        invariant
            i <= s@.len(),
            r@ == sort_by_tick(s@.take(i as int)),
        decreases s@.len() - i,
    {
        proof {
            assert(s@.take(i + 1).drop_last() =~= s@.take(i as int));
        }
        insert_sorted(&mut r, s[i]);
        i += 1;
    }
    proof {
        assert(s@.take(i as int) =~= s@);
    }
    r
}

proof fn lemma_merge_step<V>(a: Seq<TickEvent<V>>, b: Seq<TickEvent<V>>, i: int, j: int)
    requires
        0 <= i <= a.len(),
        0 <= j <= b.len(),
        i < a.len() || j < b.len(),
    ensures
        i < a.len() && (j == b.len() || a[i].0 <= b[j].0) ==> merge_by_tick(a.skip(i), b.skip(j))
            == seq![a[i]] + merge_by_tick(a.skip(i + 1), b.skip(j)),
        j < b.len() && (i == a.len() || a[i].0 > b[j].0) ==> merge_by_tick(a.skip(i), b.skip(j))
            == seq![b[j]] + merge_by_tick(a.skip(i), b.skip(j + 1)),
{
    assert(a.skip(i).len() == a.len() - i);
    assert(b.skip(j).len() == b.len() - j);
    if i < a.len() {
        assert(a.skip(i).drop_first() =~= a.skip(i + 1));
        assert(a.skip(i)[0] == a[i]);
    }
    if j < b.len() {
        assert(b.skip(j).drop_first() =~= b.skip(j + 1));
        assert(b.skip(j)[0] == b[j]);
    }
    if i < a.len() && j == b.len() {
        assert(b.skip(j).len() == 0);
        assert(a.skip(i + 1) =~= a.skip(i).drop_first());
        assert(merge_by_tick(a.skip(i + 1), b.skip(j)) == a.skip(i + 1));
        assert(seq![a[i]] + a.skip(i + 1) =~= a.skip(i));
    }
    if j < b.len() && i == a.len() {
        assert(a.skip(i).len() == 0);
        assert(merge_by_tick(a.skip(i), b.skip(j + 1)) == b.skip(j + 1));
        assert(seq![b[j]] + b.skip(j + 1) =~= b.skip(j));
    }
}

/// Two-way merge by tick.
fn merged<V: Copy>(a: &Vec<TickEvent<V>>, b: &Vec<TickEvent<V>>) -> (r: Vec<TickEvent<V>>)
    ensures
        r@ == merge_by_tick(a@, b@),
{
    let mut r: Vec<TickEvent<V>> = Vec::new();
    let mut i: usize = 0;
    let mut j: usize = 0;
    proof {
        assert(a@.skip(0) =~= a@);
        assert(b@.skip(0) =~= b@);
    }
    while i < a.len() || j < b.len()
        invariant
            i <= a@.len(),
            j <= b@.len(),
            r@ + merge_by_tick(a@.skip(i as int), b@.skip(j as int)) == merge_by_tick(a@, b@),
        decreases a@.len() + b@.len() - i - j,
    {
        proof {
            lemma_merge_step(a@, b@, i as int, j as int);
        }
        if i < a.len() && (j == b.len() || a[i].0 <= b[j].0) {
            proof {
                assert(r@.push(a@[i as int]) + merge_by_tick(a@.skip(i + 1), b@.skip(j as int)) =~= r@
                    + (seq![a@[i as int]] + merge_by_tick(a@.skip(i + 1), b@.skip(j as int))));
            }
            r.push(a[i]);
            i += 1;
        } else {
            proof {
                assert(r@.push(b@[j as int]) + merge_by_tick(a@.skip(i as int), b@.skip(j + 1)) =~= r@
                    + (seq![b@[j as int]] + merge_by_tick(a@.skip(i as int), b@.skip(j + 1))));
            }
            r.push(b[j]);
            j += 1;
        }
    }
    proof {
        assert(a@.skip(i as int).len() == 0);
        assert(b@.skip(j as int).len() == 0);
        assert(r@ + merge_by_tick(a@.skip(i as int), b@.skip(j as int)) =~= r@);
    }
    r
}

/// Removes the events whose tick is that of an event of `remove`, then merges
/// `insert` (sorted by tick, stable) into the list, an old event first on a tie.
///
/// Redo applies `(before, after)`; undo applies the swapped pair.
pub fn apply_event_diff<V: Copy>(events: &mut Vec<TickEvent<V>>, remove: &[TickEvent<V>], insert: &[TickEvent<V>])
    ensures
        final(events)@ == spec_event_diff(old(events)@, remove@, insert@),
{
    let kept = if remove.len() != 0 {
        retain_not_removed(events, remove)
    } else {
        proof {
            lemma_without_none(events@, ticks_of(remove@));
        }
        let mut c: Vec<TickEvent<V>> = Vec::new();
        std::mem::swap(&mut c, events);
        c
    };
    let new_events = sorted_by_tick(insert);
    let result = merged(&kept, &new_events);
    *events = result;
}

proof fn lemma_without_none<V>(s: Seq<TickEvent<V>>, ticks: Set<u32>)
    requires
        forall|i: int| 0 <= i < s.len() ==> !ticks.contains(#[trigger] s[i].0),
    ensures
        without_ticks(s, ticks) == s,
    decreases s.len(),
{
    if s.len() > 0 {
        lemma_without_none(s.drop_last(), ticks);
        assert(s.drop_last().push(s.last()) =~= s);
    }
}

proof fn lemma_without_props<V>(s: Seq<TickEvent<V>>, ticks: Set<u32>)
    ensures
        forall|i: int|
            0 <= i < without_ticks(s, ticks).len() ==> s.contains(#[trigger] without_ticks(s, ticks)[i])
                && !ticks.contains(without_ticks(s, ticks)[i].0),
        tick_sorted(s) ==> tick_sorted(without_ticks(s, ticks)),
    decreases s.len(),
{
    if s.len() > 0 {
        let d = s.drop_last();
        lemma_without_props(d, ticks);
        let w0 = without_ticks(d, ticks);
        let w = without_ticks(s, ticks);
        assert forall|i: int| 0 <= i < w.len() implies s.contains(#[trigger] w[i]) && !ticks.contains(w[i].0) by {
            if i < w0.len() {
                assert(w[i] == w0[i]);
                assert(d.contains(w0[i]));
                let j = choose|j: int| 0 <= j < d.len() && d[j] == w0[i];
                assert(s[j] == d[j]);
            } else {
                assert(w[i] == s.last());
                assert(s[s.len() - 1] == s.last());
            }
        }
        if tick_sorted(s) {
            assert(tick_sorted(d)) by {
                assert forall|i: int, j: int| 0 <= i <= j < d.len() implies #[trigger] d[i].0 <= #[trigger] d[j].0 by {
                    assert(d[i] == s[i] && d[j] == s[j]);
                }
            }
            assert forall|i: int, j: int| 0 <= i <= j < w.len() implies #[trigger] w[i].0 <= #[trigger] w[j].0 by {
                if j < w0.len() {
                    assert(w[i] == w0[i] && w[j] == w0[j]);
                } else if i < j {
                    assert(w[i] == w0[i]);
                    assert(d.contains(w0[i]));
                    let k = choose|k: int| 0 <= k < d.len() && d[k] == w0[i];
                    assert(s[k] == d[k]);
                    assert(w[j] == s[s.len() - 1]);
                }
            }
        }
    }
}

/// Every tick of `s` is at least `t`.
pub open spec fn ticks_at_least<V>(s: Seq<TickEvent<V>>, t: u32) -> bool {
    forall|i: int| 0 <= i < s.len() ==> #[trigger] s[i].0 >= t
}

proof fn lemma_at_least_by_multiset<V>(a: Seq<TickEvent<V>>, b: Seq<TickEvent<V>>, t: u32)
    requires
        ticks_at_least(b, t),
        forall|x: TickEvent<V>| a.to_multiset().count(x) > 0 ==> b.to_multiset().count(x) > 0,
    ensures
        ticks_at_least(a, t),
{
    broadcast use vstd::seq_lib::group_to_multiset_ensures;

    assert forall|i: int| 0 <= i < a.len() implies #[trigger] a[i].0 >= t by {
        assert(a.contains(a[i]));
        assert(b.to_multiset().count(a[i]) > 0);
        assert(b.contains(a[i]));
    }
}

proof fn lemma_insert_props<V>(s: Seq<TickEvent<V>>, e: TickEvent<V>)
    ensures
        insert_by_tick(s, e).to_multiset() == s.to_multiset().insert(e),
        tick_sorted(s) ==> tick_sorted(insert_by_tick(s, e)),
    decreases s.len(),
{
    broadcast use vstd::seq_lib::group_to_multiset_ensures;

    if s.len() == 0 {
        assert(seq![e] =~= Seq::<TickEvent<V>>::empty().push(e));
        assert(Seq::<TickEvent<V>>::empty().to_multiset() =~= Multiset::empty());
    } else if s.last().0 <= e.0 {
        if tick_sorted(s) {
            let r = s.push(e);
            assert forall|i: int, j: int| 0 <= i <= j < r.len() implies #[trigger] r[i].0 <= #[trigger] r[j].0 by {
                if j == s.len() && i < j {
                    assert(s[i].0 <= s[s.len() - 1].0);
                }
            }
        }
    } else {
        let d = s.drop_last();
        lemma_insert_props(d, e);
        assert(d.push(s.last()) =~= s);
        let m = insert_by_tick(d, e);
        assert(m.push(s.last()).to_multiset() =~= s.to_multiset().insert(e));
        if tick_sorted(s) {
            assert(tick_sorted(d));
            let r = m.push(s.last());
            // Every event of m is at most the last tick of s.
            assert forall|i: int| 0 <= i < m.len() implies #[trigger] m[i].0 <= s.last().0 by {
                assert(m.contains(m[i]));
                assert(m.to_multiset().count(m[i]) > 0);
                if m[i] != e {
                    assert(d.to_multiset().count(m[i]) > 0);
                    assert(d.contains(m[i]));
                    let k = choose|k: int| 0 <= k < d.len() && d[k] == m[i];
                    assert(s[k] == d[k]);
                    assert(s[k].0 <= s[s.len() - 1].0);
                }
            }
            assert forall|i: int, j: int| 0 <= i <= j < r.len() implies #[trigger] r[i].0 <= #[trigger] r[j].0 by {
                if j == m.len() && i < j {
                    assert(r[i] == m[i]);
                } else if j < m.len() {
                    assert(r[i] == m[i] && r[j] == m[j]);
                }
            }
        }
    }
}

/// Sorting by tick keeps every event (as a multiset) and leaves the ticks in
/// non-decreasing order.
pub proof fn lemma_sort_props<V>(s: Seq<TickEvent<V>>)
    ensures
        sort_by_tick(s).to_multiset() == s.to_multiset(),
        tick_sorted(sort_by_tick(s)),
    decreases s.len(),
{
    broadcast use vstd::seq_lib::group_to_multiset_ensures;

    if s.len() == 0 {
        assert(Seq::<TickEvent<V>>::empty().to_multiset() =~= s.to_multiset());
    } else {
        lemma_sort_props(s.drop_last());
        lemma_insert_props(sort_by_tick(s.drop_last()), s.last());
        assert(s.drop_last().push(s.last()) =~= s);
    }
}

proof fn lemma_merge_props<V>(a: Seq<TickEvent<V>>, b: Seq<TickEvent<V>>)
    ensures
        merge_by_tick(a, b).to_multiset() == a.to_multiset().add(b.to_multiset()),
        tick_sorted(a) && tick_sorted(b) ==> tick_sorted(merge_by_tick(a, b)),
    decreases a.len() + b.len(),
{
    broadcast use vstd::seq_lib::group_to_multiset_ensures;
    broadcast use vstd::seq_lib::lemma_multiset_commutative;

    if a.len() == 0 {
        assert(a.to_multiset() =~= Multiset::empty());
        assert(b.to_multiset() =~= a.to_multiset().add(b.to_multiset()));
    } else if b.len() == 0 {
        assert(b.to_multiset() =~= Multiset::empty());
        assert(a.to_multiset() =~= a.to_multiset().add(b.to_multiset()));
    } else if a[0].0 <= b[0].0 {
        let a1 = a.drop_first();
        lemma_merge_props(a1, b);
        let m = merge_by_tick(a1, b);
        assert(seq![a[0]] + a1 =~= a);
        assert((seq![a[0]] + m).to_multiset() =~= a.to_multiset().add(b.to_multiset()));
        if tick_sorted(a) && tick_sorted(b) {
            assert(tick_sorted(a1));
            let r = seq![a[0]] + m;
            assert(ticks_at_least(a1, a[0].0));
            assert(ticks_at_least(b, a[0].0)) by {
                assert forall|i: int| 0 <= i < b.len() implies #[trigger] b[i].0 >= a[0].0 by {
                    assert(b[0].0 <= b[i].0);
                }
            }
            assert(ticks_at_least(a1 + b, a[0].0));
            assert forall|x: TickEvent<V>| m.to_multiset().count(x) > 0 implies (a1 + b).to_multiset().count(x)
                > 0 by {}
            lemma_at_least_by_multiset(m, a1 + b, a[0].0);
            assert forall|i: int, j: int| 0 <= i <= j < r.len() implies #[trigger] r[i].0 <= #[trigger] r[j].0 by {
                if i == 0 {
                    if j > 0 {
                        assert(r[j] == m[j - 1]);
                    }
                } else {
                    assert(r[i] == m[i - 1] && r[j] == m[j - 1]);
                }
            }
        }
    } else {
        let b1 = b.drop_first();
        lemma_merge_props(a, b1);
        let m = merge_by_tick(a, b1);
        assert(seq![b[0]] + b1 =~= b);
        assert((seq![b[0]] + m).to_multiset() =~= a.to_multiset().add(b.to_multiset()));
        if tick_sorted(a) && tick_sorted(b) {
            assert(tick_sorted(b1));
            let r = seq![b[0]] + m;
            assert(ticks_at_least(b1, b[0].0));
            assert(ticks_at_least(a, b[0].0)) by {
                assert forall|i: int| 0 <= i < a.len() implies #[trigger] a[i].0 >= b[0].0 by {
                    assert(a[0].0 <= a[i].0);
                }
            }
            assert(ticks_at_least(a + b1, b[0].0));
            assert forall|x: TickEvent<V>| m.to_multiset().count(x) > 0 implies (a + b1).to_multiset().count(x)
                > 0 by {}
            lemma_at_least_by_multiset(m, a + b1, b[0].0);
            assert forall|i: int, j: int| 0 <= i <= j < r.len() implies #[trigger] r[i].0 <= #[trigger] r[j].0 by {
                if i == 0 {
                    if j > 0 {
                        assert(r[j] == m[j - 1]);
                    }
                } else {
                    assert(r[i] == m[i - 1] && r[j] == m[j - 1]);
                }
            }
        }
    }
}

/// Applying a delta loses and duplicates nothing: the result holds exactly
/// the kept events and the inserted ones. A list in tick order stays in tick
/// order, and a removed tick survives only through an inserted event.
pub proof fn lemma_event_diff_keeps_order_and_events<V>(
    events: Seq<TickEvent<V>>,
    remove: Seq<TickEvent<V>>,
    insert: Seq<TickEvent<V>>,
)
    ensures
        spec_event_diff(events, remove, insert).to_multiset() == without_ticks(events, ticks_of(remove)).to_multiset().add(
            insert.to_multiset(),
        ),
        tick_sorted(events) ==> tick_sorted(spec_event_diff(events, remove, insert)),
        forall|i: int|
            0 <= i < spec_event_diff(events, remove, insert).len() ==> {
                let x = #[trigger] spec_event_diff(events, remove, insert)[i];
                (events.contains(x) && !ticks_of(remove).contains(x.0)) || insert.contains(x)
            },
{
    broadcast use vstd::seq_lib::group_to_multiset_ensures;

    let w = without_ticks(events, ticks_of(remove));
    let srt = sort_by_tick(insert);
    lemma_without_props(events, ticks_of(remove));
    lemma_sort_props(insert);
    lemma_merge_props(w, srt);
    let r = merge_by_tick(w, srt);
    assert forall|i: int| 0 <= i < r.len() implies {
        let x = #[trigger] r[i];
        (events.contains(x) && !ticks_of(remove).contains(x.0)) || insert.contains(x)
    } by {
        let x = r[i];
        assert(r.contains(x));
        assert(r.to_multiset().count(x) > 0);
        if w.to_multiset().count(x) > 0 {
            assert(w.contains(x));
            let k = choose|k: int| 0 <= k < w.len() && w[k] == x;
            assert(events.contains(w[k]));
        } else {
            assert(srt.to_multiset().count(x) > 0);
            assert(insert.to_multiset().count(x) > 0);
        }
    }
}

/// Ticks strictly increase along `s` (a lane holds one event per tick).
pub open spec fn strictly_tick_sorted<V>(s: Seq<TickEvent<V>>) -> bool {
    forall|i: int, j: int| 0 <= i < j < s.len() ==> #[trigger] s[i].0 < #[trigger] s[j].0
}

proof fn lemma_without_multiset<V>(s: Seq<TickEvent<V>>, ticks: Set<u32>)
    ensures
        without_ticks(s, ticks).to_multiset() == s.to_multiset().filter(|x: TickEvent<V>| !ticks.contains(x.0)),
    decreases s.len(),
{
    broadcast use vstd::seq_lib::group_to_multiset_ensures;
    broadcast use vstd::multiset::group_multiset_axioms;

    let p = |x: TickEvent<V>| !ticks.contains(x.0);
    if s.len() == 0 {
        assert(s.to_multiset() =~= Multiset::empty());
        assert(Seq::<TickEvent<V>>::empty().to_multiset() =~= Multiset::empty());
        assert(s.to_multiset().filter(p) =~= Multiset::empty());
    } else {
        let d = s.drop_last();
        lemma_without_multiset(d, ticks);
        assert(d.push(s.last()) =~= s);
        assert(without_ticks(s, ticks).to_multiset() =~= s.to_multiset().filter(p));
    }
}

proof fn lemma_without_strict<V>(s: Seq<TickEvent<V>>, ticks: Set<u32>)
    requires
        strictly_tick_sorted(s),
    ensures
        strictly_tick_sorted(without_ticks(s, ticks)),
    decreases s.len(),
{
    if s.len() > 0 {
        let d = s.drop_last();
        assert(strictly_tick_sorted(d)) by {
            assert forall|i: int, j: int| 0 <= i < j < d.len() implies #[trigger] d[i].0 < #[trigger] d[j].0 by {
                assert(d[i] == s[i] && d[j] == s[j]);
            }
        }
        lemma_without_strict(d, ticks);
        lemma_without_props(d, ticks);
        let w0 = without_ticks(d, ticks);
        let w = without_ticks(s, ticks);
        assert forall|i: int, j: int| 0 <= i < j < w.len() implies #[trigger] w[i].0 < #[trigger] w[j].0 by {
            if j < w0.len() {
                assert(w[i] == w0[i] && w[j] == w0[j]);
            } else {
                assert(w[i] == w0[i]);
                assert(d.contains(w0[i]));
                let k = choose|k: int| 0 <= k < d.len() && d[k] == w0[i];
                assert(s[k] == d[k]);
                assert(w[j] == s[s.len() - 1]);
            }
        }
    }
}

/// A list in tick order and a list in strictly increasing tick order that
/// hold the same events are the same list.
proof fn lemma_sorted_unique<V>(s: Seq<TickEvent<V>>, t: Seq<TickEvent<V>>)
    requires
        tick_sorted(s),
        strictly_tick_sorted(t),
        s.to_multiset() == t.to_multiset(),
    ensures
        s == t,
    decreases s.len(),
{
    broadcast use vstd::seq_lib::group_to_multiset_ensures;
    broadcast use vstd::multiset::group_multiset_axioms;

    assert(s.to_multiset().len() == s.len());
    assert(t.to_multiset().len() == t.len());
    assert(s.len() == t.len());
    if s.len() > 0 {
        assert(s.contains(s[0]));
        assert(t.to_multiset().count(s[0]) > 0);
        assert(t.contains(s[0]));
        let k = choose|k: int| 0 <= k < t.len() && t[k] == s[0];
        assert(t.contains(t[0]));
        assert(s.to_multiset().count(t[0]) > 0);
        assert(s.contains(t[0]));
        let j = choose|j: int| 0 <= j < s.len() && s[j] == t[0];
        assert(s[0].0 <= s[j].0);
        if k > 0 {
            assert(t[0].0 < t[k].0);
        }
        assert(t[0] == s[0]);
        let s1 = s.drop_first();
        let t1 = t.drop_first();
        assert(s.remove(0) =~= s1);
        assert(t.remove(0) =~= t1);
        assert(tick_sorted(s1)) by {
            assert forall|a: int, b: int| 0 <= a <= b < s1.len() implies #[trigger] s1[a].0 <= #[trigger] s1[b].0 by {
                assert(s1[a] == s[a + 1] && s1[b] == s[b + 1]);
            }
        }
        assert(strictly_tick_sorted(t1)) by {
            assert forall|a: int, b: int| 0 <= a < b < t1.len() implies #[trigger] t1[a].0 < #[trigger] t1[b].0 by {
                assert(t1[a] == t[a + 1] && t1[b] == t[b + 1]);
            }
        }
        lemma_sorted_unique(s1, t1);
        assert forall|i: int| 0 <= i < s.len() implies s[i] == t[i] by {
            if i > 0 {
                assert(s[i] == s1[i - 1] && t[i] == t1[i - 1]);
            }
        }
        assert(s =~= t);
    }
}

/// Undo restores the lane: for a lane with one event per tick, a `before`
/// list that holds exactly the lane's events at its ticks, and an `after`
/// list whose ticks miss every event left in place, applying
/// `(before, after)` and then `(after, before)` gives the lane back.
pub proof fn lemma_event_diff_roundtrip<V>(
    events: Seq<TickEvent<V>>,
    before: Seq<TickEvent<V>>,
    after: Seq<TickEvent<V>>,
)
    requires
        strictly_tick_sorted(events),
        before.to_multiset() == events.to_multiset().filter(|x: TickEvent<V>| ticks_of(before).contains(x.0)),
        forall|i: int|
            0 <= i < events.len() && !ticks_of(before).contains(#[trigger] events[i].0) ==> !ticks_of(after).contains(
                events[i].0,
            ),
    ensures
        spec_event_diff(spec_event_diff(events, before, after), after, before) == events,
{
    broadcast use vstd::seq_lib::group_to_multiset_ensures;
    broadcast use vstd::multiset::group_multiset_axioms;

    let tb = ticks_of(before);
    let ta = ticks_of(after);
    let kept = without_ticks(events, tb);
    let mid = spec_event_diff(events, before, after);
    assert(tick_sorted(events));
    lemma_event_diff_keeps_order_and_events(events, before, after);
    lemma_without_props(events, tb);
    lemma_without_strict(events, tb);
    lemma_without_multiset(events, tb);
    // Removing the ticks of `after` from the middle state leaves `kept`.
    let back = without_ticks(mid, ta);
    lemma_without_props(mid, ta);
    lemma_without_multiset(mid, ta);
    assert(back.to_multiset() =~= kept.to_multiset()) by {
        assert forall|x: TickEvent<V>| #[trigger] back.to_multiset().count(x) == kept.to_multiset().count(x) by {
            if ta.contains(x.0) {
                if kept.to_multiset().count(x) > 0 {
                    assert(kept.contains(x));
                    let k = choose|k: int| 0 <= k < kept.len() && kept[k] == x;
                    assert(events.contains(kept[k]));
                    let e = choose|e: int| 0 <= e < events.len() && events[e] == x;
                    assert(!tb.contains(events[e].0));
                }
            } else {
                assert(after.to_multiset().count(x) == 0) by {
                    if after.to_multiset().count(x) > 0 {
                        assert(after.contains(x));
                        let k = choose|k: int| 0 <= k < after.len() && after[k] == x;
                        assert(ta.contains(after[k].0));
                    }
                }
            }
        }
    }
    lemma_sorted_unique(back, kept);
    // Merging `before` back into `kept` rebuilds the lane.
    let fin = spec_event_diff(mid, after, before);
    assert(fin == merge_by_tick(kept, sort_by_tick(before)));
    lemma_sort_props(before);
    lemma_merge_props(kept, sort_by_tick(before));
    assert(fin.to_multiset() =~= events.to_multiset()) by {
        assert forall|x: TickEvent<V>| #[trigger] fin.to_multiset().count(x) == events.to_multiset().count(x) by {}
    }
    lemma_sorted_unique(fin, events);
}


/// The model after an action: redo (`forward`) writes its new value, undo its
/// old one. Track 0's name and the project name are written together; an
/// action on a track that does not exist changes nothing.
pub open spec fn spec_apply(m: ModelView, a: UndoAction, forward: bool) -> ModelView {
    match a {
        UndoAction::TrackName { track_idx, old, new } => {
            let v = if forward { new@ } else { old@ };
            if track_idx < m.track_names.len() {
                ModelView {
                    track_names: m.track_names.update(track_idx as int, v),
                    name: if track_idx == 0 { v } else { m.name },
                    ..m
                }
            } else {
                m
            }
        },
        UndoAction::ProjectName { old, new } => {
            let v = if forward { new@ } else { old@ };
            ModelView {
                track_names: if m.track_names.len() > 0 { m.track_names.update(0, v) } else { m.track_names },
                name: v,
                ..m
            }
        },
        UndoAction::ProjectArtist { old, new } => ModelView {
            artist: if forward { new@ } else { old@ },
            ..m
        },
        UndoAction::ProjectDescription { old, new } => ModelView {
            description: if forward { new@ } else { old@ },
            ..m
        },
        UndoAction::ProjectPpq { old, new, rescale: _ } => ModelView {
            ppq: if forward { new } else { old },
            ..m
        },
        UndoAction::CompressionLevel { old, new } => ModelView {
            compression_level: if forward { new } else { old },
            ..m
        },
    }
}

/// The model holds the value of `a` on the side `forward` names: the new value
/// (the edit is in place) or the old one (it is undone).
pub open spec fn holds_value(m: ModelView, a: UndoAction, forward: bool) -> bool {
    match a {
        UndoAction::TrackName { track_idx, old, new } => {
            let v = if forward { new@ } else { old@ };
            track_idx < m.track_names.len() ==> {
                &&& m.track_names[track_idx as int] == v
                &&& track_idx == 0 ==> m.name == v
            }
        },
        UndoAction::ProjectName { old, new } => {
            let v = if forward { new@ } else { old@ };
            &&& m.name == v
            &&& m.track_names.len() > 0 ==> m.track_names[0] == v
        },
        UndoAction::ProjectArtist { old, new } => m.artist == if forward { new@ } else { old@ },
        UndoAction::ProjectDescription { old, new } => m.description == if forward { new@ } else { old@ },
        UndoAction::ProjectPpq { old, new, rescale: _ } => m.ppq == if forward { new } else { old },
        UndoAction::CompressionLevel { old, new } => m.compression_level == if forward { new } else { old },
    }
}

/// `d1` is `d0` with only the model changed.
pub open spec fn only_model_changed(d0: Document, d1: Document) -> bool {
    &&& d1.doc_id == d0.doc_id
    &&& d1.file_name == d0.file_name
    &&& d1.file_path == d0.file_path
    &&& d1.note_count == d0.note_count
    &&& d1.mixer_dirty == d0.mixer_dirty
    &&& d1.history == d0.history
    &&& d1.edit.pending_edits@ == d0.edit.pending_edits@
}

impl UndoAction {
    /// Writes the action's value into the model: the new one when `forward`,
    /// the old one otherwise.
    fn apply_to(&self, model: &mut DocModel, forward: bool)
        ensures
            final(model)@ == spec_apply(old(model)@, *self, forward),
    {
        let ghost m0 = model@;
        match self {
            UndoAction::TrackName { track_idx, old: before, new: after } => {
                let v = if forward { after } else { before };
                if *track_idx < model.track_names.len() {
                    model.track_names[*track_idx] = owned(v.as_str());
                    if *track_idx == 0 {
                        model.meta.name = owned(v.as_str());
                    }
                    proof {
                        assert(model@.track_names =~= spec_apply(m0, *self, forward).track_names);
                    }
                }
            },
            UndoAction::ProjectName { old: before, new: after } => {
                let v = if forward { after } else { before };
                model.meta.name = owned(v.as_str());
                if model.track_names.len() > 0 {
                    model.track_names[0] = owned(v.as_str());
                }
                proof {
                    assert(model@.track_names =~= spec_apply(m0, *self, forward).track_names);
                }
            },
            UndoAction::ProjectArtist { old: before, new: after } => {
                let v = if forward { after } else { before };
                model.meta.artist = owned(v.as_str());
                proof {
                    assert(model@.track_names =~= m0.track_names);
                }
            },
            UndoAction::ProjectDescription { old: before, new: after } => {
                let v = if forward { after } else { before };
                model.meta.description = owned(v.as_str());
                proof {
                    assert(model@.track_names =~= m0.track_names);
                }
            },
            UndoAction::ProjectPpq { old: before, new: after, rescale: _ } => {
                model.meta.ppq = if forward { *after } else { *before };
                proof {
                    assert(model@.track_names =~= m0.track_names);
                }
            },
            UndoAction::CompressionLevel { old: before, new: after } => {
                model.meta.compression_level = if forward { *after } else { *before };
                proof {
                    assert(model@.track_names =~= m0.track_names);
                }
            },
        }
    }

    /// Applies the forward action (used by redo).
    pub fn redo(&self, doc: &mut Document)
        ensures
            final(doc).model@ == spec_apply(old(doc).model@, *self, true),
            only_model_changed(*old(doc), *final(doc)),
    {
        self.apply_to(&mut doc.model, true);
    }

    /// Applies the reverse action (used by undo).
    pub fn undo(&self, doc: &mut Document)
        ensures
            final(doc).model@ == spec_apply(old(doc).model@, *self, false),
            only_model_changed(*old(doc), *final(doc)),
    {
        self.apply_to(&mut doc.model, false);
    }
}

/// Applying an action puts its value in place (the new one for redo, the old
/// one for undo) and leaves every field that the action does not name as it
/// was; the number of tracks never changes.
pub proof fn lemma_apply_writes_only_its_value(m: ModelView, a: UndoAction, forward: bool)
    ensures
        holds_value(spec_apply(m, a, forward), a, forward),
        spec_apply(m, a, forward).track_names.len() == m.track_names.len(),
        !(a is ProjectArtist) ==> spec_apply(m, a, forward).artist == m.artist,
        !(a is ProjectDescription) ==> spec_apply(m, a, forward).description == m.description,
        !(a is ProjectPpq) ==> spec_apply(m, a, forward).ppq == m.ppq,
        !(a is CompressionLevel) ==> spec_apply(m, a, forward).compression_level == m.compression_level,
        !(a is TrackName || a is ProjectName) ==> spec_apply(m, a, forward).track_names == m.track_names
            && spec_apply(m, a, forward).name == m.name,
{
}

/// Undoing an action whose new value is in place, then redoing it, gives the
/// model back; and the other way round from the old value.
pub proof fn lemma_apply_roundtrip(m: ModelView, a: UndoAction, forward: bool)
    requires
        holds_value(m, a, forward),
    ensures
        holds_value(spec_apply(m, a, !forward), a, !forward),
        spec_apply(spec_apply(m, a, !forward), a, forward) == m,
{
    let m1 = spec_apply(m, a, !forward);
    let m2 = spec_apply(m1, a, forward);
    assert(m2.track_names =~= m.track_names);
}

} // verus!
