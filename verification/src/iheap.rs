//! An indexed binary min-heap of `(key, value)` entries.
//!
//! The entries live in an array that is ordered as a min-heap on the value.
//! Beside the array the heap keeps a table from every key to the position of
//! its entry, so that an entry can be found, changed or removed in place.

pub use crate::hash::FnvHasher;
use crate::helper::{room_had, vec_with_room, Exhausted};
use crate::index::{index_contents, KeyIndex};
use vstd::multiset::Multiset;
use vstd::prelude::*;
use vstd::std_specs::convert::FromSpecImpl;
use vstd::seq_lib::{to_multiset_build, to_multiset_contains, to_multiset_remove, to_multiset_update};

verus! {

/// One heap entry: a key and the value the heap is ordered by.
pub type Entry = (u64, u64);

/// Position of the parent of position `i` (for `i > 0`).
pub open spec fn parent(i: int) -> int {
    (i - 1) / 2
}

/// The first `end` entries of `s` form a min-heap on the value: no entry is
/// smaller than its parent.
pub open spec fn heap_ordered_upto(s: Seq<Entry>, end: int) -> bool {
    forall|i: int| 0 < i < end ==> s[parent(i)].1 <= (#[trigger] s[i]).1
}

/// All of `s` forms a min-heap on the value.
pub open spec fn heap_ordered(s: Seq<Entry>) -> bool {
    heap_ordered_upto(s, s.len() as int)
}

/// `m` maps the key of every entry of `s` to the position of that entry, and
/// nothing else.
pub open spec fn indexed_by(s: Seq<Entry>, m: Map<u64, usize>) -> bool {
    &&& forall|i: int| 0 <= i < s.len() ==> m.contains_key((#[trigger] s[i]).0) && m[s[i].0] == i
    &&& forall|k: u64| #[trigger] m.contains_key(k) ==> m[k] < s.len() && s[m[k] as int].0 == k
}

/// No two entries of `s` have the same key.
pub open spec fn distinct_keys(s: Seq<Entry>) -> bool {
    forall|i: int, j: int|
        0 <= i < s.len() && 0 <= j < s.len() && (#[trigger] s[i]).0 == (#[trigger] s[j]).0 ==> i == j
}

/// Some entry of `s` has key `key`.
pub open spec fn has_key(s: Seq<Entry>, key: u64) -> bool {
    exists|i: int| 0 <= i < s.len() && (#[trigger] s[i]).0 == key
}

/// The values of the entries of `s`, as a multiset.
pub open spec fn value_bag(s: Seq<Entry>) -> Multiset<u64> {
    s.map_values(|e: Entry| e.1).to_multiset()
}

/// The first `end` entries of `s` are heap ordered everywhere but between
/// position `pos` and its parent; the children of `pos` are not smaller than
/// the parent of `pos`.
pub open spec fn ordered_except_up(s: Seq<Entry>, pos: int, end: int) -> bool {
    &&& forall|i: int| 0 < i < end && i != pos ==> s[parent(i)].1 <= (#[trigger] s[i]).1
    &&& forall|i: int|
        0 < i < end && parent(i) == pos && pos > 0 ==> s[parent(pos)].1 <= (#[trigger] s[i]).1
}

/// The first `end` entries of `s` are heap ordered everywhere but between
/// position `pos` and its children; the children of `pos` are not smaller
/// than the parent of `pos`.
pub open spec fn ordered_except_down(s: Seq<Entry>, pos: int, end: int) -> bool {
    &&& forall|i: int| 0 < i < end && parent(i) != pos ==> s[parent(i)].1 <= (#[trigger] s[i]).1
    &&& forall|i: int|
        0 < i < end && parent(i) == pos && pos > 0 ==> s[parent(pos)].1 <= (#[trigger] s[i]).1
}

/// What `pop` does to the entries `pre`: it leaves `post` and returns `popped`.
pub open spec fn pop_step(pre: Seq<Entry>, post: Seq<Entry>, popped: Option<Entry>) -> bool {
    if pre.len() == 0 {
        popped.is_none() && post == pre
    } else {
        &&& popped == Some(pre[0])
        &&& post.len() == pre.len() - 1
        &&& post.to_multiset() == pre.to_multiset().remove(pre[0])
        &&& heap_ordered(post)
    }
}

/// Exchanging two entries changes neither the multiset of entries nor the
/// multiset of values.
pub proof fn lemma_swap_keeps_bags(s: Seq<Entry>, i: int, j: int)
    requires
        0 <= i < s.len(),
        0 <= j < s.len(),
    ensures
        s.update(i, s[j]).update(j, s[i]).to_multiset() == s.to_multiset(),
        value_bag(s.update(i, s[j]).update(j, s[i])) == value_bag(s),
{
    let t = s.update(i, s[j]).update(j, s[i]);
    to_multiset_update(s, i, s[j]);
    to_multiset_update(s.update(i, s[j]), j, s[i]);
    to_multiset_contains(s, s[j]);
    to_multiset_contains(s, s[i]);
    assert(s.contains(s[i]));
    assert(s.contains(s[j]));
    assert(t.to_multiset() =~= s.to_multiset());
    let v = s.map_values(|e: Entry| e.1);
    assert(t.map_values(|e: Entry| e.1) =~= v.update(i, v[j]).update(j, v[i]));
    to_multiset_update(v, i, v[j]);
    to_multiset_update(v.update(i, v[j]), j, v[i]);
    to_multiset_contains(v, v[j]);
    to_multiset_contains(v, v[i]);
    assert(v.contains(v[i]));
    assert(v.contains(v[j]));
    assert(v.update(i, v[j]).update(j, v[i]).to_multiset() =~= v.to_multiset());
}

/// Two arrays with the same multiset of entries have the same multiset of
/// values.
pub proof fn lemma_value_bag_of_permutation(a: Seq<Entry>, b: Seq<Entry>)
    requires
        a.to_multiset() == b.to_multiset(),
    ensures
        value_bag(a) == value_bag(b),
    decreases a.len(),
{
    vstd::seq_lib::to_multiset_len(a);
    vstd::seq_lib::to_multiset_len(b);
    let f = |e: Entry| e.1;
    if a.len() == 0 {
        assert(a.map_values(f) =~= b.map_values(f));
    } else {
        let x = a.last();
        let a0 = a.drop_last();
        assert(a =~= a0.push(x));
        to_multiset_build(a0, x);
        to_multiset_contains(a, x);
        assert(a.contains(x));
        to_multiset_contains(b, x);
        let j = choose|j: int| 0 <= j < b.len() && b[j] == x;
        let b0 = b.remove(j);
        to_multiset_remove(b, j);
        assert(a0.to_multiset() =~= a.to_multiset().remove(x));
        lemma_value_bag_of_permutation(a0, b0);
        assert(a.map_values(f) =~= a0.map_values(f).push(x.1));
        to_multiset_build(a0.map_values(f), x.1);
        assert(b0.map_values(f) =~= b.map_values(f).remove(j));
        to_multiset_remove(b.map_values(f), j);
        to_multiset_contains(b.map_values(f), x.1);
        assert(b.map_values(f)[j] == x.1);
        assert(b.map_values(f).contains(x.1));
        assert(value_bag(b) =~= value_bag(b0).insert(x.1));
    }
}

/// In a min-heap no entry is smaller than the root.
pub proof fn lemma_root_is_least(s: Seq<Entry>, i: int)
    requires
        heap_ordered(s),
        0 <= i < s.len(),
    ensures
        s[0].1 <= s[i].1,
    decreases i,
{
    if i > 0 {
        lemma_root_is_least(s, parent(i));
        assert(s[parent(i)].1 <= s[i].1);
    }
}

/// An index that maps every key to its position shows that the keys differ.
pub proof fn lemma_indexed_keys_distinct(s: Seq<Entry>, m: Map<u64, usize>)
    requires
        indexed_by(s, m),
    ensures
        distinct_keys(s),
{
    assert forall|i: int, j: int|
        0 <= i < s.len() && 0 <= j < s.len() && (#[trigger] s[i]).0 == (#[trigger] s[j]).0 implies i
        == j by {
        assert(m[s[i].0] == i);
        assert(m[s[j].0] == j);
    }
}

/// What `update` does to the entries `pre`: the entry at `pos` gets the value
/// `new_value`, and the entries are rearranged into a min-heap `post`.
pub open spec fn update_step(pre: Seq<Entry>, post: Seq<Entry>, pos: int, new_value: u64) -> bool {
    &&& post.len() == pre.len()
    &&& post.to_multiset() == pre.to_multiset().insert((pre[pos].0, new_value)).remove(pre[pos])
    &&& value_bag(post) == value_bag(pre).insert(new_value).remove(pre[pos].1)
    &&& heap_ordered(post)
}

/// Of two pops in a row, with no other change to the heap between them, the
/// second does not return a smaller value than the first.
pub proof fn lemma_next_pop_not_smaller(
    s0: Seq<Entry>,
    s1: Seq<Entry>,
    s2: Seq<Entry>,
    first: Entry,
    second: Entry,
)
    requires
        heap_ordered(s0),
        pop_step(s0, s1, Some(first)),
        pop_step(s1, s2, Some(second)),
    ensures
        first.1 <= second.1,
{
    assert(s1.len() > 0);
    assert(s1.contains(s1[0]));
    to_multiset_contains(s1, second);
    to_multiset_contains(s0, second);
    let j = choose|j: int| 0 <= j < s0.len() && s0[j] == second;
    lemma_root_is_least(s0, j);
}

/// A run of pops with nothing in between returns values in ascending order:
/// where `states[i]` is the heap before the `i`-th pop and `popped[i]` what
/// that pop returned, no later pop returns a smaller value than an earlier one.
pub proof fn lemma_pops_ascend(states: Seq<Seq<Entry>>, popped: Seq<Entry>, i: int, j: int)
    requires
        states.len() == popped.len() + 1,
        heap_ordered(states[0]),
        forall|n: int|
            0 <= n < popped.len() ==> pop_step(
                #[trigger] states[n],
                states[n + 1],
                Some(popped[n]),
            ),
        0 <= i <= j < popped.len(),
    ensures
        popped[i].1 <= popped[j].1,
    decreases j - i,
{
    if i < j {
        lemma_pops_ascend(states, popped, i, j - 1);
        assert(pop_step(states[j - 1], states[j], Some(popped[j - 1])));
        assert(pop_step(states[j], states[j + 1], Some(popped[j])));
        lemma_pop_keeps_order(states, popped, j - 1);
        lemma_next_pop_not_smaller(
            states[j - 1],
            states[j],
            states[j + 1],
            popped[j - 1],
            popped[j],
        );
    }
}

/// In a run of pops every state on the way is a min-heap.
proof fn lemma_pop_keeps_order(states: Seq<Seq<Entry>>, popped: Seq<Entry>, n: int)
    requires
        states.len() == popped.len() + 1,
        heap_ordered(states[0]),
        forall|n: int|
            0 <= n < popped.len() ==> pop_step(
                #[trigger] states[n],
                states[n + 1],
                Some(popped[n]),
            ),
        0 <= n <= popped.len(),
    ensures
        heap_ordered(states[n]),
{
    if n > 0 {
        assert(pop_step(states[n - 1], states[n], Some(popped[n - 1])));
    }
}

/// `update` leaves the multiset of values as it was exactly when the new
/// value is the old one.
pub proof fn lemma_update_keeps_values_iff_same(
    pre: Seq<Entry>,
    post: Seq<Entry>,
    pos: int,
    new_value: u64,
)
    requires
        0 <= pos < pre.len(),
        update_step(pre, post, pos, new_value),
    ensures
        value_bag(post) == value_bag(pre) <==> new_value == pre[pos].1,
{
    let vals = pre.map_values(|e: Entry| e.1);
    assert(vals[pos] == pre[pos].1);
    assert(vals.contains(pre[pos].1));
    to_multiset_contains(vals, pre[pos].1);
    if new_value == pre[pos].1 {
        assert(value_bag(pre).insert(new_value).remove(new_value) =~= value_bag(pre));
    } else {
        assert(value_bag(post).count(new_value) == value_bag(pre).count(new_value) + 1);
    }
}

/// The array `s` with the entries at positions `i` and `j` exchanged.
pub open spec fn swapped(s: Seq<Entry>, i: int, j: int) -> Seq<Entry> {
    s.update(i, s[j]).update(j, s[i])
}

/// The array after the entry at `pos` has moved up, one exchange with its
/// parent at a time, while it is smaller than its parent and below `begin`.
pub open spec fn sift_up_spec(s: Seq<Entry>, begin: int, pos: int) -> Seq<Entry>
    decreases pos,
{
    if begin < pos && 0 < pos < s.len() && s[pos].1 < s[parent(pos)].1 {
        sift_up_spec(swapped(s, pos, parent(pos)), begin, parent(pos))
    } else {
        s
    }
}

/// Of the children of `pos` that lie before `end`, the one with the smaller
/// value; the left one on a tie.
pub open spec fn smaller_child(s: Seq<Entry>, pos: int, end: int) -> int {
    let left = 2 * pos + 1;
    if left + 1 < end && s[left + 1].1 < s[left].1 {
        left + 1
    } else {
        left
    }
}

/// The array after the entry at `pos` has moved down within the first `end`
/// entries, one exchange with its smaller child at a time, while it is
/// larger than that child.
pub open spec fn sift_down_spec(s: Seq<Entry>, pos: int, end: int) -> Seq<Entry>
    decreases end - pos,
{
    if 0 <= pos && 2 * pos + 1 < end <= s.len() && s[smaller_child(s, pos, end)].1 < s[pos].1 {
        sift_down_spec(swapped(s, pos, smaller_child(s, pos, end)), smaller_child(s, pos, end), end)
    } else {
        s
    }
}

/// The array after the entry at `pos`, whose value was `was` when the array
/// was last in order, has moved to where it belongs.
pub open spec fn resettle_spec(s: Seq<Entry>, pos: int, was: u64) -> Seq<Entry> {
    if was < s[pos].1 {
        sift_down_spec(s, pos, s.len() as int)
    } else if was > s[pos].1 {
        sift_up_spec(s, 0, pos)
    } else {
        s
    }
}

/// The array after `push(item)`.
pub open spec fn push_spec(s: Seq<Entry>, item: Entry) -> Seq<Entry> {
    sift_up_spec(s.push(item), 0, s.len() as int)
}

/// The array after `replace(pos, item)`.
pub open spec fn replace_spec(s: Seq<Entry>, pos: int, item: Entry) -> Seq<Entry> {
    resettle_spec(s.update(pos, item), pos, s[pos].1)
}

/// The array after `update(pos, new_value)`.
pub open spec fn update_spec(s: Seq<Entry>, pos: int, new_value: u64) -> Seq<Entry> {
    replace_spec(s, pos, (s[pos].0, new_value))
}

/// The array after `remove(pos)`: the last entry is taken off and, unless it
/// was the one to remove, put in place of the entry at `pos`.
pub open spec fn remove_spec(s: Seq<Entry>, pos: int) -> Seq<Entry> {
    if pos < s.len() - 1 {
        replace_spec(s.drop_last(), pos, s.last())
    } else {
        s.drop_last()
    }
}

/// The array after `pop()`.
pub open spec fn pop_spec(s: Seq<Entry>) -> Seq<Entry> {
    if s.len() == 0 {
        s
    } else {
        remove_spec(s, 0)
    }
}

/// Moving an entry up changes neither the number of entries nor which
/// entries there are.
pub proof fn lemma_sift_up_permutes(s: Seq<Entry>, begin: int, pos: int)
    requires
        0 <= pos < s.len(),
    ensures
        sift_up_spec(s, begin, pos).len() == s.len(),
        sift_up_spec(s, begin, pos).to_multiset() == s.to_multiset(),
    decreases pos,
{
    if begin < pos && 0 < pos < s.len() && s[pos].1 < s[parent(pos)].1 {
        lemma_swap_keeps_bags(s, pos, parent(pos));
        lemma_sift_up_permutes(swapped(s, pos, parent(pos)), begin, parent(pos));
    }
}

/// Moving an entry down changes neither the number of entries nor which
/// entries there are.
pub proof fn lemma_sift_down_permutes(s: Seq<Entry>, pos: int, end: int)
    ensures
        sift_down_spec(s, pos, end).len() == s.len(),
        sift_down_spec(s, pos, end).to_multiset() == s.to_multiset(),
    decreases end - pos,
{
    if 0 <= pos && 2 * pos + 1 < end <= s.len() && s[smaller_child(s, pos, end)].1 < s[pos].1 {
        let child = smaller_child(s, pos, end);
        lemma_swap_keeps_bags(s, pos, child);
        lemma_sift_down_permutes(swapped(s, pos, child), child, end);
    }
}

/// After `replace` the array holds the entry put in and the entries it held
/// before at the other positions, and no others.
pub proof fn lemma_replace_entries(s: Seq<Entry>, pos: int, item: Entry)
    requires
        0 <= pos < s.len(),
    ensures
        replace_spec(s, pos, item).len() == s.len(),
        replace_spec(s, pos, item).to_multiset() == s.update(pos, item).to_multiset(),
{
    let t = s.update(pos, item);
    lemma_sift_down_permutes(t, pos, t.len() as int);
    lemma_sift_up_permutes(t, 0, pos);
}

/// Two arrays of the same entries hold the same keys.
pub proof fn lemma_same_entries_same_keys(a: Seq<Entry>, b: Seq<Entry>, key: u64)
    requires
        a.to_multiset() == b.to_multiset(),
    ensures
        has_key(a, key) ==> has_key(b, key),
{
    if has_key(a, key) {
        let i = choose|i: int| 0 <= i < a.len() && (#[trigger] a[i]).0 == key;
        lemma_same_entries(a, b, a[i]);
        assert(a.contains(a[i]));
        let j = choose|j: int| 0 <= j < b.len() && b[j] == a[i];
        assert(b[j].0 == key);
    }
}

/// Two arrays of the same entries hold each entry alike.
pub proof fn lemma_same_entries(a: Seq<Entry>, b: Seq<Entry>, entry: Entry)
    requires
        a.to_multiset() == b.to_multiset(),
    ensures
        a.contains(entry) <==> b.contains(entry),
{
    to_multiset_contains(a, entry);
    to_multiset_contains(b, entry);
}

/// After `push` the array holds the key pushed and the keys it held before,
/// and no others.
pub proof fn lemma_push_keys(s: Seq<Entry>, item: Entry, key: u64)
    ensures
        push_spec(s, item).len() == s.len() + 1,
        has_key(push_spec(s, item), key) <==> has_key(s, key) || key == item.0,
{
    let t = s.push(item);
    let u = push_spec(s, item);
    lemma_sift_up_permutes(t, 0, s.len() as int);
    to_multiset_build(s, item);
    if has_key(u, key) {
        let i = choose|i: int| 0 <= i < u.len() && (#[trigger] u[i]).0 == key;
        to_multiset_contains(u, u[i]);
        to_multiset_contains(t, u[i]);
        assert(u.contains(u[i]));
        let j = choose|j: int| 0 <= j < t.len() && t[j] == u[i];
        if j < s.len() {
            assert(s[j].0 == key);
        }
    }
    if has_key(s, key) || key == item.0 {
        let j = if has_key(s, key) {
            choose|j: int| 0 <= j < s.len() && (#[trigger] s[j]).0 == key
        } else {
            s.len() as int
        };
        assert(t[j].0 == key);
        to_multiset_contains(t, t[j]);
        to_multiset_contains(u, t[j]);
        assert(t.contains(t[j]));
        let i = choose|i: int| 0 <= i < u.len() && u[i] == t[j];
        assert(u[i].0 == key);
    }
}

/// Exchanging two entries and rebinding their keys keeps an index in step.
/// The index may be stale for the key at `h` before, and for that same key,
/// now at `p`, after.
proof fn lemma_move_keeps_index(f: Seq<Entry>, m: Map<u64, usize>, h: usize, p: usize)
    requires
        h < f.len(),
        p < f.len(),
        h != p,
        indexed_by(f, m.insert(f[h as int].0, h)),
    ensures
        indexed_by(
            swapped(f, h as int, p as int),
            m.insert(f[p as int].0, h).insert(f[h as int].0, p),
        ),
{
    let m0 = m.insert(f[h as int].0, h);
    let m1 = m.insert(f[p as int].0, h).insert(f[h as int].0, p);
    let g = swapped(f, h as int, p as int);
    lemma_indexed_keys_distinct(f, m0);
    assert(f[h as int].0 != f[p as int].0);
    assert forall|i: int| 0 <= i < g.len() implies m1.contains_key((#[trigger] g[i]).0) && m1[g[i].0]
        == i by {
        if i != h && i != p {
            assert(g[i] == f[i]);
            assert(m0.contains_key(f[i].0) && m0[f[i].0] == i);
            assert(f[i].0 != f[h as int].0);
            assert(f[i].0 != f[p as int].0);
        }
    }
    assert forall|k: u64| #[trigger] m1.contains_key(k) implies m1[k] < g.len() && g[m1[k] as int].0
        == k by {
        if k != f[h as int].0 && k != f[p as int].0 {
            assert(m0.contains_key(k));
            let i = m0[k] as int;
            assert(f[i].0 == k);
            assert(i != h && i != p);
        }
    }
}

/// Moving a too-small entry up over its parent moves the one place where the
/// order may fail up with it.
proof fn lemma_step_up(f: Seq<Entry>, h: int, end: int)
    requires
        0 < h < end <= f.len(),
        ordered_except_up(f, h, end),
        f[h].1 < f[parent(h)].1,
    ensures
        ordered_except_up(swapped(f, h, parent(h)), parent(h), end),
{
    let p = parent(h);
    let g = swapped(f, h, p);
    assert forall|i: int| 0 < i < end && i != p implies g[parent(i)].1 <= (#[trigger] g[i]).1 by {
        if i == h {
        } else {
            assert(g[i] == f[i]);
            assert(f[parent(i)].1 <= f[i].1);
            if parent(i) == h {
                assert(f[parent(h)].1 <= f[i].1);
            } else if parent(i) == p {
            } else {
            }
        }
    }
    assert forall|i: int| 0 < i < end && parent(i) == p && p > 0 implies g[parent(p)].1 <= (
    #[trigger] g[i]).1 by {
        assert(f[parent(p)].1 <= f[p].1);
        if i != h {
            assert(f[parent(i)].1 <= f[i].1);
        }
    }
}

/// Moving a too-large entry down under its smallest child moves the one
/// place where the order may fail down with it.
proof fn lemma_step_down(f: Seq<Entry>, h: int, c: int, end: int)
    requires
        0 <= h < c < end <= f.len(),
        parent(c) == h,
        ordered_except_down(f, h, end),
        f[c].1 < f[h].1,
        forall|i: int| 0 < i < end && parent(i) == h ==> f[c].1 <= (#[trigger] f[i]).1,
    ensures
        ordered_except_down(swapped(f, h, c), c, end),
{
    let g = swapped(f, h, c);
    assert forall|i: int| 0 < i < end && parent(i) != c implies g[parent(i)].1 <= (#[trigger] g[i]).1 by {
        if i == c {
        } else if i == h {
            assert(f[parent(h)].1 <= f[c].1);
        } else if parent(i) == h {
            assert(f[c].1 <= f[i].1);
        } else {
            assert(f[parent(i)].1 <= f[i].1);
        }
    }
    assert forall|i: int| 0 < i < end && parent(i) == c && c > 0 implies g[parent(c)].1 <= (
    #[trigger] g[i]).1 by {
        assert(f[parent(i)].1 <= f[i].1);
    }
}

/// Once the entry at `h` is not smaller than its parent, nothing is out of
/// order.
proof fn lemma_settled_up(f: Seq<Entry>, h: int, end: int)
    requires
        0 <= h < end <= f.len(),
        ordered_except_up(f, h, end),
        h > 0 ==> f[parent(h)].1 <= f[h].1,
    ensures
        heap_ordered_upto(f, end),
{
}

/// Once the entry at `h` is not larger than its children, nothing is out of
/// order.
proof fn lemma_settled_down(f: Seq<Entry>, h: int, end: int)
    requires
        0 <= h < end <= f.len(),
        ordered_except_down(f, h, end),
        forall|i: int| 0 < i < end && parent(i) == h ==> f[h].1 <= (#[trigger] f[i]).1,
    ensures
        heap_ordered_upto(f, end),
{
}

/// Binding a key to the position it already has changes nothing.
proof fn lemma_index_fresh(s: Seq<Entry>, m: Map<u64, usize>, pos: usize)
    requires
        pos < s.len(),
        indexed_by(s, m),
    ensures
        m.insert(s[pos as int].0, pos) == m,
{
    assert(m.contains_key(s[pos as int].0) && m[s[pos as int].0] == pos);
    assert(m.insert(s[pos as int].0, pos) =~= m);
}

/// Taking the last entry off a heap, and its key out of the index, leaves a
/// heap with its index.
proof fn lemma_drop_last(s: Seq<Entry>, m: Map<u64, usize>)
    requires
        s.len() > 0,
        heap_ordered(s),
        indexed_by(s, m),
    ensures
        heap_ordered(s.drop_last()),
        indexed_by(s.drop_last(), m.remove(s.last().0)),
        s.drop_last().to_multiset() == s.to_multiset().remove(s.last()),
{
    let t = s.drop_last();
    let n = m.remove(s.last().0);
    assert(s =~= t.push(s.last()));
    to_multiset_build(t, s.last());
    assert(t.to_multiset() =~= s.to_multiset().remove(s.last()));
    lemma_indexed_keys_distinct(s, m);
    assert forall|i: int| 0 < i < t.len() implies t[parent(i)].1 <= (#[trigger] t[i]).1 by {
        assert(s[parent(i)].1 <= s[i].1);
    }
    assert forall|i: int| 0 <= i < t.len() implies n.contains_key((#[trigger] t[i]).0) && n[t[i].0]
        == i by {
        assert(t[i] == s[i]);
        assert(m.contains_key(s[i].0) && m[s[i].0] == i);
    }
    assert forall|k: u64| #[trigger] n.contains_key(k) implies n[k] < t.len() && t[n[k] as int].0
        == k by {
        assert(m.contains_key(k));
        let i = m[k] as int;
        assert(s[i].0 == k);
    }
}

/// Adding an entry with a new key at the end, and its key to the index,
/// leaves an array that is out of order at most at its last position.
proof fn lemma_push_last(s: Seq<Entry>, m: Map<u64, usize>, item: Entry, pos: usize)
    requires
        pos == s.len(),
        heap_ordered(s),
        indexed_by(s, m),
        !has_key(s, item.0),
    ensures
        ordered_except_up(s.push(item), pos as int, pos + 1),
        indexed_by(s.push(item), m.insert(item.0, pos)),
        s.push(item).to_multiset() == s.to_multiset().insert(item),
{
    let t = s.push(item);
    let n = m.insert(item.0, pos);
    to_multiset_build(s, item);
    if m.contains_key(item.0) {
        assert(s[m[item.0] as int].0 == item.0);
    }
    assert forall|i: int| 0 < i < t.len() && i != s.len() implies t[parent(i)].1 <= (
    #[trigger] t[i]).1 by {
        assert(s[parent(i)].1 <= s[i].1);
    }
    assert forall|i: int| 0 <= i < t.len() implies n.contains_key((#[trigger] t[i]).0) && n[t[i].0]
        == i by {
        if i != s.len() {
            assert(t[i] == s[i]);
            assert(m.contains_key(s[i].0) && m[s[i].0] == i);
        }
    }
    assert forall|k: u64| #[trigger] n.contains_key(k) implies n[k] < t.len() && t[n[k] as int].0
        == k by {
        if k != item.0 {
            assert(m.contains_key(k));
            assert(s[m[k] as int].0 == k);
        }
    }
}

/// Overwriting the entry at `pos` with `item`, whose key is new or the key
/// of the entry overwritten, and rebinding the keys, keeps the index in step.
proof fn lemma_overwrite(s: Seq<Entry>, m: Map<u64, usize>, pos: usize, item: Entry)
    requires
        pos < s.len(),
        indexed_by(s, m),
        has_key(s, item.0) ==> s[pos as int].0 == item.0,
    ensures
        indexed_by(s.update(pos as int, item), m.remove(s[pos as int].0).insert(item.0, pos)),
        s.update(pos as int, item).to_multiset() == s.to_multiset().insert(item).remove(
            s[pos as int],
        ),
{
    let t = s.update(pos as int, item);
    let n = m.remove(s[pos as int].0).insert(item.0, pos);
    to_multiset_update(s, pos as int, item);
    lemma_indexed_keys_distinct(s, m);
    assert forall|i: int| 0 <= i < t.len() implies n.contains_key((#[trigger] t[i]).0) && n[t[i].0]
        == i by {
        if i != pos {
            assert(t[i] == s[i]);
            assert(m.contains_key(s[i].0) && m[s[i].0] == i);
            assert(s[i].0 != s[pos as int].0);
            assert(has_key(s, s[i].0));
        }
    }
    assert forall|k: u64| #[trigger] n.contains_key(k) implies n[k] < t.len() && t[n[k] as int].0
        == k by {
        if k != item.0 {
            assert(m.contains_key(k));
            let i = m[k] as int;
            assert(s[i].0 == k);
            assert(i != pos);
        }
    }
}

/// Where only the value at `pos` differs from a min-heap, and it is not
/// larger than it was there, the array is out of order at most above `pos`.
proof fn lemma_lowered(s: Seq<Entry>, pos: int, was: u64)
    requires
        0 <= pos < s.len(),
        heap_ordered(s.update(pos, (s[pos].0, was))),
        s[pos].1 <= was,
    ensures
        ordered_except_up(s, pos, s.len() as int),
{
    let h = s.update(pos, (s[pos].0, was));
    assert forall|i: int| 0 < i < s.len() && i != pos implies s[parent(i)].1 <= (#[trigger] s[i]).1 by {
        assert(h[parent(i)].1 <= h[i].1);
    }
    assert forall|i: int| 0 < i < s.len() && parent(i) == pos && pos > 0 implies s[parent(pos)].1
        <= (#[trigger] s[i]).1 by {
        assert(h[parent(i)].1 <= h[i].1);
        assert(h[parent(pos)].1 <= h[pos].1);
    }
}

/// Where only the value at `pos` differs from a min-heap, and it is not
/// smaller than it was there, the array is out of order at most below `pos`.
proof fn lemma_raised(s: Seq<Entry>, pos: int, was: u64)
    requires
        0 <= pos < s.len(),
        heap_ordered(s.update(pos, (s[pos].0, was))),
        s[pos].1 >= was,
    ensures
        ordered_except_down(s, pos, s.len() as int),
{
    let h = s.update(pos, (s[pos].0, was));
    assert forall|i: int| 0 < i < s.len() && parent(i) != pos implies s[parent(i)].1 <= (
    #[trigger] s[i]).1 by {
        assert(h[parent(i)].1 <= h[i].1);
    }
    assert forall|i: int| 0 < i < s.len() && parent(i) == pos && pos > 0 implies s[parent(pos)].1
        <= (#[trigger] s[i]).1 by {
        assert(h[parent(i)].1 <= h[i].1);
        assert(h[parent(pos)].1 <= h[pos].1);
    }
}

/// Changing only the key of an entry keeps a min-heap a min-heap.
proof fn lemma_rekeyed(s: Seq<Entry>, pos: int, key: u64)
    requires
        0 <= pos < s.len(),
        heap_ordered(s),
    ensures
        heap_ordered(s.update(pos, (key, s[pos].1))),
{
    let t = s.update(pos, (key, s[pos].1));
    assert forall|i: int| 0 < i < t.len() implies t[parent(i)].1 <= (#[trigger] t[i]).1 by {
        assert(s[parent(i)].1 <= s[i].1);
    }
}

/// What `update` does to the multisets of entries and of values.
proof fn lemma_update_bags(s: Seq<Entry>, pos: int, new_value: u64)
    requires
        0 <= pos < s.len(),
    ensures
        s.update(pos, (s[pos].0, new_value)).to_multiset() == s.to_multiset().insert(
            (s[pos].0, new_value),
        ).remove(s[pos]),
        value_bag(s.update(pos, (s[pos].0, new_value))) == value_bag(s).insert(new_value).remove(
            s[pos].1,
        ),
{
    to_multiset_update(s, pos, (s[pos].0, new_value));
    let vals = s.map_values(|e: Entry| e.1);
    to_multiset_update(vals, pos, new_value);
    assert(s.update(pos, (s[pos].0, new_value)).map_values(|e: Entry| e.1) =~= vals.update(
        pos,
        new_value,
    ));
}

/// `Vec::capacity`: the number of entries the array can hold without
/// allocating again, which is never less than the number it holds.
#[verifier::external_body]
fn array_capacity(data: &Vec<Entry>) -> (room: usize)
    ensures
        room >= data@.len(),
{
    data.capacity()
}

/// An indexed min-heap of `(key, value)` entries with distinct keys.
pub struct IHeap {
    index: KeyIndex,
    data: Vec<Entry>,
}

/// A position whose entry has been lifted out of the array while other
/// entries are shifted past it.
struct Hole {
    elem: Entry,
    pos: usize,
}

impl View for IHeap {
    type V = Seq<Entry>;

    /// The data array, root first.
    closed spec fn view(&self) -> Seq<Entry> {
        self.data@
    }
}

impl Hole {
    /// Lifts the entry at `pos` out of the heap's array.
    fn new(heap: &IHeap, pos: usize) -> (hole: Hole)
        requires
            pos < heap@.len(),
        ensures
            hole.pos == pos,
            hole.elem == heap@[pos as int],
    {
        Hole { elem: heap.data[pos], pos }
    }

    fn pos(&self) -> (p: usize)
        ensures
            p == self.pos,
    {
        self.pos
    }

    /// The entry that was lifted out.
    fn element(&self) -> (e: &Entry)
        ensures
            *e == self.elem,
    {
        &self.elem
    }

    /// The entry at `index`, which is not the hole.
    fn get<'a>(&self, heap: &'a IHeap, index: usize) -> (e: &'a Entry)
        requires
            index != self.pos,
            index < heap@.len(),
        ensures
            *e == heap@[index as int],
    {
        &heap.data[index]
    }

    /// Shifts the entry at `index` into the hole, rebinds its key, and moves
    /// the hole to `index`.
    fn move_to(&mut self, heap: &mut IHeap, index: usize)
        requires
            index != old(self).pos,
            index < old(heap)@.len(),
            old(self).pos < old(heap)@.len(),
        ensures
            final(self).pos == index,
            final(self).elem == old(self).elem,
            final(heap)@ == old(heap)@.update(old(self).pos as int, old(heap)@[index as int]),
            final(heap).index_map() == old(heap).index_map().insert(
                old(heap)@[index as int].0,
                old(self).pos,
            ),
    {
        let moved = heap.data[index];
        heap.index.insert(moved.0, self.pos);
        heap.data.set(self.pos, moved);
        self.pos = index;
    }

    /// Of two positions, the one with the smaller value; the first on a tie.
    fn min(&self, heap: &IHeap, elem1: usize, elem2: usize) -> (least: usize)
        requires
            elem1 != self.pos,
            elem2 != self.pos,
            elem1 < heap@.len(),
            elem2 < heap@.len(),
        ensures
            least == (if heap@[elem1 as int].1 <= heap@[elem2 as int].1 {
                elem1
            } else {
                elem2
            }),
    {
        if self.get(heap, elem1).1 <= self.get(heap, elem2).1 {
            elem1
        } else {
            elem2
        }
    }

    /// Of the child at `left` and its right sibling, if that lies before
    /// `end`, the one with the smaller value; the left one on a tie.
    fn min_sibling(&self, heap: &IHeap, left: usize, end: usize) -> (least: usize)
        requires
            left < end <= heap@.len(),
            left != self.pos,
            left + 1 != self.pos,
        ensures
            least == (if left + 1 < end && heap@[left + 1].1 < heap@[left as int].1 {
                (left + 1) as usize
            } else {
                left
            }),
    {
        let right = left + 1;
        if right >= end {
            return left;
        }
        self.min(heap, left, right)
    }

    /// Drops the lifted entry back into the hole and binds its key there.
    fn fill(self, heap: &mut IHeap)
        requires
            self.pos < old(heap)@.len(),
        ensures
            final(heap)@ == old(heap)@.update(self.pos as int, self.elem),
            final(heap).index_map() == old(heap).index_map().insert(self.elem.0, self.pos),
    {
        heap.data.set(self.pos, self.elem);
        heap.index.insert(self.elem.0, self.pos);
    }
}

impl IHeap {
    /// The array itself.
    pub closed spec fn array(self) -> Vec<Entry> {
        self.data
    }

    /// The table from key to position that the heap keeps beside its array.
    pub closed spec fn index_map(&self) -> Map<u64, usize> {
        index_contents(self.index)
    }

    /// The array is a min-heap and the table maps every key to its position.
    pub open spec fn wf(&self) -> bool {
        heap_ordered(self@) && indexed_by(self@, self.index_map())
    }

    /// Moves the entry at `pos` up while it is smaller than its parent, but
    /// not above `begin`. Returns where it came to rest.
    fn sift_up(&mut self, begin: usize, pos: usize) -> (rest: usize)
        requires
            pos < old(self)@.len(),
            ordered_except_up(old(self)@, pos as int, old(self)@.len() as int),
            indexed_by(old(self)@, old(self).index_map().insert(old(self)@[pos as int].0, pos)),
        ensures
            final(self)@.len() == old(self)@.len(),
            final(self)@.to_multiset() == old(self)@.to_multiset(),
            indexed_by(final(self)@, final(self).index_map()),
            begin == 0 ==> heap_ordered(final(self)@),
            rest <= pos,
            final(self)@[rest as int] == old(self)@[pos as int],
            final(self)@ == sift_up_spec(old(self)@, begin as int, pos as int),
    {
        let ghost orig = self@;
        let mut hole = Hole::new(self, pos);
        assert(self@.update(pos as int, hole.elem) =~= self@);
        while hole.pos() > begin
            invariant
                self@.len() == orig.len(),
                hole.pos < self@.len(),
                hole.pos <= pos,
                hole.elem == orig[pos as int],
                self@.update(hole.pos as int, hole.elem).to_multiset() == orig.to_multiset(),
                indexed_by(
                    self@.update(hole.pos as int, hole.elem),
                    self.index_map().insert(hole.elem.0, hole.pos),
                ),
                ordered_except_up(
                    self@.update(hole.pos as int, hole.elem),
                    hole.pos as int,
                    self@.len() as int,
                ),
                sift_up_spec(self@.update(hole.pos as int, hole.elem), begin as int, hole.pos as int)
                    == sift_up_spec(orig, begin as int, pos as int),
            ensures
                self@.len() == orig.len(),
                hole.pos < self@.len(),
                hole.pos <= pos,
                hole.elem == orig[pos as int],
                self@.update(hole.pos as int, hole.elem).to_multiset() == orig.to_multiset(),
                indexed_by(
                    self@.update(hole.pos as int, hole.elem),
                    self.index_map().insert(hole.elem.0, hole.pos),
                ),
                begin == 0 ==> heap_ordered(self@.update(hole.pos as int, hole.elem)),
                sift_up_spec(self@.update(hole.pos as int, hole.elem), begin as int, hole.pos as int)
                    == sift_up_spec(orig, begin as int, pos as int),
                hole.pos <= begin || hole.elem.1 >= self@[parent(hole.pos as int)].1,
            decreases hole.pos,
        {
            let up = (hole.pos() - 1) / 2;
            let ghost f = self@.update(hole.pos as int, hole.elem);
            if hole.element().1 >= hole.get(self, up).1 {
                proof {
                    lemma_settled_up(f, hole.pos as int, f.len() as int);
                }
                break ;
            }
            proof {
                lemma_swap_keeps_bags(f, hole.pos as int, up as int);
                lemma_step_up(f, hole.pos as int, f.len() as int);
                lemma_move_keeps_index(f, self.index_map(), hole.pos, up);
            }
            let ghost before = hole.pos;
            hole.move_to(self, up);
            proof {
                assert(self@.update(hole.pos as int, hole.elem) =~= swapped(
                    f,
                    before as int,
                    up as int,
                ));
            }
        }
        proof {
            if begin == 0 && hole.pos == 0 {
                lemma_settled_up(
                    self@.update(hole.pos as int, hole.elem),
                    hole.pos as int,
                    self@.len() as int,
                );
            }
        }
        let rest = hole.pos();
        hole.fill(self);
        rest
    }

    /// Moves the entry at `pos` down, within the first `end` entries, while
    /// it is larger than its smaller child. Returns where it came to rest.
    fn sift_down(&mut self, pos: usize, end: usize) -> (rest: usize)
        requires
            pos < end <= old(self)@.len(),
            ordered_except_down(old(self)@, pos as int, end as int),
            indexed_by(old(self)@, old(self).index_map().insert(old(self)@[pos as int].0, pos)),
        ensures
            final(self)@.len() == old(self)@.len(),
            final(self)@.to_multiset() == old(self)@.to_multiset(),
            indexed_by(final(self)@, final(self).index_map()),
            heap_ordered_upto(final(self)@, end as int),
            forall|i: int| end <= i < final(self)@.len() ==> final(self)@[i] == old(self)@[i],
            pos <= rest < end,
            final(self)@[rest as int] == old(self)@[pos as int],
            final(self)@ == sift_down_spec(old(self)@, pos as int, end as int),
    {
        let ghost orig = self@;
        let mut hole = Hole::new(self, pos);
        assert(self@.update(pos as int, hole.elem) =~= self@);
        while hole.pos() < end / 2
            invariant
                self@.len() == orig.len(),
                end <= self@.len(),
                pos <= hole.pos < end,
                hole.elem == orig[pos as int],
                self@.update(hole.pos as int, hole.elem).to_multiset() == orig.to_multiset(),
                indexed_by(
                    self@.update(hole.pos as int, hole.elem),
                    self.index_map().insert(hole.elem.0, hole.pos),
                ),
                ordered_except_down(
                    self@.update(hole.pos as int, hole.elem),
                    hole.pos as int,
                    end as int,
                ),
                forall|i: int| end <= i < self@.len() ==> self@[i] == orig[i],
                sift_down_spec(self@.update(hole.pos as int, hole.elem), hole.pos as int, end as int)
                    == sift_down_spec(orig, pos as int, end as int),
            ensures
                self@.len() == orig.len(),
                end <= self@.len(),
                pos <= hole.pos < end,
                hole.elem == orig[pos as int],
                self@.update(hole.pos as int, hole.elem).to_multiset() == orig.to_multiset(),
                indexed_by(
                    self@.update(hole.pos as int, hole.elem),
                    self.index_map().insert(hole.elem.0, hole.pos),
                ),
                heap_ordered_upto(self@.update(hole.pos as int, hole.elem), end as int),
                forall|i: int| end <= i < self@.len() ==> self@[i] == orig[i],
                sift_down_spec(self@.update(hole.pos as int, hole.elem), hole.pos as int, end as int)
                    == sift_down_spec(orig, pos as int, end as int),
                2 * hole.pos + 1 >= end || hole.elem.1 <= self@[smaller_child(
                    self@,
                    hole.pos as int,
                    end as int,
                )].1,
            decreases end - hole.pos,
        {
            let left = 2 * hole.pos() + 1;
            let child = hole.min_sibling(self, left, end);
            let ghost f = self@.update(hole.pos as int, hole.elem);
            if hole.element().1 <= hole.get(self, child).1 {
                proof {
                    let h = hole.pos as int;
                    assert forall|i: int| 0 < i < end && parent(i) == hole.pos implies f[h].1 <= (
                    #[trigger] f[i]).1 by {
                        assert(i == left || i == left + 1);
                    }
                    lemma_settled_down(f, hole.pos as int, end as int);
                }
                break ;
            }
            proof {
                assert forall|i: int| 0 < i < end && parent(i) == hole.pos implies f[child as int].1
                    <= (#[trigger] f[i]).1 by {
                    assert(i == left || i == left + 1);
                }
                lemma_swap_keeps_bags(f, hole.pos as int, child as int);
                lemma_step_down(f, hole.pos as int, child as int, end as int);
                lemma_move_keeps_index(f, self.index_map(), hole.pos, child);
            }
            let ghost before = hole.pos;
            hole.move_to(self, child);
            proof {
                assert(self@.update(hole.pos as int, hole.elem) =~= swapped(
                    f,
                    before as int,
                    child as int,
                ));
            }
        }
        proof {
            let f = self@.update(hole.pos as int, hole.elem);
            let h = hole.pos as int;
            if hole.pos >= end / 2 {
                assert forall|i: int| 0 < i < end && parent(i) == hole.pos implies f[h].1 <= (
                #[trigger] f[i]).1 by {
                    assert(i >= 2 * hole.pos + 1);
                }
                lemma_settled_down(f, hole.pos as int, end as int);
            }
        }
        let rest = hole.pos();
        hole.fill(self);
        rest
    }

    /// An empty heap.
    #[must_use]
    pub fn new() -> (heap: IHeap)
        ensures
            heap.wf(),
            heap@.len() == 0,
    {
        IHeap { index: KeyIndex::new(), data: Vec::new() }
    }

    /// An empty heap with room set aside for `capacity` entries, in the
    /// array and in the table; or the reason why that room could not be had.
    /// No room is always had.
    pub fn with_capacity(capacity: usize) -> (made: Result<IHeap, Exhausted>)
        ensures
            capacity == 0 ==> made.is_ok(),
            made.is_ok() ==> made.unwrap().wf() && made.unwrap()@ == Seq::<Entry>::empty(),
    {
        let data = match vec_with_room(capacity) {
            Ok(data) => data,
            Err(e) => {
                return Err(e);
            },
        };
        let index = match KeyIndex::with_room(capacity) {
            Ok(index) => index,
            Err(e) => {
                return Err(e);
            },
        };
        Ok(IHeap { index, data })
    }

    /// Removes and returns the entry at the root, which has the least value;
    /// `None` if the heap is empty.
    pub fn pop(&mut self) -> (popped: Option<Entry>)
        requires
            old(self).wf(),
        ensures
            final(self).wf(),
            final(self)@ == pop_spec(old(self)@),
            pop_step(old(self)@, final(self)@, popped),
    {
        if self.is_empty() {
            None
        } else {
            self.remove(0)
        }
    }

    /// Adds `item`, whose key is not yet in the heap.
    pub fn push(&mut self, item: Entry)
        requires
            old(self).wf(),
            !has_key(old(self)@, item.0),
        ensures
            final(self).wf(),
            final(self)@ == push_spec(old(self)@, item),
            final(self)@.len() == old(self)@.len() + 1,
            final(self)@.to_multiset() == old(self)@.to_multiset().insert(item),
    {
        let pos = self.data.len();
        proof {
            lemma_push_last(self@, self.index_map(), item, pos);
        }
        self.index.insert(item.0, pos);
        self.data.push(item);
        proof {
            lemma_index_fresh(self@, self.index_map(), pos);
        }
        self.sift_up(0, pos);
    }

    /// The position of the entry with key `key`, if there is one.
    pub fn get(&self, key: &u64) -> (found: Option<&usize>)
        requires
            self.wf(),
        ensures
            match found {
                Some(pos) => *pos < self@.len() && self@[*pos as int].0 == *key,
                None => !has_key(self@, *key),
            },
    {
        self.index.get(key)
    }

    /// Removes and returns the entry at position `pos`; the last entry takes
    /// its place and is moved to where it belongs.
    pub fn remove(&mut self, pos: usize) -> (removed: Option<Entry>)
        requires
            old(self).wf(),
            pos < old(self)@.len(),
        ensures
            final(self).wf(),
            removed == Some(old(self)@[pos as int]),
            final(self)@ == remove_spec(old(self)@, pos as int),
            final(self)@.len() == old(self)@.len() - 1,
            final(self)@.to_multiset() == old(self)@.to_multiset().remove(old(self)@[pos as int]),
    {
        let ghost orig = self@;
        let end = self.data.len() - 1;
        let last = self.data[end];
        proof {
            lemma_drop_last(orig, self.index_map());
            lemma_indexed_keys_distinct(orig, self.index_map());
        }
        self.data.pop();
        self.index.remove(&last.0);
        assert(self@ =~= orig.drop_last());
        if pos < end {
            proof {
                if has_key(self@, last.0) {
                    let i = choose|i: int| 0 <= i < self@.len() && (#[trigger] self@[i]).0 == last.0;
                    assert(orig[i].0 == orig[end as int].0);
                }
            }
            let removed = self.replace(pos, last);
            proof {
                to_multiset_contains(orig, last);
                assert(orig[end as int] == last);
                assert(orig.contains(last));
                assert(orig.drop_last()[pos as int] == orig[pos as int]);
                assert(self@.to_multiset() =~= orig.to_multiset().remove(orig[pos as int]));
            }
            Some(removed)
        } else {
            Some(last)
        }
    }

    /// Gives the entry at position `pos` the value `new_value` and moves it
    /// to where it belongs.
    pub fn update(&mut self, pos: usize, new_value: u64)
        requires
            old(self).wf(),
            pos < old(self)@.len(),
        ensures
            final(self).wf(),
            final(self)@ == update_spec(old(self)@, pos as int, new_value),
            update_step(old(self)@, final(self)@, pos as int, new_value),
    {
        let ghost orig = self@;
        let (key, value) = self.data[pos];
        proof {
            lemma_update_bags(orig, pos as int, new_value);
            assert(has_key(orig, key) ==> orig[pos as int].0 == key);
            lemma_overwrite(orig, self.index_map(), pos, (key, new_value));
            lemma_index_fresh(orig, self.index_map(), pos);
            assert(self.index_map().remove(key).insert(key, pos) =~= self.index_map());
        }
        self.data.set(pos, (key, new_value));
        proof {
            assert(self@.update(pos as int, (key, value)) =~= orig);
        }
        let ghost mid = self@;
        self.resettle(pos, value);
        proof {
            lemma_value_bag_of_permutation(self@, mid);
        }
    }

    /// Puts `item` at position `pos` in place of the entry there, moves it
    /// to where it belongs, and returns the entry it replaced. The key of
    /// `item` is not in the heap, unless it is the key of the entry replaced.
    pub fn replace(&mut self, pos: usize, item: Entry) -> (replaced: Entry)
        requires
            old(self).wf(),
            pos < old(self)@.len(),
            has_key(old(self)@, item.0) ==> old(self)@[pos as int].0 == item.0,
        ensures
            final(self).wf(),
            replaced == old(self)@[pos as int],
            final(self)@ == replace_spec(old(self)@, pos as int, item),
            final(self)@.len() == old(self)@.len(),
            final(self)@.to_multiset() == old(self)@.to_multiset().insert(item).remove(
                old(self)@[pos as int],
            ),
    {
        let ghost orig = self@;
        let replaced = self.data[pos];
        proof {
            lemma_overwrite(orig, self.index_map(), pos, item);
            lemma_rekeyed(orig, pos as int, item.0);
        }
        self.index.remove(&replaced.0);
        self.data.set(pos, item);
        self.index.insert(item.0, pos);
        proof {
            assert(self@.update(pos as int, (item.0, replaced.1)) =~= orig.update(
                pos as int,
                (item.0, replaced.1),
            ));
        }
        self.resettle(pos, replaced.1);
        replaced
    }

    /// Moves the entry at `pos`, whose value was `was` when the array was
    /// last in order, up or down to where it belongs now.
    fn resettle(&mut self, pos: usize, was: u64)
        requires
            pos < old(self)@.len(),
            indexed_by(old(self)@, old(self).index_map()),
            heap_ordered(old(self)@.update(pos as int, (old(self)@[pos as int].0, was))),
        ensures
            final(self).wf(),
            final(self)@ == resettle_spec(old(self)@, pos as int, was),
            final(self)@.len() == old(self)@.len(),
            final(self)@.to_multiset() == old(self)@.to_multiset(),
    {
        let now = self.data[pos].1;
        proof {
            lemma_index_fresh(self@, self.index_map(), pos);
        }
        if was < now {
            proof {
                lemma_raised(self@, pos as int, was);
            }
            self.sift_down(pos, self.data.len());
        } else if was > now {
            proof {
                lemma_lowered(self@, pos as int, was);
            }
            self.sift_up(0, pos);
        } else {
            proof {
                assert(self@.update(pos as int, (self@[pos as int].0, was)) =~= self@);
            }
        }
    }

    /// The entry at the root, which has the least value, without removing it.
    pub fn peek(&self) -> (root: Option<&Entry>)
        ensures
            root == (if self@.len() > 0 {
                Some(&self@[0])
            } else {
                None
            }),
    {
        if self.data.len() > 0 {
            Some(&self.data[0])
        } else {
            None
        }
    }

    /// The number of entries the array has room for.
    pub fn capacity(&self) -> (room: usize)
        ensures
            room >= self@.len(),
    {
        array_capacity(&self.data)
    }

    /// Asks for room in the array so that `additional` more entries fit
    /// without another allocation, and says why where it could not be had.
    /// The entries stay as they are either way. No room is always had.
    pub fn reserve(&mut self, additional: usize) -> (outcome: Result<(), Exhausted>)
        ensures
            final(self)@ == old(self)@,
            final(self).index_map() == old(self).index_map(),
            additional == 0 ==> outcome.is_ok(),
    {
        if additional == 0 {
            return Ok(());
        }
        let reserved = self.data.try_reserve(additional);
        room_had(reserved)
    }

    /// The entries in array order, root first.
    pub fn as_slice(&self) -> (entries: &[Entry])
        ensures
            entries@ == self@,
    {
        self.data.as_slice()
    }

    /// Gives up the heap for its array.
    #[must_use]
    pub fn into_vec(self) -> (entries: Vec<Entry>)
        ensures
            entries == self.array(),
            entries@ == self@,
    {
        self.into()
    }

    /// The number of entries.
    pub fn len(&self) -> (n: usize)
        ensures
            n == self@.len(),
    {
        self.data.len()
    }

    pub fn is_empty(&self) -> (empty: bool)
        ensures
            empty == (self@.len() == 0),
    {
        self.len() == 0
    }

    /// The entries in array order, root first.
    pub fn data(&self) -> (entries: &[Entry])
        ensures
            entries@ == self@,
    {
        self.data.as_slice()
    }
}

impl From<IHeap> for Vec<Entry> {
    /// Gives up the heap for its array, without moving any entry.
    fn from(heap: IHeap) -> (entries: Vec<Entry>) {
        heap.data
    }
}

impl FromSpecImpl<IHeap> for Vec<Entry> {
    open spec fn obeys_from_spec() -> bool {
        true
    }

    open spec fn from_spec(heap: IHeap) -> Vec<Entry> {
        heap.array()
    }
}

} // verus!
