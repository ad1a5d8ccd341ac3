//! A streaming top-K sketch of access counts per key.
//!
//! A table of `d` rows by `w` columns of counters estimates how often each
//! key has been seen: a key owns one counter in every row, chosen by a hash
//! of the key seeded with the row, and its estimate is the least of them.
//! The `k` keys with the highest estimates are kept in an indexed min-heap.

use crate::hash::{fnv_fold, FnvHasher, FNV_OFFSET_BASIS};
use crate::helper::{vec_with_room, Exhausted};
use crate::iheap::{
    distinct_keys, has_key, heap_ordered, lemma_indexed_keys_distinct, push_spec, replace_spec,
    update_spec, Entry, IHeap,
};
use core::hash::Hasher;
use vstd::prelude::*;

verus! {

/// Byte `i` of `key`, counting from the least significant.
pub open spec fn key_byte(key: u64, i: int) -> u8 {
    ((key >> ((8 * i) as u64)) & 0xff) as u8
}

/// The eight bytes of `key`, least significant first.
pub open spec fn key_bytes(key: u64) -> Seq<u8> {
    Seq::new(8, |i: int| key_byte(key, i))
}

/// The hasher state that row `row` starts from.
pub open spec fn row_seed(row: int) -> u64 {
    FNV_OFFSET_BASIS ^ (row as u64)
}

/// The column of row `row` that holds the counter of `key`, in a table of
/// `w` columns.
pub open spec fn column(row: int, key: u64, w: nat) -> int {
    (fnv_fold(row_seed(row), key_bytes(key)) as int) % (w as int)
}

/// A counter after one more observation; it stops at the largest value.
pub open spec fn bump(c: u64) -> u64 {
    if c < u64::MAX {
        (c + 1) as u64
    } else {
        c
    }
}

/// The table after one observation of `key`: in every row the counter of
/// `key` has been bumped.
pub open spec fn bumped(table: Seq<Seq<u64>>, w: nat, key: u64) -> Seq<Seq<u64>> {
    Seq::new(
        table.len(),
        |r: int| table[r].update(column(r, key, w), bump(table[r][column(r, key, w)])),
    )
}

/// The least counter of `key` in the first `rows` rows; the largest value
/// if there are no rows.
pub open spec fn estimate_upto(table: Seq<Seq<u64>>, w: nat, key: u64, rows: int) -> u64
    decreases rows,
{
    if rows <= 0 {
        u64::MAX
    } else {
        let rest = estimate_upto(table, w, key, rows - 1);
        let here = table[rows - 1][column(rows - 1, key, w)];
        if here < rest {
            here
        } else {
            rest
        }
    }
}

/// The estimated count of `key`: the least of its counters.
pub open spec fn estimate(table: Seq<Seq<u64>>, w: nat, key: u64) -> u64 {
    estimate_upto(table, w, key, table.len() as int)
}

/// What a sketch holds.
pub struct SketchView {
    /// Number of columns.
    pub w: nat,
    /// Number of keys kept in the heap at most.
    pub k: nat,
    /// The counters, row by row.
    pub table: Seq<Seq<u64>>,
    /// The heap of heavy hitters in array order, root first.
    pub heap: Seq<Entry>,
}

/// The table has `w > 0` columns in every row, and the heap is a min-heap of
/// at most `k` entries.
pub open spec fn sketch_valid(v: SketchView) -> bool {
    &&& v.w > 0
    &&& forall|r: int| 0 <= r < v.table.len() ==> (#[trigger] v.table[r]).len() == v.w
    &&& heap_ordered(v.heap)
    &&& v.heap.len() <= v.k
}

/// A sketch of `d` rows, `w` columns and room for `k` heavy hitters that has
/// seen nothing yet.
pub open spec fn fresh_sketch(w: nat, d: nat, k: nat) -> SketchView {
    SketchView {
        w,
        k,
        table: Seq::new(d, |r: int| Seq::new(w, |c: int| 0u64)),
        heap: Seq::empty(),
    }
}

/// The entry of `s` with key `key`, where there is one.
pub open spec fn entry_of(s: Seq<Entry>, key: u64) -> Entry {
    s[choose|i: int| 0 <= i < s.len() && (#[trigger] s[i]).0 == key]
}

/// The position in `s` of the entry with key `key`, where there is one.
pub open spec fn position_of(s: Seq<Entry>, key: u64) -> int {
    choose|i: int| 0 <= i < s.len() && (#[trigger] s[i]).0 == key
}

/// Whether an observation of `key` with estimate `count` makes it one of the
/// at most `k` kept keys, and which key it pushes out.
pub open spec fn keep_report(heap: Seq<Entry>, k: nat, key: u64, count: u64) -> (bool, Option<u64>) {
    if has_key(heap, key) {
        (false, None)
    } else if heap.len() < k {
        (true, None)
    } else if heap.len() > 0 && count > heap[0].1 {
        (true, Some(heap[0].0))
    } else {
        (false, None)
    }
}

/// The heap after an observation of `key` with estimate `count`: a kept key
/// gets its new count; a new key is added while there is room; after that a
/// new key takes the place of the root if it beats it.
pub open spec fn keep_after(heap: Seq<Entry>, k: nat, key: u64, count: u64) -> Seq<Entry> {
    if has_key(heap, key) {
        update_spec(heap, position_of(heap, key), count)
    } else if heap.len() < k {
        push_spec(heap, (key, count))
    } else if heap.len() > 0 && count > heap[0].1 {
        replace_spec(heap, 0, (key, count))
    } else {
        heap
    }
}

/// What an observation of `key` with estimate `count` does to the entries
/// kept, whatever their order in the array.
pub open spec fn keep_step(
    pre: Seq<Entry>,
    k: nat,
    key: u64,
    count: u64,
    post: Seq<Entry>,
    hot: bool,
    evicted: Option<u64>,
) -> bool {
    &&& heap_ordered(post)
    &&& if has_key(pre, key) {
        &&& post.len() == pre.len()
        &&& post.to_multiset() == pre.to_multiset().insert((key, count)).remove(entry_of(pre, key))
        &&& !hot
        &&& evicted.is_none()
    } else if pre.len() < k {
        &&& post.len() == pre.len() + 1
        &&& post.to_multiset() == pre.to_multiset().insert((key, count))
        &&& hot
        &&& evicted.is_none()
    } else if pre.len() > 0 && count > pre[0].1 {
        &&& post.len() == pre.len()
        &&& post.to_multiset() == pre.to_multiset().insert((key, count)).remove(pre[0])
        &&& hot
        &&& evicted == Some(pre[0].0)
    } else {
        &&& post == pre
        &&& !hot
        &&& evicted.is_none()
    }
}

/// What `add` reports when it observes `key` in state `pre`: the new
/// estimate of `key`, whether `key` became one of the kept keys, and the key
/// it pushed out.
pub open spec fn sketch_report(pre: SketchView, key: u64) -> (u64, bool, Option<u64>) {
    let count = estimate(bumped(pre.table, pre.w, key), pre.w, key);
    let kept = keep_report(pre.heap, pre.k, key, count);
    (count, kept.0, kept.1)
}

/// The state that `add` leaves when it observes `key` in state `pre`.
pub open spec fn sketch_after(pre: SketchView, key: u64) -> SketchView {
    let table = bumped(pre.table, pre.w, key);
    let count = estimate(table, pre.w, key);
    SketchView { w: pre.w, k: pre.k, table, heap: keep_after(pre.heap, pre.k, key, count) }
}

/// What `add` does, whatever the order of the heap's array: observing `key`
/// in state `pre` leaves state `post` and reports `(estimate, is_hot,
/// evicted)`.
pub open spec fn add_step(
    pre: SketchView,
    key: u64,
    post: SketchView,
    report: (u64, bool, Option<u64>),
) -> bool {
    let table = bumped(pre.table, pre.w, key);
    let count = estimate(table, pre.w, key);
    &&& post.w == pre.w
    &&& post.k == pre.k
    &&& post.table == table
    &&& report.0 == count
    &&& keep_step(pre.heap, pre.k, key, count, post.heap, report.1, report.2)
}

/// A streaming top-K sketch over `u64` keys.
pub struct SDH {
    w: usize,
    k: usize,
    table: Vec<Vec<u64>>,
    heap: IHeap,
}

impl View for SDH {
    type V = SketchView;

    closed spec fn view(&self) -> SketchView {
        SketchView {
            w: self.w as nat,
            k: self.k as nat,
            table: Seq::new(self.table@.len(), |r: int| self.table@[r]@),
            heap: self.heap@,
        }
    }
}

/// The eight bytes of `key`, least significant first.
fn bytes_of(key: u64) -> (bytes: [u8; 8])
    ensures
        bytes@ == key_bytes(key),
{
    let mut bytes: [u8; 8] = [0;8];
    let mut i: usize = 0;
    while i < 8
        invariant
            i <= 8,
            forall|j: int| 0 <= j < i ==> bytes@[j] == key_byte(key, j),
        decreases 8 - i,
    {
        bytes[i] = ((key >> (8 * i as u64)) & 0xff) as u8;
        i += 1;
    }
    assert(bytes@ =~= key_bytes(key));
    bytes
}

/// The column of row `row` that holds the counter of `key`, in a table of
/// `w` columns.
pub fn column_of(row: usize, key: u64, w: usize) -> (col: usize)
    requires
        w > 0,
    ensures
        col == column(row as int, key, w as nat),
        col < w,
{
    let mut hasher = FnvHasher::with_key(FNV_OFFSET_BASIS ^ (row as u64));
    let bytes = bytes_of(key);
    hasher.write(bytes.as_slice());
    (hasher.finish() % (w as u64)) as usize
}

/// Files an observation of `key` with estimate `count` in a heap that keeps
/// at most `k` keys.
fn keep(heap: &mut IHeap, k: usize, key: u64, count: u64) -> (kept: (bool, Option<u64>))
    requires
        old(heap).wf(),
        old(heap)@.len() <= k,
    ensures
        final(heap).wf(),
        final(heap)@.len() <= k,
        kept == keep_report(old(heap)@, k as nat, key, count),
        final(heap)@ == keep_after(old(heap)@, k as nat, key, count),
        keep_step(old(heap)@, k as nat, key, count, final(heap)@, kept.0, kept.1),
{
    let ghost before = heap@;
    proof {
        lemma_indexed_keys_distinct(heap@, heap.index_map());
    }
    match heap.get(&key) {
        Some(pos) => {
            let pos = *pos;
            proof {
                lemma_entry_of(before, key, pos as int);
                assert(before[position_of(before, key)].0 == before[pos as int].0);
            }
            heap.update(pos, count);
            (false, None)
        },
        None => {
            if heap.len() < k {
                heap.push((key, count));
                (true, None)
            } else {
                let root = match heap.peek() {
                    Some(root) => *root,
                    None => { return (false, None); },
                };
                if count > root.1 {
                    let evicted = heap.replace(0, (key, count));
                    (true, Some(evicted.0))
                } else {
                    (false, None)
                }
            }
        },
    }
}

impl SDH {
    /// The heap and its index agree, and what the sketch holds is valid.
    pub open spec fn wf(&self) -> bool {
        self.heap_wf() && sketch_valid(self@)
    }

    /// The heap's index maps every key in the heap to its position.
    pub closed spec fn heap_wf(&self) -> bool {
        self.heap.wf()
    }

    /// A sketch of `d` rows by `w` columns that keeps the `k` heaviest keys,
    /// with all its counters at 0 and room for the `k` keys set aside; or the
    /// reason why the memory for it could not be had. A sketch without rows
    /// that keeps no key needs no memory and is always made.
    pub fn new(w: usize, d: usize, k: usize) -> (made: Result<SDH, Exhausted>)
        requires
            w > 0,
        ensures
            d == 0 && k == 0 ==> made.is_ok(),
            made.is_ok() ==> made.unwrap().wf() && made.unwrap()@ == fresh_sketch(
                w as nat,
                d as nat,
                k as nat,
            ),
    {
        let mut table: Vec<Vec<u64>> = match vec_with_room(d) {
            Ok(table) => table,
            Err(e) => {
                return Err(e);
            },
        };
        let mut r: usize = 0;
        while r < d
            invariant
                r <= d,
                table@.len() == r,
                forall|i: int| 0 <= i < r ==> (#[trigger] table@[i])@ == Seq::new(w as nat, |c: int| 0u64),
            decreases d - r,
        {
            let mut row: Vec<u64> = match vec_with_room(w) {
                Ok(row) => row,
                Err(e) => {
                    return Err(e);
                },
            };
            let mut c: usize = 0;
            while c < w
                invariant
                    c <= w,
                    row@.len() == c,
                    forall|j: int| 0 <= j < c ==> row@[j] == 0,
                decreases w - c,
            {
                row.push(0);
                c += 1;
            }
            assert(row@ =~= Seq::new(w as nat, |c: int| 0u64));
            table.push(row);
            r += 1;
        }
        let heap = match IHeap::with_capacity(k) {
            Ok(heap) => heap,
            Err(e) => {
                return Err(e);
            },
        };
        let sketch = Self::with_heap(w, k, table, heap);
        proof {
            assert(sketch@.table =~= fresh_sketch(w as nat, d as nat, k as nat).table);
            assert(sketch@.heap =~= Seq::<Entry>::empty());
        }
        Ok(sketch)
    }

    /// The sketch of `w` columns that keeps the `k` heaviest keys, made of
    /// the counters `table` and the heap `heap` of the keys kept so far.
    pub fn with_heap(w: usize, k: usize, table: Vec<Vec<u64>>, heap: IHeap) -> (sketch: SDH)
        requires
            w > 0,
            forall|r: int| 0 <= r < table@.len() ==> (#[trigger] table@[r])@.len() == w,
            heap.wf(),
            heap@.len() <= k,
        ensures
            sketch.wf(),
            sketch@ == (SketchView {
                w: w as nat,
                k: k as nat,
                table: Seq::new(table@.len(), |r: int| table@[r]@),
                heap: heap@,
            }),
    {
        SDH { w, k, table, heap }
    }

    /// Bumps the counter of `key` in every row and returns the least of
    /// them, the new estimate.
    fn observe(&mut self, key: u64) -> (count: u64)
        requires
            old(self).wf(),
        ensures
            final(self).wf(),
            final(self)@.w == old(self)@.w,
            final(self)@.k == old(self)@.k,
            final(self)@.heap == old(self)@.heap,
            final(self).heap == old(self).heap,
            final(self)@.table == bumped(old(self)@.table, old(self)@.w, key),
            count == estimate(final(self)@.table, old(self)@.w, key),
    {
        let ghost goal = bumped(old(self)@.table, self.w as nat, key);
        let mut count: u64 = u64::MAX;
        let mut row: usize = 0;
        proof {
            assert forall|r: int| 0 <= r < self.table@.len() implies (#[trigger] self.table@[r])@.len()
                == self.w by {
                assert(self@.table[r] == self.table@[r]@);
            }
        }
        while row < self.table.len()
            invariant
                row <= self.table@.len(),
                self.w == old(self).w,
                self.k == old(self).k,
                self.w > 0,
                self.heap == old(self).heap,
                self.table@.len() == old(self).table@.len(),
                goal == bumped(old(self)@.table, self.w as nat, key),
                forall|r: int| 0 <= r < row ==> (#[trigger] self.table@[r])@ == goal[r],
                forall|r: int|
                    row <= r < self.table@.len() ==> (#[trigger] self.table@[r])@ == old(
                        self,
                    ).table@[r]@,
                forall|r: int|
                    0 <= r < self.table@.len() ==> (#[trigger] old(self).table@[r])@.len() == self.w,
                count == estimate_upto(goal, self.w as nat, key, row as int),
            decreases self.table@.len() - row,
        {
            let col = column_of(row, key, self.w);
            assert(old(self).table@[row as int]@.len() == self.w);
            assert(old(self)@.table[row as int] == old(self).table@[row as int]@);
            let c = self.table[row][col].saturating_add(1);
            self.table[row][col] = c;
            if c < count {
                count = c;
            }
            row += 1;
        }
        proof {
            assert(self@.table =~= goal);
            lemma_bumped_keeps_shape(old(self)@.table, self.w as nat, key);
        }
        count
    }

    /// Files an observation of `key` with estimate `count` in the heap.
    fn file(&mut self, key: u64, count: u64) -> (kept: (bool, Option<u64>))
        requires
            old(self).wf(),
        ensures
            final(self).wf(),
            final(self)@ == (SketchView {
                heap: keep_after(old(self)@.heap, old(self)@.k, key, count),
                ..old(self)@
            }),
            kept == keep_report(old(self)@.heap, old(self)@.k, key, count),
            keep_step(
                old(self)@.heap,
                old(self)@.k,
                key,
                count,
                final(self)@.heap,
                kept.0,
                kept.1,
            ),
    {
        let kept = keep(&mut self.heap, self.k, key, count);
        proof {
            assert(self.table == old(self).table);
            assert(self@.table == old(self)@.table);
        }
        kept
    }

    /// Counts one observation of `key` and returns its estimated count,
    /// whether this observation made it one of the kept keys, and the key
    /// that it pushed out, if any.
    pub fn add(&mut self, key: u64) -> (report: (u64, bool, Option<u64>))
        requires
            old(self).wf(),
        ensures
            final(self).wf(),
            report == sketch_report(old(self)@, key),
            final(self)@ == sketch_after(old(self)@, key),
            add_step(old(self)@, key, final(self)@, report),
    {
        let count = self.observe(key);
        let kept = self.file(key, count);
        (count, kept.0, kept.1)
    }

    /// The estimated count of `key`: the least of its counters.
    pub fn estimate(&self, key: u64) -> (count: u64)
        requires
            self.wf(),
        ensures
            count == estimate(self@.table, self@.w, key),
    {
        let mut count: u64 = u64::MAX;
        let mut row: usize = 0;
        while row < self.table.len()
            invariant
                row <= self.table@.len(),
                self.wf(),
                count == estimate_upto(self@.table, self@.w, key, row as int),
            decreases self.table@.len() - row,
        {
            let col = column_of(row, key, self.w);
            assert(self@.table[row as int] == self.table@[row as int]@);
            let c = self.table[row][col];
            if c < count {
                count = c;
            }
            row += 1;
        }
        count
    }

    /// No key is kept twice.
    pub proof fn lemma_kept_keys_distinct(&self)
        requires
            self.wf(),
        ensures
            distinct_keys(self@.heap),
            self@.heap.len() <= self@.k,
    {
        lemma_indexed_keys_distinct(self.heap@, self.heap.index_map());
    }

    /// The kept keys with their counts, in heap order, root first.
    pub fn dump_topk(&self) -> (top: Vec<Entry>)
        ensures
            top@ == self@.heap,
    {
        let entries = self.heap.as_slice();
        let mut top: Vec<Entry> = Vec::with_capacity(entries.len());
        let mut i: usize = 0;
        while i < entries.len()
            invariant
                i <= entries@.len(),
                top@ == entries@.take(i as int),
            decreases entries@.len() - i,
        {
            top.push(entries[i]);
            assert(entries@.take(i + 1) =~= entries@.take(i as int).push(entries@[i as int]));
            i += 1;
        }
        assert(entries@.take(i as int) =~= entries@);
        top
    }
}

/// A key's column lies within the row.
pub proof fn lemma_column_in_range(row: int, key: u64, w: nat)
    requires
        w > 0,
    ensures
        0 <= column(row, key, w) < w,
{
    let h = fnv_fold(row_seed(row), key_bytes(key)) as int;
    assert(0 <= h % (w as int) < w) by (nonlinear_arith)
        requires
            h >= 0,
            w > 0,
    ;
}

/// Bumping the counters of a key changes neither the number of rows nor the
/// number of columns.
pub proof fn lemma_bumped_keeps_shape(table: Seq<Seq<u64>>, w: nat, key: u64)
    requires
        w > 0,
        forall|r: int| 0 <= r < table.len() ==> (#[trigger] table[r]).len() == w,
    ensures
        bumped(table, w, key).len() == table.len(),
        forall|r: int| 0 <= r < table.len() ==> (#[trigger] bumped(table, w, key)[r]).len() == w,
{
    assert forall|r: int| 0 <= r < table.len() implies (#[trigger] bumped(table, w, key)[r]).len()
        == w by {
        lemma_column_in_range(r, key, w);
    }
}

/// With distinct keys, the entry with key `key` is the one at the position
/// where that key is found.
pub proof fn lemma_entry_of(s: Seq<Entry>, key: u64, pos: int)
    requires
        distinct_keys(s),
        0 <= pos < s.len(),
        s[pos].0 == key,
    ensures
        entry_of(s, key) == s[pos],
        has_key(s, key),
{
    let i = choose|i: int| 0 <= i < s.len() && (#[trigger] s[i]).0 == key;
    assert(s[i].0 == s[pos].0);
}

/// Every counter of `key` has reached `floor`, or the largest value.
pub open spec fn counters_at_least(table: Seq<Seq<u64>>, w: nat, key: u64, floor: int) -> bool {
    forall|r: int|
        0 <= r < table.len() ==> {
            let c = (#[trigger] table[r])[column(r, key, w)];
            c >= floor || c == u64::MAX
        }
}

/// Every counter of `key` stands at `seen`.
pub open spec fn counters_exactly(table: Seq<Seq<u64>>, w: nat, key: u64, seen: int) -> bool {
    forall|r: int| 0 <= r < table.len() ==> (#[trigger] table[r])[column(r, key, w)] == seen
}

/// Where every counter of a key stands at the same count, that count is the
/// estimate of the key, if there is a row at all.
pub proof fn lemma_estimate_exact(table: Seq<Seq<u64>>, w: nat, key: u64, seen: int, rows: int)
    requires
        counters_exactly(table, w, key, seen),
        1 <= rows <= table.len(),
    ensures
        estimate_upto(table, w, key, rows) == seen,
    decreases rows,
{
    let c = table[rows - 1][column(rows - 1, key, w)];
    assert(c == seen);
    if rows > 1 {
        lemma_estimate_exact(table, w, key, seen, rows - 1);
    } else {
        assert(estimate_upto(table, w, key, 0) == u64::MAX);
    }
}

/// One more observation of a key whose counters all stand at one count
/// below the largest leaves them all one higher.
pub proof fn lemma_bumped_exact(table: Seq<Seq<u64>>, w: nat, key: u64, seen: int)
    requires
        w > 0,
        forall|r: int| 0 <= r < table.len() ==> (#[trigger] table[r]).len() == w,
        counters_exactly(table, w, key, seen),
        seen < u64::MAX,
    ensures
        counters_exactly(bumped(table, w, key), w, key, seen + 1),
{
    let after = bumped(table, w, key);
    assert forall|r: int| 0 <= r < after.len() implies (#[trigger] after[r])[column(r, key, w)]
        == seen + 1 by {
        lemma_column_in_range(r, key, w);
        assert(table[r].len() == w);
        assert(table[r][column(r, key, w)] == seen);
    }
}

/// The estimate of a key is not below a floor that all its counters have
/// reached.
pub proof fn lemma_estimate_floor(table: Seq<Seq<u64>>, w: nat, key: u64, floor: int, rows: int)
    requires
        counters_at_least(table, w, key, floor),
        0 <= rows <= table.len(),
    ensures
        estimate_upto(table, w, key, rows) >= floor || estimate_upto(table, w, key, rows)
            == u64::MAX,
    decreases rows,
{
    if rows > 0 {
        lemma_estimate_floor(table, w, key, floor, rows - 1);
        let c = table[rows - 1][column(rows - 1, key, w)];
        assert(c >= floor || c == u64::MAX);
    }
}

/// One more observation of a key raises the floor under its counters by one.
pub proof fn lemma_bumped_raises_floor(table: Seq<Seq<u64>>, w: nat, key: u64, floor: int)
    requires
        w > 0,
        forall|r: int| 0 <= r < table.len() ==> (#[trigger] table[r]).len() == w,
        counters_at_least(table, w, key, floor),
    ensures
        counters_at_least(bumped(table, w, key), w, key, floor + 1),
{
    let after = bumped(table, w, key);
    assert forall|r: int| 0 <= r < after.len() implies {
        let c = (#[trigger] after[r])[column(r, key, w)];
        c >= floor + 1 || c == u64::MAX
    } by {
        let col = column(r, key, w);
        lemma_column_in_range(r, key, w);
        assert(table[r].len() == w);
        let c = table[r][col];
        assert(c >= floor || c == u64::MAX);
        assert(after[r][col] == bump(c));
    }
}

/// After one observation of `key`, if `key` is kept at all it is kept with
/// the estimate just reported; and it is kept if it was kept before or there
/// was room.
pub proof fn lemma_add_keeps_counted_key(
    pre: SketchView,
    key: u64,
    post: SketchView,
    report: (u64, bool, Option<u64>),
)
    requires
        add_step(pre, key, post, report),
    ensures
        has_key(post.heap, key) ==> post.heap.contains((key, report.0)),
        has_key(pre.heap, key) || pre.heap.len() < pre.k ==> has_key(post.heap, key),
{
    let item = (key, report.0);
    vstd::seq_lib::to_multiset_contains(post.heap, item);
    if has_key(pre.heap, key) {
        let i = choose|i: int| 0 <= i < pre.heap.len() && (#[trigger] pre.heap[i]).0 == key;
        let was = entry_of(pre.heap, key);
        assert(pre.heap.contains(was));
        vstd::seq_lib::to_multiset_contains(pre.heap, was);
        assert(post.heap.to_multiset().count(item) > 0);
        let j = choose|j: int| 0 <= j < post.heap.len() && post.heap[j] == item;
        assert(post.heap[j].0 == key);
    } else if pre.heap.len() < pre.k {
        assert(post.heap.to_multiset().count(item) > 0);
        let j = choose|j: int| 0 <= j < post.heap.len() && post.heap[j] == item;
        assert(post.heap[j].0 == key);
    } else if pre.heap.len() > 0 && report.0 > pre.heap[0].1 {
        assert(pre.heap[0].0 != key);
        assert(post.heap.to_multiset().count(item) > 0);
    } else {
    }
}

/// What one observation of `key` does to the floor under its counters.
proof fn lemma_add_raises_floor(
    pre: SketchView,
    key: u64,
    post: SketchView,
    report: (u64, bool, Option<u64>),
    floor: int,
)
    requires
        add_step(pre, key, post, report),
        pre.w > 0,
        forall|r: int| 0 <= r < pre.table.len() ==> (#[trigger] pre.table[r]).len() == pre.w,
        counters_at_least(pre.table, pre.w, key, floor),
    ensures
        post.w == pre.w,
        forall|r: int| 0 <= r < post.table.len() ==> (#[trigger] post.table[r]).len() == post.w,
        counters_at_least(post.table, post.w, key, floor + 1),
        report.0 >= floor + 1 || report.0 == u64::MAX,
{
    lemma_bumped_keeps_shape(pre.table, pre.w, key);
    lemma_bumped_raises_floor(pre.table, pre.w, key, floor);
    lemma_estimate_floor(post.table, pre.w, key, floor + 1, post.table.len() as int);
}

/// `add_step`, kept folded while a run of steps is reasoned about.
#[verifier::opaque]
spec fn stepped(pre: SketchView, key: u64, post: SketchView, report: (u64, bool, Option<u64>)) -> bool {
    add_step(pre, key, post, report)
}

/// What holds after the first `n` of a run of observations of one key.
proof fn lemma_run_of_one_key(
    states: Seq<SketchView>,
    reports: Seq<(u64, bool, Option<u64>)>,
    key: u64,
    n: int,
)
    requires
        states.len() == reports.len() + 1,
        states[0].w > 0,
        forall|r: int|
            0 <= r < states[0].table.len() ==> (#[trigger] states[0].table[r]).len() == states[0].w,
        forall|i: int|
            0 <= i < reports.len() ==> stepped(#[trigger] states[i], key, states[i + 1], reports[i]),
        0 <= n <= reports.len(),
    ensures
        states[n].w == states[0].w,
        forall|r: int|
            0 <= r < states[n].table.len() ==> (#[trigger] states[n].table[r]).len() == states[n].w,
        counters_at_least(states[n].table, states[n].w, key, n),
        n > 0 ==> reports[n - 1].0 >= n || reports[n - 1].0 == u64::MAX,
        n > 0 && has_key(states[n].heap, key) ==> states[n].heap.contains((key, reports[n - 1].0)),
        n > 0 && (has_key(states[0].heap, key) || states[0].heap.len() < states[0].k) ==> has_key(
            states[n].heap,
            key,
        ),
    decreases n,
{
    if n > 0 {
        lemma_run_of_one_key(states, reports, key, n - 1);
        let pre = states[n - 1];
        let post = states[n];
        assert(stepped(pre, key, post, reports[n - 1]));
        assert(add_step(pre, key, post, reports[n - 1])) by {
            reveal(stepped);
        }
        lemma_add_raises_floor(pre, key, post, reports[n - 1], n - 1);
        lemma_add_keeps_counted_key(pre, key, post, reports[n - 1]);
    }
}

/// A key observed `m` times in a row, with no other key in between, has an
/// estimate of at least `m` (or the largest count there is). If it is kept
/// in the heap after that, it is kept with that estimate; and it is kept
/// whenever it was kept at the start or the heap had room then.
pub proof fn lemma_repeated_key_is_counted(
    states: Seq<SketchView>,
    reports: Seq<(u64, bool, Option<u64>)>,
    key: u64,
)
    requires
        reports.len() >= 1,
        states.len() == reports.len() + 1,
        sketch_valid(states[0]),
        forall|i: int|
            0 <= i < reports.len() ==> add_step(#[trigger] states[i], key, states[i + 1], reports[i]),
    ensures
        reports.last().0 >= reports.len() || reports.last().0 == u64::MAX,
        has_key(states.last().heap, key) ==> states.last().heap.contains((key, reports.last().0)),
        has_key(states[0].heap, key) || states[0].heap.len() < states[0].k ==> has_key(
            states.last().heap,
            key,
        ),
{
    assert forall|i: int| 0 <= i < reports.len() implies stepped(
        #[trigger] states[i],
        key,
        states[i + 1],
        reports[i],
    ) by {
        reveal(stepped);
    }
    lemma_run_of_one_key(states, reports, key, reports.len() as int);
}

/// In a run of observations from a fresh sketch the heap grows by at most
/// one key per observation.
proof fn lemma_heap_grows_slowly(
    states: Seq<SketchView>,
    keys: Seq<u64>,
    reports: Seq<(u64, bool, Option<u64>)>,
    n: int,
)
    requires
        states.len() == keys.len() + 1,
        reports.len() == keys.len(),
        states[0].heap.len() == 0,
        forall|i: int|
            0 <= i < keys.len() ==> add_step(
                #[trigger] states[i],
                keys[i],
                states[i + 1],
                reports[i],
            ),
        0 <= n <= keys.len(),
    ensures
        states[n].heap.len() <= n,
        states[n].k == states[0].k,
    decreases n,
{
    if n > 0 {
        lemma_heap_grows_slowly(states, keys, reports, n - 1);
        assert(add_step(states[n - 1], keys[n - 1], states[n], reports[n - 1]));
    }
}

/// From a fresh sketch that keeps `k` keys, none of the first `k`
/// observations pushes a key out, whatever the keys are. In particular no
/// key is pushed out when as many distinct keys are observed once each as
/// the sketch keeps.
pub proof fn lemma_no_eviction_while_room(
    states: Seq<SketchView>,
    keys: Seq<u64>,
    reports: Seq<(u64, bool, Option<u64>)>,
    n: int,
)
    requires
        states.len() == keys.len() + 1,
        reports.len() == keys.len(),
        states[0].heap.len() == 0,
        forall|i: int|
            0 <= i < keys.len() ==> add_step(
                #[trigger] states[i],
                keys[i],
                states[i + 1],
                reports[i],
            ),
        0 <= n < keys.len(),
        n < states[0].k,
    ensures
        reports[n].2.is_none(),
{
    lemma_heap_grows_slowly(states, keys, reports, n);
    assert(add_step(states[n], keys[n], states[n + 1], reports[n]));
}

} // verus!
