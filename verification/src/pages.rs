//! The argument block of the vectorised page-move call: the addresses of the
//! base pages of one huge page, the node each should go to, and the status
//! that came back for each.

use crate::helper::{Pid, NUMA_NO_NODE, PAGE_SIZE};
use vstd::prelude::*;

verus! {

/// What an argument block holds.
pub struct ArgsView {
    /// The process whose pages are meant.
    pub pid: Pid,
    /// Base-page addresses.
    pub pages: Seq<u64>,
    /// The node wanted for each page.
    pub nodes: Seq<i32>,
    /// The node each page was last reported on, or a negative error.
    pub status: Seq<i32>,
}

/// The addresses of `len` consecutive base pages from `address` on.
pub open spec fn page_run(address: u64, len: nat) -> Seq<u64> {
    Seq::new(len, |i: int| (address + PAGE_SIZE * i) as u64)
}

/// The status array after the kernel has reported on the first `len` pages:
/// what it reported for those, where it reported anything, and "no node" for
/// the rest.
pub open spec fn reported(observed: Seq<i32>, len: nat, total: nat) -> Seq<i32> {
    Seq::new(
        total,
        |i: int|
            if i < len && i < observed.len() {
                observed[i]
            } else {
                NUMA_NO_NODE
            },
    )
}

/// How many of the first `n` entries of `status` are `node`.
pub open spec fn count_upto(status: Seq<i32>, node: i32, n: int) -> nat
    decreases n,
{
    if n <= 0 {
        0
    } else {
        count_upto(status, node, n - 1) + if status[n - 1] == node {
            1nat
        } else {
            0nat
        }
    }
}

/// How many of the first `n` entries of `status` `holds` is true of.
pub open spec fn held_upto(status: Seq<i32>, holds: spec_fn(i32) -> bool, n: int) -> nat
    decreases n,
{
    if n <= 0 {
        0
    } else {
        held_upto(status, holds, n - 1) + if holds(status[n - 1]) {
            1nat
        } else {
            0nat
        }
    }
}

/// How many entries of `status` are `node`.
pub open spec fn count_of(status: Seq<i32>, node: i32) -> nat {
    count_upto(status, node, status.len() as int)
}

/// A page reported on a valid node other than the one wanted has to move.
pub open spec fn needs_move(status: i32, node: i32) -> bool {
    status >= 0 && status != node
}

/// How many of the first `n` pages have to move.
pub open spec fn todo_upto(status: Seq<i32>, nodes: Seq<i32>, n: int) -> nat
    decreases n,
{
    if n <= 0 {
        0
    } else {
        todo_upto(status, nodes, n - 1) + if needs_move(status[n - 1], nodes[n - 1]) {
            1nat
        } else {
            0nat
        }
    }
}

/// The pages after the first `n` have been gone through: each one that has
/// to move has changed places with the page behind those found so far.
pub open spec fn compacted_upto(pages: Seq<u64>, status: Seq<i32>, nodes: Seq<i32>, n: int) -> Seq<
    u64,
>
    decreases n,
{
    if n <= 0 {
        pages
    } else {
        let before = compacted_upto(pages, status, nodes, n - 1);
        if needs_move(status[n - 1], nodes[n - 1]) {
            let next = todo_upto(status, nodes, n - 1) as int;
            before.update(n - 1, before[next]).update(next, before[n - 1])
        } else {
            before
        }
    }
}

/// The pages among the first `n` that have to move, in their order.
pub open spec fn movers_upto(pages: Seq<u64>, status: Seq<i32>, nodes: Seq<i32>, n: int) -> Seq<
    u64,
>
    decreases n,
{
    if n <= 0 {
        Seq::empty()
    } else {
        let before = movers_upto(pages, status, nodes, n - 1);
        if needs_move(status[n - 1], nodes[n - 1]) {
            before.push(pages[n - 1])
        } else {
            before
        }
    }
}

/// The block after `consolidate_left`: the pages that have to move stand at
/// the front, and their status is reset to "no node".
pub open spec fn consolidated(v: ArgsView) -> ArgsView {
    let todo = todo_upto(v.status, v.nodes, v.pages.len() as int);
    ArgsView {
        pid: v.pid,
        pages: compacted_upto(v.pages, v.status, v.nodes, v.pages.len() as int),
        nodes: v.nodes,
        status: Seq::new(
            v.status.len(),
            |i: int|
                if i < todo {
                    NUMA_NO_NODE
                } else {
                    v.status[i]
                },
        ),
    }
}

/// Going through the first `n` pages leaves the pages that have to move at
/// the front, in their order, keeps every page, and leaves the pages from
/// `n` on where they were.
pub proof fn lemma_compacted(pages: Seq<u64>, status: Seq<i32>, nodes: Seq<i32>, n: int)
    requires
        0 <= n <= pages.len(),
        status.len() == pages.len(),
        nodes.len() == pages.len(),
    ensures
        ({
            let after = compacted_upto(pages, status, nodes, n);
            let todo = todo_upto(status, nodes, n);
            &&& after.len() == pages.len()
            &&& todo <= n
            &&& todo == movers_upto(pages, status, nodes, n).len()
            &&& after.take(todo as int) == movers_upto(pages, status, nodes, n)
            &&& after.to_multiset() == pages.to_multiset()
            &&& forall|j: int| n <= j < pages.len() ==> after[j] == pages[j]
        }),
    decreases n,
{
    if n > 0 {
        lemma_compacted(pages, status, nodes, n - 1);
        let before = compacted_upto(pages, status, nodes, n - 1);
        let next = todo_upto(status, nodes, n - 1) as int;
        let after = compacted_upto(pages, status, nodes, n);
        if needs_move(status[n - 1], nodes[n - 1]) {
            vstd::seq_lib::to_multiset_update(before, n - 1, before[next]);
            vstd::seq_lib::to_multiset_update(before.update(n - 1, before[next]), next, before[n - 1]);
            vstd::seq_lib::to_multiset_contains(before, before[next]);
            vstd::seq_lib::to_multiset_contains(before, before[n - 1]);
            assert(before.contains(before[next]));
            assert(before.contains(before[n - 1]));
            assert(after.to_multiset() =~= before.to_multiset());
            assert(after.take(next + 1) =~= before.take(next).push(pages[n - 1]));
        } else {
            assert(after.take(next) =~= before.take(next));
        }
    } else {
        assert(pages.take(0) =~= Seq::<u64>::empty());
    }
}

/// Where every one of the first `n` pages has to move, all `n` are counted
/// and no page changes its place.
pub proof fn lemma_all_move(pages: Seq<u64>, status: Seq<i32>, nodes: Seq<i32>, n: int)
    requires
        0 <= n <= pages.len(),
        status.len() == pages.len(),
        nodes.len() == pages.len(),
        forall|i: int| 0 <= i < n ==> needs_move(#[trigger] status[i], nodes[i]),
    ensures
        todo_upto(status, nodes, n) == n,
        compacted_upto(pages, status, nodes, n) == pages,
    decreases n,
{
    if n > 0 {
        lemma_all_move(pages, status, nodes, n - 1);
        assert(needs_move(status[n - 1], nodes[n - 1]));
        assert(pages.update(n - 1, pages[n - 1]).update(n - 1, pages[n - 1]) =~= pages);
    }
}

/// Where each of the first `n` entries is `node`, all `n` are counted.
pub proof fn lemma_count_all(status: Seq<i32>, node: i32, n: int)
    requires
        0 <= n <= status.len(),
        forall|i: int| 0 <= i < n ==> #[trigger] status[i] == node,
    ensures
        count_upto(status, node, n) == n,
    decreases n,
{
    if n > 0 {
        lemma_count_all(status, node, n - 1);
        assert(status[n - 1] == node);
    }
}

/// The argument block for moving the `LEN` base pages of one huge page.
pub struct MovePagesArgs<const LEN: usize> {
    pid: Pid,
    pages: Vec<u64>,
    nodes: Vec<i32>,
    status: Vec<i32>,
}

impl<const LEN: usize> View for MovePagesArgs<LEN> {
    type V = ArgsView;

    closed spec fn view(&self) -> ArgsView {
        ArgsView { pid: self.pid, pages: self.pages@, nodes: self.nodes@, status: self.status@ }
    }
}

impl<const LEN: usize> MovePagesArgs<LEN> {
    /// Each of the three arrays has `LEN` entries.
    pub open spec fn wf(&self) -> bool {
        &&& self@.pages.len() == LEN
        &&& self@.nodes.len() == LEN
        &&& self@.status.len() == LEN
    }

    /// A block for process `pid` whose pages are all wanted on `target_node`.
    pub fn new(pid: Pid, target_node: i32) -> (args: Self)
        ensures
            args.wf(),
            args@.pid == pid,
            args@.pages == Seq::new(LEN as nat, |i: int| 0u64),
            args@.nodes == Seq::new(LEN as nat, |i: int| target_node),
            args@.status == Seq::new(LEN as nat, |i: int| 0i32),
    {
        let mut pages: Vec<u64> = Vec::new();
        let mut nodes: Vec<i32> = Vec::new();
        let mut status: Vec<i32> = Vec::new();
        let mut i: usize = 0;
        while i < LEN
            invariant
                i <= LEN,
                pages@.len() == i,
                nodes@.len() == i,
                status@.len() == i,
                forall|j: int| 0 <= j < i ==> pages@[j] == 0,
                forall|j: int| 0 <= j < i ==> nodes@[j] == target_node,
                forall|j: int| 0 <= j < i ==> status@[j] == 0,
            decreases LEN - i,
        {
            pages.push(0);
            nodes.push(target_node);
            status.push(0);
            i += 1;
        }
        assert(pages@ =~= Seq::new(LEN as nat, |i: int| 0u64));
        assert(nodes@ =~= Seq::new(LEN as nat, |i: int| target_node));
        assert(status@ =~= Seq::new(LEN as nat, |i: int| 0i32));
        MovePagesArgs { pid, pages, nodes, status }
    }

    /// Points the block at the `LEN` base pages that start at `address`.
    pub fn base_address(&mut self, address: u64)
        requires
            old(self).wf(),
            address + PAGE_SIZE * LEN <= u64::MAX + PAGE_SIZE,
        ensures
            final(self).wf(),
            final(self)@ == (ArgsView { pages: page_run(address, LEN as nat), ..old(self)@ }),
    {
        let mut i: usize = 0;
        while i < LEN
            invariant
                i <= LEN,
                self.pages@.len() == LEN,
                self.nodes == old(self).nodes,
                self.status == old(self).status,
                self.pid == old(self).pid,
                address + PAGE_SIZE * LEN <= u64::MAX + PAGE_SIZE,
                forall|j: int| 0 <= j < i ==> self.pages@[j] == (address + PAGE_SIZE * j) as u64,
            decreases LEN - i,
        {
            assert(PAGE_SIZE * i <= PAGE_SIZE * (LEN - 1)) by (nonlinear_arith)
                requires
                    i < LEN,
            ;
            let offset = PAGE_SIZE * (i as u64);
            self.pages[i] = address + offset;
            i += 1;
        }
        assert(self.pages@ =~= page_run(address, LEN as nat));
    }

    /// Takes in what a status query reported: `ret` is what the call
    /// returned and `observed` the status it wrote for each page. A negative
    /// `ret` is handed back as the error.
    pub fn stat_pages(&mut self, ret: i32, observed: &[i32]) -> (outcome: Result<(), i32>)
        requires
            old(self).wf(),
        ensures
            final(self).wf(),
            final(self)@ == (ArgsView {
                status: reported(observed@, LEN as nat, LEN as nat),
                ..old(self)@
            }),
            outcome == (if ret < 0 {
                Err::<(), i32>(ret)
            } else {
                Ok::<(), i32>(())
            }),
    {
        self.take_status(LEN, observed);
        if ret < 0 {
            Err(ret)
        } else {
            Ok(())
        }
    }

    /// Sets the status of the first `len` pages to what was observed for
    /// them and that of all others to "no node".
    fn take_status(&mut self, len: usize, observed: &[i32])
        requires
            old(self).wf(),
            len <= LEN,
        ensures
            final(self).wf(),
            final(self)@ == (ArgsView {
                status: reported(observed@, len as nat, LEN as nat),
                ..old(self)@
            }),
    {
        let mut i: usize = 0;
        while i < LEN
            invariant
                i <= LEN,
                len <= LEN,
                self.status@.len() == LEN,
                self.pages == old(self).pages,
                self.nodes == old(self).nodes,
                self.pid == old(self).pid,
                forall|j: int|
                    0 <= j < i ==> self.status@[j] == reported(observed@, len as nat, LEN as nat)[j],
            decreases LEN - i,
        {
            if i < len && i < observed.len() {
                self.status[i] = observed[i];
            } else {
                self.status[i] = NUMA_NO_NODE;
            }
            i += 1;
        }
        assert(self.status@ =~= reported(observed@, len as nat, LEN as nat));
    }

    /// The number of pages whose status is `node`.
    pub fn count_node(&self, node: i32) -> (count: usize)
        requires
            self.wf(),
        ensures
            count == count_of(self@.status, node),
            count <= LEN,
    {
        let mut count: usize = 0;
        let mut i: usize = 0;
        while i < self.status.len()
            invariant
                i <= self.status@.len(),
                count == count_upto(self.status@, node, i as int),
                count <= i,
            decreases self.status@.len() - i,
        {
            if self.status[i] == node {
                count += 1;
            }
            i += 1;
        }
        count
    }

    /// The number of pages whose status `pred` holds of. `pred` has to give
    /// one answer for each status.
    pub fn count_status<P: Fn(i32) -> bool>(&self, pred: P) -> (count: usize)
        requires
            self.wf(),
            forall|s: i32| pred.requires((s,)),
            forall|s: i32, a: bool, b: bool|
                pred.ensures((s,), a) && pred.ensures((s,), b) ==> a == b,
        ensures
            count == held_upto(self@.status, |s: i32| pred.ensures((s,), true), LEN as int),
            count <= LEN,
    {
        let mut count: usize = 0;
        let mut i: usize = 0;
        while i < self.status.len()
            invariant
                i <= self.status@.len(),
                forall|s: i32| pred.requires((s,)),
                forall|s: i32, a: bool, b: bool|
                    pred.ensures((s,), a) && pred.ensures((s,), b) ==> a == b,
                count == held_upto(self.status@, |s: i32| pred.ensures((s,), true), i as int),
                count <= i,
            decreases self.status@.len() - i,
        {
            if pred(self.status[i]) {
                count += 1;
            }
            i += 1;
        }
        count
    }

    /// Brings the pages that have to move, those reported on a valid node
    /// other than the one wanted, to the front, resets their status, and
    /// returns how many they are.
    pub fn consolidate_left(&mut self) -> (todo: usize)
        requires
            old(self).wf(),
        ensures
            final(self).wf(),
            final(self)@ == consolidated(old(self)@),
            todo == todo_upto(old(self)@.status, old(self)@.nodes, LEN as int),
            todo <= LEN,
            final(self)@.pages.take(todo as int) == movers_upto(
                old(self)@.pages,
                old(self)@.status,
                old(self)@.nodes,
                LEN as int,
            ),
            final(self)@.pages.to_multiset() == old(self)@.pages.to_multiset(),
    {
        let mut next: usize = 0;
        let mut i: usize = 0;
        while i < LEN
            invariant
                i <= LEN,
                next <= i,
                self.pages@.len() == LEN,
                self.nodes@.len() == LEN,
                self.status@.len() == LEN,
                self.nodes == old(self).nodes,
                self.status == old(self).status,
                self.pid == old(self).pid,
                next == todo_upto(self.status@, self.nodes@, i as int),
                self.pages@ == compacted_upto(old(self).pages@, self.status@, self.nodes@, i as int),
            decreases LEN - i,
        {
            let status = self.status[i];
            let node = self.nodes[i];
            if !(status < 0 || status == node) {
                let page = self.pages[i];
                let front = self.pages[next];
                self.pages[i] = front;
                self.pages[next] = page;
                next += 1;
            }
            i += 1;
        }
        let mut j: usize = 0;
        while j < next
            invariant
                j <= next <= LEN,
                self.status@.len() == LEN,
                self.pages@.len() == LEN,
                self.nodes == old(self).nodes,
                self.pid == old(self).pid,
                self.pages@ == compacted_upto(
                    old(self).pages@,
                    old(self).status@,
                    old(self).nodes@,
                    LEN as int,
                ),
                forall|n: int| 0 <= n < j ==> self.status@[n] == NUMA_NO_NODE,
                forall|n: int| j <= n < LEN ==> self.status@[n] == old(self).status@[n],
            decreases next - j,
        {
            self.status[j] = NUMA_NO_NODE;
            j += 1;
        }
        proof {
            assert(self@.status =~= consolidated(old(self)@).status);
            lemma_compacted(old(self)@.pages, old(self)@.status, old(self)@.nodes, LEN as int);
        }
        next
    }

    /// Takes in what a move of the first `len` pages reported: `ret` is what
    /// the call returned and `observed` the status it wrote for each page
    /// moved. A negative `ret` is handed back as the error.
    pub fn move_pages(&mut self, len: usize, ret: i32, observed: &[i32]) -> (outcome: Result<
        (),
        i32,
    >)
        requires
            old(self).wf(),
            len <= LEN,
        ensures
            final(self).wf(),
            final(self)@ == (ArgsView {
                status: reported(observed@, len as nat, LEN as nat),
                ..old(self)@
            }),
            outcome == (if ret < 0 {
                Err::<(), i32>(ret)
            } else {
                Ok::<(), i32>(())
            }),
    {
        self.take_status(len, observed);
        if ret < 0 {
            Err(ret)
        } else {
            Ok(())
        }
    }

    /// The process whose pages are meant.
    pub fn pid(&self) -> (pid: Pid)
        ensures
            pid == self@.pid,
    {
        self.pid
    }

    /// The page addresses.
    pub fn pages(&self) -> (pages: &[u64])
        ensures
            pages@ == self@.pages,
    {
        self.pages.as_slice()
    }

    /// The node wanted for each page.
    pub fn nodes(&self) -> (nodes: &[i32])
        ensures
            nodes@ == self@.nodes,
    {
        self.nodes.as_slice()
    }

    /// The status last taken in for each page.
    pub fn status(&self) -> (status: &[i32])
        ensures
            status@ == self@.status,
    {
        self.status.as_slice()
    }
}

} // verus!
