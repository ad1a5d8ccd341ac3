//! The migration worker as a state machine.
//!
//! One run of the worker promotes pending hot huge pages to the fast tier,
//! demoting others to make room, until nothing is pending, the slow tier is
//! full, or the bandwidth cap is reached. Whatever the worker needs from the
//! kernel (whether a node has space, where pages are, moving them, the time,
//! candidates for demotion) it asks for with an [`Action`]; the answer comes
//! back as an [`Event`], and the worker decides what to do next.

use crate::helper::{
    hpage_base, hpage_of, vec_with_room, Exhausted, Pid, BATCH_SIZE, HPAGE_PAGES, HPAGE_SIZE,
    PAGE_SIZE, THROTTLE_DELAY, THROTTLE_MBPS,
};
use crate::index::{set_contents, KeySet};
use crate::pages::{
    consolidated, count_of, lemma_all_move, lemma_count_all, needs_move, page_run, reported,
    todo_upto, ArgsView, MovePagesArgs,
};
use crate::spsc::Ring;
use vstd::prelude::*;

verus! {

/// Why a run was given up.
#[derive(Clone, Copy, Debug, PartialEq, Eq, Structural)]
pub enum Fault {
    /// A page query or page move returned this negative value.
    Kernel(i32),
    /// No candidate for demotion could be found.
    NoCandidate,
    /// After a move that succeeded, not every page moved was reported on
    /// the node it was sent to.
    StaleStatus,
    /// The clock was read before the time the worker was started at.
    ClockWentBack,
    /// The event does not answer what the worker last asked for.
    Unexpected,
}

/// What the worker asks to be done next.
#[derive(Clone, Copy, Debug, PartialEq, Eq, Structural)]
pub enum Action {
    /// Ask whether this node has free space; answer with `Event::Space`.
    AskSpace(i32),
    /// Query where the pages of the promotion block, or of the demotion
    /// block, are; answer with `Event::Status`.
    StatPages { demotion: bool },
    /// Move the first `len` pages of the promotion block, or of the demotion
    /// block, to the nodes named in it; answer with `Event::Status`.
    MovePages { demotion: bool, len: usize },
    /// Find this many resident huge pages of the process at random; answer
    /// with `Event::Candidates`.
    FindCandidates(usize),
    /// Read the clock; answer with `Event::Clock`.
    ReadClock,
    /// The bandwidth cap is reached: run the worker again after this many
    /// ticks. The run is over.
    Requeue(u64),
    /// The run is over.
    Done,
    /// The run is given up.
    Abort(Fault),
}

/// Where a run stands: what the worker has asked for and not yet heard.
#[derive(Clone, Copy, Debug, PartialEq, Eq, Structural)]
pub enum Phase {
    /// No run is under way.
    Idle,
    /// Whether the slow tier has space, before the next promotion is taken
    /// up.
    SlowSpace,
    /// Where the pages of `key` are, which is to be promoted.
    PromotionStat { key: u64 },
    /// Whether the fast tier has space for the `todo` pages of `key`.
    FastSpace { key: u64, todo: usize },
    /// Candidates for demotion, of which `needed` pages are still wanted.
    Candidates { key: u64, todo: usize, needed: usize },
    /// Where the pages of `candidate` are, which is to be demoted.
    DemotionStat { key: u64, todo: usize, needed: usize, candidate: u64 },
    /// The outcome of moving `moving` pages of `candidate` to the slow tier.
    DemotionMove { key: u64, todo: usize, needed: usize, candidate: u64, moving: usize },
    /// The outcome of moving the `todo` pages of `key` to the fast tier.
    PromotionMove { key: u64, todo: usize },
    /// The time, to hold the average bandwidth against the cap.
    Clock,
}

/// What the worker holds.
pub struct MigrationView {
    pub phase: Phase,
    /// Keys believed to be in the fast tier.
    pub dram: Set<u64>,
    /// Keys believed to be in the slow tier.
    pub pmem: Set<u64>,
    /// Keys waiting to be promoted; the last is taken up first.
    pub promotion_pending: Seq<u64>,
    /// Keys waiting to be demoted; the last is taken up first.
    pub demotion_pending: Seq<u64>,
    pub dram_node: i32,
    pub pmem_node: i32,
    pub promotion_args: ArgsView,
    pub demotion_args: ArgsView,
    /// Base pages moved since the worker was started.
    pub migrated_pages: u64,
    /// Clock reading, in nanoseconds, when the worker was started.
    pub start: u64,
    /// Base pages promoted in this run.
    pub promoted: u64,
    /// Base pages demoted in this run.
    pub demoted: u64,
}

/// `total` and `more` added up, stopping at the largest value.
pub open spec fn capped_sum(total: u64, more: nat) -> u64 {
    if total + more > u64::MAX {
        u64::MAX
    } else {
        (total + more) as u64
    }
}

/// Bandwidth in bytes per microsecond, which is megabytes per second, of
/// `pages` base pages moved in `elapsed` nanoseconds; the microsecond begun
/// counts as a whole one.
pub open spec fn speed_of(pages: u64, elapsed: u64) -> int {
    (pages * PAGE_SIZE) / (elapsed / 1000 + 1)
}

/// The block pointed at the huge page `key`.
pub open spec fn aimed(args: ArgsView, key: u64) -> ArgsView {
    ArgsView { pages: page_run(key, HPAGE_PAGES as nat), ..args }
}

/// The block after a status report on its first `len` pages.
pub open spec fn informed(args: ArgsView, observed: Seq<i32>, len: nat) -> ArgsView {
    ArgsView { status: reported(observed, len, HPAGE_PAGES as nat), ..args }
}

/// How many pages of the block have to move.
pub open spec fn todo_of(args: ArgsView) -> nat {
    todo_upto(args.status, args.nodes, HPAGE_PAGES as int)
}

/// The run stops where it is and is given up for `fault`.
pub open spec fn given_up(v: MigrationView, fault: Fault) -> (MigrationView, Action) {
    (MigrationView { phase: Phase::Idle, ..v }, Action::Abort(fault))
}

/// The answer to "has the slow tier space": with space and something
/// pending, the next promotion is taken up, unless it is believed to be in
/// the fast tier already; else the run is over.
pub open spec fn next_promotion(v: MigrationView, has_space: bool) -> (MigrationView, Action) {
    if !has_space || v.promotion_pending.len() == 0 {
        (MigrationView { phase: Phase::Idle, ..v }, Action::Done)
    } else {
        let key = hpage_of(v.promotion_pending.last());
        let rest = v.promotion_pending.drop_last();
        if v.dram.contains(key) {
            (MigrationView { promotion_pending: rest, ..v }, Action::AskSpace(v.pmem_node))
        } else {
            (
                MigrationView {
                    promotion_pending: rest,
                    promotion_args: aimed(v.promotion_args, key),
                    phase: Phase::PromotionStat { key },
                    ..v
                },
                Action::StatPages { demotion: false },
            )
        }
    }
}

/// Making room for the `todo` pages of `key` while `needed` pages are still
/// to be demoted: the next candidate that is not believed to be in the slow
/// tier already is taken up; when none is pending, candidates are asked
/// for; when nothing is needed any more, the promotion itself is moved.
pub open spec fn demote(v: MigrationView, key: u64, todo: usize, needed: usize) -> (
    MigrationView,
    Action,
)
    decreases v.demotion_pending.len(),
{
    if needed == 0 {
        (
            MigrationView { phase: Phase::PromotionMove { key, todo }, ..v },
            Action::MovePages { demotion: false, len: todo },
        )
    } else if v.demotion_pending.len() == 0 {
        (
            MigrationView { phase: Phase::Candidates { key, todo, needed }, ..v },
            Action::FindCandidates(BATCH_SIZE),
        )
    } else {
        let raw = v.demotion_pending.last();
        let rest = MigrationView { demotion_pending: v.demotion_pending.drop_last(), ..v };
        let candidate = hpage_of(raw);
        if raw == 0 {
            given_up(rest, Fault::NoCandidate)
        } else if v.pmem.contains(candidate) {
            demote(rest, key, todo, needed)
        } else {
            (
                MigrationView {
                    demotion_args: aimed(v.demotion_args, candidate),
                    phase: Phase::DemotionStat { key, todo, needed, candidate },
                    ..rest
                },
                Action::StatPages { demotion: true },
            )
        }
    }
}

/// What the worker does on hearing whether a node has space.
pub open spec fn on_space_spec(v: MigrationView, has_space: bool) -> (MigrationView, Action) {
    match v.phase {
        Phase::SlowSpace => next_promotion(v, has_space),
        Phase::FastSpace { key, todo } => demote(
            v,
            key,
            todo,
            if has_space {
                0
            } else {
                todo
            },
        ),
        _ => (v, Action::Abort(Fault::Unexpected)),
    }
}

/// What the worker does on hearing where the pages to promote are: a huge
/// page found all in the fast tier is noted as such; for any other the fast
/// tier is asked for space.
pub open spec fn after_promotion_stat(v: MigrationView, key: u64, ret: i32, observed: Seq<i32>) -> (
    MigrationView,
    Action,
) {
    let heard = informed(v.promotion_args, observed, HPAGE_PAGES as nat);
    if ret < 0 {
        given_up(MigrationView { promotion_args: heard, ..v }, Fault::Kernel(ret))
    } else if todo_of(heard) == 0 {
        (
            MigrationView {
                promotion_args: consolidated(heard),
                dram: v.dram.insert(key),
                phase: Phase::SlowSpace,
                ..v
            },
            Action::AskSpace(v.pmem_node),
        )
    } else {
        (
            MigrationView {
                promotion_args: consolidated(heard),
                phase: Phase::FastSpace { key, todo: todo_of(heard) as usize },
                ..v
            },
            Action::AskSpace(v.dram_node),
        )
    }
}

/// What the worker does on hearing where the pages to demote are: a huge
/// page found all in the slow tier is noted as such and the next candidate
/// taken up; any other is moved.
pub open spec fn after_demotion_stat(
    v: MigrationView,
    key: u64,
    todo: usize,
    needed: usize,
    candidate: u64,
    ret: i32,
    observed: Seq<i32>,
) -> (MigrationView, Action) {
    let heard = informed(v.demotion_args, observed, HPAGE_PAGES as nat);
    if ret < 0 {
        given_up(MigrationView { demotion_args: heard, ..v }, Fault::Kernel(ret))
    } else if todo_of(heard) == 0 {
        demote(
            MigrationView {
                demotion_args: consolidated(heard),
                pmem: v.pmem.insert(candidate),
                ..v
            },
            key,
            todo,
            needed,
        )
    } else {
        (
            MigrationView {
                demotion_args: consolidated(heard),
                phase: Phase::DemotionMove {
                    key,
                    todo,
                    needed,
                    candidate,
                    moving: todo_of(heard) as usize,
                },
                ..v
            },
            Action::MovePages { demotion: true, len: todo_of(heard) as usize },
        )
    }
}

/// What the worker does on hearing how a demotion went: if every page moved
/// is now on the slow node, the huge page is noted as being in the slow
/// tier, the pages are counted, and room is made for what is still needed.
pub open spec fn after_demotion_move(
    v: MigrationView,
    key: u64,
    todo: usize,
    needed: usize,
    candidate: u64,
    moving: usize,
    ret: i32,
    observed: Seq<i32>,
) -> (MigrationView, Action) {
    let heard = informed(v.demotion_args, observed, moving as nat);
    let done = count_of(heard.status, v.pmem_node);
    let told = MigrationView { demotion_args: heard, ..v };
    if ret < 0 {
        given_up(told, Fault::Kernel(ret))
    } else if done != moving {
        given_up(told, Fault::StaleStatus)
    } else {
        demote(
            MigrationView {
                pmem: v.pmem.insert(candidate),
                migrated_pages: capped_sum(v.migrated_pages, done),
                demoted: capped_sum(v.demoted, done),
                ..told
            },
            key,
            todo,
            if needed > moving {
                (needed - moving) as usize
            } else {
                0
            },
        )
    }
}

/// What the worker does on hearing how a promotion went: if every page moved
/// is now on the fast node, the huge page is noted as being in the fast
/// tier, the pages are counted, and the clock is asked for.
pub open spec fn after_promotion_move(
    v: MigrationView,
    key: u64,
    todo: usize,
    ret: i32,
    observed: Seq<i32>,
) -> (MigrationView, Action) {
    let heard = informed(v.promotion_args, observed, todo as nat);
    let done = count_of(heard.status, v.dram_node);
    let told = MigrationView { promotion_args: heard, ..v };
    if ret < 0 {
        given_up(told, Fault::Kernel(ret))
    } else if done != todo {
        given_up(told, Fault::StaleStatus)
    } else {
        (
            MigrationView {
                dram: v.dram.insert(key),
                migrated_pages: capped_sum(v.migrated_pages, done),
                promoted: capped_sum(v.promoted, done),
                phase: Phase::Clock,
                ..told
            },
            Action::ReadClock,
        )
    }
}

/// What the worker does on hearing the outcome of a page query or move.
pub open spec fn on_status_spec(v: MigrationView, ret: i32, observed: Seq<i32>) -> (
    MigrationView,
    Action,
) {
    match v.phase {
        Phase::PromotionStat { key } => after_promotion_stat(v, key, ret, observed),
        Phase::DemotionStat { key, todo, needed, candidate } => after_demotion_stat(
            v,
            key,
            todo,
            needed,
            candidate,
            ret,
            observed,
        ),
        Phase::DemotionMove { key, todo, needed, candidate, moving } => after_demotion_move(
            v,
            key,
            todo,
            needed,
            candidate,
            moving,
            ret,
            observed,
        ),
        Phase::PromotionMove { key, todo } => after_promotion_move(v, key, todo, ret, observed),
        _ => (v, Action::Abort(Fault::Unexpected)),
    }
}

/// What the worker does on hearing which candidates were found: `failed` is
/// the number that could not be found. They replace the pending
/// candidates, which had run out.
pub open spec fn on_candidates_spec(v: MigrationView, failed: u64, found: Seq<u64>) -> (
    MigrationView,
    Action,
) {
    match v.phase {
        Phase::Candidates { key, todo, needed } => if failed != 0 || found.len() == 0 {
            given_up(v, Fault::NoCandidate)
        } else {
            demote(MigrationView { demotion_pending: found, ..v }, key, todo, needed)
        },
        _ => (v, Action::Abort(Fault::Unexpected)),
    }
}

/// What the worker does on hearing the time: above the bandwidth cap it
/// ends the run and asks to be run again later; else it goes on with the
/// next promotion.
pub open spec fn on_clock_spec(v: MigrationView, now: u64) -> (MigrationView, Action) {
    match v.phase {
        Phase::Clock => if now < v.start {
            given_up(v, Fault::ClockWentBack)
        } else if speed_of(v.migrated_pages, (now - v.start) as u64) > THROTTLE_MBPS {
            (MigrationView { phase: Phase::Idle, ..v }, Action::Requeue(THROTTLE_DELAY))
        } else {
            (MigrationView { phase: Phase::SlowSpace, ..v }, Action::AskSpace(v.pmem_node))
        },
        _ => (v, Action::Abort(Fault::Unexpected)),
    }
}

/// How a run starts: everything queued in the two rings is added to what is
/// pending, and the slow tier is asked for space.
pub open spec fn migrate_spec(v: MigrationView, promotions: Seq<u64>, demotions: Seq<u64>) -> (
    MigrationView,
    Action,
) {
    (
        MigrationView {
            promotion_pending: v.promotion_pending + promotions,
            demotion_pending: v.demotion_pending + demotions,
            promoted: 0,
            demoted: 0,
            phase: Phase::SlowSpace,
            ..v
        },
        Action::AskSpace(v.pmem_node),
    )
}

/// A block of one huge page for process `pid` that has not been pointed at
/// any page yet and wants every page on `node`.
pub open spec fn blank_args(pid: Pid, node: i32) -> ArgsView {
    ArgsView {
        pid,
        pages: Seq::new(HPAGE_PAGES as nat, |i: int| 0u64),
        nodes: Seq::new(HPAGE_PAGES as nat, |i: int| node),
        status: Seq::new(HPAGE_PAGES as nat, |i: int| 0i32),
    }
}

/// A worker for process `pid`, started at time `now`, that believes
/// nothing, has nothing pending and has moved nothing. The fast tier is
/// node `dram_node`, the slow tier the node after it.
pub open spec fn fresh_worker(pid: Pid, dram_node: i32, now: u64) -> MigrationView {
    MigrationView {
        phase: Phase::Idle,
        dram: Set::empty(),
        pmem: Set::empty(),
        promotion_pending: Seq::empty(),
        demotion_pending: Seq::empty(),
        dram_node,
        pmem_node: (dram_node + 1) as i32,
        promotion_args: blank_args(pid, dram_node),
        demotion_args: blank_args(pid, (dram_node + 1) as i32),
        migrated_pages: 0,
        start: now,
        promoted: 0,
        demoted: 0,
    }
}

/// The numbers in the phase are page counts within one huge page.
pub open spec fn phase_fits(phase: Phase) -> bool {
    match phase {
        Phase::FastSpace { todo, .. } => todo <= HPAGE_PAGES,
        Phase::Candidates { todo, .. } => todo <= HPAGE_PAGES,
        Phase::DemotionStat { todo, .. } => todo <= HPAGE_PAGES,
        Phase::DemotionMove { todo, moving, .. } => todo <= HPAGE_PAGES && moving <= HPAGE_PAGES,
        Phase::PromotionMove { todo, .. } => todo <= HPAGE_PAGES,
        _ => true,
    }
}

/// The block wants every page on `node`.
pub open spec fn targets(args: ArgsView, node: i32) -> bool {
    forall|i: int| 0 <= i < args.nodes.len() ==> #[trigger] args.nodes[i] == node
}

/// The state is one the worker can be in: the numbers in the phase fit, the
/// two nodes are nodes, the promotion block sends every page to the fast
/// node and the demotion block every page to the slow node, and both blocks
/// have the size of a huge page.
pub open spec fn migration_valid(v: MigrationView) -> bool {
    &&& phase_fits(v.phase)
    &&& 0 <= v.dram_node
    &&& 0 <= v.pmem_node
    &&& targets(v.promotion_args, v.dram_node)
    &&& targets(v.demotion_args, v.pmem_node)
    &&& v.promotion_args.pages.len() == HPAGE_PAGES
    &&& v.promotion_args.nodes.len() == HPAGE_PAGES
    &&& v.promotion_args.status.len() == HPAGE_PAGES
    &&& v.demotion_args.pages.len() == HPAGE_PAGES
    &&& v.demotion_args.nodes.len() == HPAGE_PAGES
    &&& v.demotion_args.status.len() == HPAGE_PAGES
}

/// An answer to what the worker asked for.
pub enum Event {
    /// Whether the node asked about has free space.
    Space(bool),
    /// What a page query or page move returned, and the status it wrote for
    /// each page.
    Status { ret: i32, status: Vec<i32> },
    /// The candidates found, and how many could not be found.
    Candidates { failed: u64, found: Vec<u64> },
    /// The clock, in nanoseconds.
    Clock(u64),
}

/// What `step` does on `event`.
pub open spec fn step_spec(v: MigrationView, event: Event) -> (MigrationView, Action) {
    match event {
        Event::Space(has_space) => on_space_spec(v, has_space),
        Event::Status { ret, status } => on_status_spec(v, ret, status@),
        Event::Candidates { failed, found } => on_candidates_spec(v, failed, found@),
        Event::Clock(now) => on_clock_spec(v, now),
    }
}

/// The migration worker: what it believes about where huge pages are, what
/// is waiting to be moved, and where its current run stands.
pub struct MigrationContext {
    phase: Phase,
    dram: KeySet,
    pmem: KeySet,
    promotion_pending: Vec<u64>,
    demotion_pending: Vec<u64>,
    dram_node: i32,
    pmem_node: i32,
    promotion_args: MovePagesArgs<HPAGE_PAGES>,
    demotion_args: MovePagesArgs<HPAGE_PAGES>,
    migrated_pages: u64,
    start: u64,
    promoted: u64,
    demoted: u64,
}

impl View for MigrationContext {
    type V = MigrationView;

    closed spec fn view(&self) -> MigrationView {
        MigrationView {
            phase: self.phase,
            dram: set_contents(self.dram),
            pmem: set_contents(self.pmem),
            promotion_pending: self.promotion_pending@,
            demotion_pending: self.demotion_pending@,
            dram_node: self.dram_node,
            pmem_node: self.pmem_node,
            promotion_args: self.promotion_args@,
            demotion_args: self.demotion_args@,
            migrated_pages: self.migrated_pages,
            start: self.start,
            promoted: self.promoted,
            demoted: self.demoted,
        }
    }
}

/// `total + more`, stopping at the largest value.
fn add_capped(total: u64, more: usize) -> (sum: u64)
    ensures
        sum == capped_sum(total, more as nat),
{
    if more as u128 + total as u128 > u64::MAX as u128 {
        u64::MAX
    } else {
        total + more as u64
    }
}

impl MigrationContext {
    /// The state is one the worker can be in.
    pub open spec fn wf(&self) -> bool {
        migration_valid(self@)
    }

    /// A worker for process `pid` that has moved nothing yet. The fast tier
    /// is node `dram_node`, the slow tier the node after it. Room is set
    /// aside for twice `sdh_k` keys in each of the two sets of keys believed
    /// resident, and for `channel_capacity` pending candidates of either
    /// kind; `now` is the clock, in nanoseconds. Where that room cannot be
    /// had, the reason comes back instead. No room is always had.
    pub fn new(pid: Pid, dram_node: i32, sdh_k: usize, channel_capacity: usize, now: u64) -> (made:
        Result<Self, Exhausted>)
        requires
            0 <= dram_node < i32::MAX,
        ensures
            sdh_k == 0 && channel_capacity == 0 ==> made.is_ok(),
            made.is_ok() ==> made.unwrap().wf() && made.unwrap()@ == fresh_worker(
                pid,
                dram_node,
                now,
            ),
    {
        let room = if sdh_k > usize::MAX / 2 {
            usize::MAX
        } else {
            2 * sdh_k
        };
        let dram = match KeySet::with_room(room) {
            Ok(keys) => keys,
            Err(e) => {
                return Err(e);
            },
        };
        let pmem = match KeySet::with_room(room) {
            Ok(keys) => keys,
            Err(e) => {
                return Err(e);
            },
        };
        let promotion_pending: Vec<u64> = match vec_with_room(channel_capacity) {
            Ok(pending) => pending,
            Err(e) => {
                return Err(e);
            },
        };
        let demotion_pending: Vec<u64> = match vec_with_room(channel_capacity) {
            Ok(pending) => pending,
            Err(e) => {
                return Err(e);
            },
        };
        Ok(Self::with_room(pid, dram_node, now, dram, pmem, promotion_pending, demotion_pending))
    }

    /// The worker for process `pid`, started at time `now` with node
    /// `dram_node` for the fast tier, that keeps what it believes in `dram`
    /// and `pmem` and what is pending in `promotion_pending` and
    /// `demotion_pending`.
    pub fn with_room(
        pid: Pid,
        dram_node: i32,
        now: u64,
        dram: KeySet,
        pmem: KeySet,
        promotion_pending: Vec<u64>,
        demotion_pending: Vec<u64>,
    ) -> (worker: Self)
        requires
            0 <= dram_node < i32::MAX,
        ensures
            worker.wf(),
            worker@ == (MigrationView {
                dram: set_contents(dram),
                pmem: set_contents(pmem),
                promotion_pending: promotion_pending@,
                demotion_pending: demotion_pending@,
                ..fresh_worker(pid, dram_node, now)
            }),
    {
        let pmem_node = dram_node + 1;
        let worker = MigrationContext {
            phase: Phase::Idle,
            dram,
            pmem,
            promotion_pending,
            demotion_pending,
            dram_node,
            pmem_node,
            promotion_args: MovePagesArgs::new(pid, dram_node),
            demotion_args: MovePagesArgs::new(pid, pmem_node),
            migrated_pages: 0,
            start: now,
            promoted: 0,
            demoted: 0,
        };
        proof {
            let goal = fresh_worker(pid, dram_node, now);
            assert(worker@.promotion_args == goal.promotion_args);
            assert(worker@.demotion_args == goal.demotion_args);
        }
        worker
    }

    /// Whether work that is asked for from outside is to be queued: only
    /// when the worker is neither pending nor running.
    pub fn queue(work_busy: u32) -> (enqueue: bool)
        ensures
            enqueue == (work_busy == 0),
    {
        work_busy == 0
    }

    /// Bandwidth in megabytes per second of `pages` base pages moved in
    /// `elapsed` nanoseconds, or the largest value if it is beyond that.
    pub fn speed_mbps(pages: u64, elapsed: u64) -> (speed: u64)
        ensures
            speed == (if speed_of(pages, elapsed) > u64::MAX {
                u64::MAX as int
            } else {
                speed_of(pages, elapsed)
            }),
    {
        assert(PAGE_SIZE == 0x1000);
        let bytes: u128 = pages as u128 * 0x1000u128;
        let micros: u128 = (elapsed / 1000) as u128 + 1;
        let speed = bytes / micros;
        if speed > u64::MAX as u128 {
            u64::MAX
        } else {
            speed as u64
        }
    }

    /// Starts a run: takes everything out of the two rings, adds it to what
    /// is pending, and asks whether the slow tier has space.
    pub fn migrate(&mut self, promotion_rx: &mut Ring<u64>, demotion_rx: &mut Ring<u64>) -> (action:
        Action)
        requires
            old(self).wf(),
            old(promotion_rx).wf(),
            old(demotion_rx).wf(),
        ensures
            final(self).wf(),
            (final(self)@, action) == migrate_spec(
                old(self)@,
                old(promotion_rx)@.queue,
                old(demotion_rx)@.queue,
            ),
            final(promotion_rx).wf(),
            final(demotion_rx).wf(),
            final(promotion_rx)@ == (crate::spsc::RingView {
                queue: Seq::<u64>::empty(),
                ..old(promotion_rx)@
            }),
            final(demotion_rx)@ == (crate::spsc::RingView {
                queue: Seq::<u64>::empty(),
                ..old(demotion_rx)@
            }),
    {
        drain(promotion_rx, &mut self.promotion_pending);
        drain(demotion_rx, &mut self.demotion_pending);
        self.promoted = 0;
        self.demoted = 0;
        self.phase = Phase::SlowSpace;
        Action::AskSpace(self.pmem_node)
    }

    /// Takes up the next pending promotion, if the slow tier has space.
    fn next_promotion(&mut self, has_space: bool) -> (action: Action)
        requires
            old(self).wf(),
        ensures
            final(self).wf(),
            (final(self)@, action) == next_promotion(old(self)@, has_space),
    {
        if !has_space {
            self.phase = Phase::Idle;
            return Action::Done;
        }
        match self.promotion_pending.pop() {
            None => {
                self.phase = Phase::Idle;
                Action::Done
            },
            Some(raw) => {
                let key = hpage_base(raw);
                if self.dram.get(&key).is_some() {
                    Action::AskSpace(self.pmem_node)
                } else {
                    self.promotion_args.base_address(key);
                    self.phase = Phase::PromotionStat { key };
                    Action::StatPages { demotion: false }
                }
            },
        }
    }

    /// Makes room in the fast tier, or moves the promotion when there is
    /// room enough.
    fn demote(&mut self, key: u64, todo: usize, needed: usize) -> (action: Action)
        requires
            old(self).wf(),
            todo <= HPAGE_PAGES,
        ensures
            final(self).wf(),
            (final(self)@, action) == demote(old(self)@, key, todo, needed),
    {
        if needed == 0 {
            self.phase = Phase::PromotionMove { key, todo };
            return Action::MovePages { demotion: false, len: todo };
        }
        loop
            invariant
                self.wf(),
                todo <= HPAGE_PAGES,
                needed != 0,
                demote(self@, key, todo, needed) == demote(old(self)@, key, todo, needed),
            decreases self.demotion_pending@.len(),
        {
            match self.demotion_pending.pop() {
                None => {
                    self.phase = Phase::Candidates { key, todo, needed };
                    return Action::FindCandidates(BATCH_SIZE);
                },
                Some(raw) => {
                    if raw == 0 {
                        self.phase = Phase::Idle;
                        return Action::Abort(Fault::NoCandidate);
                    }
                    let candidate = hpage_base(raw);
                    if self.pmem.get(&candidate).is_none() {
                        self.demotion_args.base_address(candidate);
                        self.phase = Phase::DemotionStat { key, todo, needed, candidate };
                        return Action::StatPages { demotion: true };
                    }
                },
            }
        }
    }

    /// Takes in whether the node asked about has space.
    pub fn on_space(&mut self, has_space: bool) -> (action: Action)
        requires
            old(self).wf(),
        ensures
            final(self).wf(),
            (final(self)@, action) == on_space_spec(old(self)@, has_space),
    {
        match self.phase {
            Phase::SlowSpace => self.next_promotion(has_space),
            Phase::FastSpace { key, todo } => {
                let needed = if has_space {
                    0
                } else {
                    todo
                };
                self.demote(key, todo, needed)
            },
            _ => Action::Abort(Fault::Unexpected),
        }
    }

    /// Takes in where the pages to promote are.
    fn after_promotion_stat(&mut self, key: u64, ret: i32, observed: &[i32]) -> (action: Action)
        requires
            old(self).wf(),
        ensures
            final(self).wf(),
            (final(self)@, action) == after_promotion_stat(old(self)@, key, ret, observed@),
    {
        match self.promotion_args.stat_pages(ret, observed) {
            Err(code) => {
                self.phase = Phase::Idle;
                Action::Abort(Fault::Kernel(code))
            },
            Ok(_) => {
                let todo = self.promotion_args.consolidate_left();
                if todo == 0 {
                    self.dram.insert(key);
                    self.phase = Phase::SlowSpace;
                    Action::AskSpace(self.pmem_node)
                } else {
                    self.phase = Phase::FastSpace { key, todo };
                    Action::AskSpace(self.dram_node)
                }
            },
        }
    }

    /// Takes in where the pages to demote are.
    fn after_demotion_stat(
        &mut self,
        key: u64,
        todo: usize,
        needed: usize,
        candidate: u64,
        ret: i32,
        observed: &[i32],
    ) -> (action: Action)
        requires
            old(self).wf(),
            todo <= HPAGE_PAGES,
        ensures
            final(self).wf(),
            (final(self)@, action) == after_demotion_stat(
                old(self)@,
                key,
                todo,
                needed,
                candidate,
                ret,
                observed@,
            ),
    {
        match self.demotion_args.stat_pages(ret, observed) {
            Err(code) => {
                self.phase = Phase::Idle;
                Action::Abort(Fault::Kernel(code))
            },
            Ok(_) => {
                let moving = self.demotion_args.consolidate_left();
                if moving == 0 {
                    self.pmem.insert(candidate);
                    self.demote(key, todo, needed)
                } else {
                    self.phase = Phase::DemotionMove { key, todo, needed, candidate, moving };
                    Action::MovePages { demotion: true, len: moving }
                }
            },
        }
    }

    /// Takes in how a demotion went.
    fn after_demotion_move(
        &mut self,
        key: u64,
        todo: usize,
        needed: usize,
        candidate: u64,
        moving: usize,
        ret: i32,
        observed: &[i32],
    ) -> (action: Action)
        requires
            old(self).wf(),
            todo <= HPAGE_PAGES,
            moving <= HPAGE_PAGES,
        ensures
            final(self).wf(),
            (final(self)@, action) == after_demotion_move(
                old(self)@,
                key,
                todo,
                needed,
                candidate,
                moving,
                ret,
                observed@,
            ),
    {
        match self.demotion_args.move_pages(moving, ret, observed) {
            Err(code) => {
                self.phase = Phase::Idle;
                Action::Abort(Fault::Kernel(code))
            },
            Ok(_) => {
                let done = self.demotion_args.count_node(self.pmem_node);
                if done != moving {
                    self.phase = Phase::Idle;
                    return Action::Abort(Fault::StaleStatus);
                }
                self.pmem.insert(candidate);
                self.migrated_pages = add_capped(self.migrated_pages, done);
                self.demoted = add_capped(self.demoted, done);
                let left = if needed > moving {
                    needed - moving
                } else {
                    0
                };
                self.demote(key, todo, left)
            },
        }
    }

    /// Takes in how a promotion went.
    fn after_promotion_move(&mut self, key: u64, todo: usize, ret: i32, observed: &[i32]) -> (action:
        Action)
        requires
            old(self).wf(),
            todo <= HPAGE_PAGES,
        ensures
            final(self).wf(),
            (final(self)@, action) == after_promotion_move(old(self)@, key, todo, ret, observed@),
    {
        match self.promotion_args.move_pages(todo, ret, observed) {
            Err(code) => {
                self.phase = Phase::Idle;
                Action::Abort(Fault::Kernel(code))
            },
            Ok(_) => {
                let done = self.promotion_args.count_node(self.dram_node);
                if done != todo {
                    self.phase = Phase::Idle;
                    return Action::Abort(Fault::StaleStatus);
                }
                self.dram.insert(key);
                self.migrated_pages = add_capped(self.migrated_pages, done);
                self.promoted = add_capped(self.promoted, done);
                self.phase = Phase::Clock;
                Action::ReadClock
            },
        }
    }

    /// Takes in the outcome of a page query or page move: what the call
    /// returned and the status it wrote for each page.
    pub fn on_status(&mut self, ret: i32, observed: &[i32]) -> (action: Action)
        requires
            old(self).wf(),
        ensures
            final(self).wf(),
            (final(self)@, action) == on_status_spec(old(self)@, ret, observed@),
    {
        match self.phase {
            Phase::PromotionStat { key } => self.after_promotion_stat(key, ret, observed),
            Phase::DemotionStat { key, todo, needed, candidate } => self.after_demotion_stat(
                key,
                todo,
                needed,
                candidate,
                ret,
                observed,
            ),
            Phase::DemotionMove { key, todo, needed, candidate, moving } => self.after_demotion_move(
                key,
                todo,
                needed,
                candidate,
                moving,
                ret,
                observed,
            ),
            Phase::PromotionMove { key, todo } => self.after_promotion_move(key, todo, ret, observed),
            _ => Action::Abort(Fault::Unexpected),
        }
    }

    /// Takes in the candidates for demotion that were found, and how many
    /// could not be found.
    pub fn on_candidates(&mut self, failed: u64, found: Vec<u64>) -> (action: Action)
        requires
            old(self).wf(),
        ensures
            final(self).wf(),
            (final(self)@, action) == on_candidates_spec(old(self)@, failed, found@),
    {
        match self.phase {
            Phase::Candidates { key, todo, needed } => {
                if failed != 0 || found.len() == 0 {
                    self.phase = Phase::Idle;
                    Action::Abort(Fault::NoCandidate)
                } else {
                    self.demotion_pending = found;
                    self.demote(key, todo, needed)
                }
            },
            _ => Action::Abort(Fault::Unexpected),
        }
    }

    /// Takes in the time and holds the average bandwidth against the cap.
    pub fn on_clock(&mut self, now: u64) -> (action: Action)
        requires
            old(self).wf(),
        ensures
            final(self).wf(),
            (final(self)@, action) == on_clock_spec(old(self)@, now),
    {
        match self.phase {
            Phase::Clock => {
                if now < self.start {
                    self.phase = Phase::Idle;
                    Action::Abort(Fault::ClockWentBack)
                } else if Self::speed_mbps(self.migrated_pages, now - self.start) > THROTTLE_MBPS {
                    self.phase = Phase::Idle;
                    Action::Requeue(THROTTLE_DELAY)
                } else {
                    self.phase = Phase::SlowSpace;
                    Action::AskSpace(self.pmem_node)
                }
            },
            _ => Action::Abort(Fault::Unexpected),
        }
    }

    /// Takes in the answer to what was last asked for and says what to do
    /// next.
    pub fn step(&mut self, event: Event) -> (action: Action)
        requires
            old(self).wf(),
        ensures
            final(self).wf(),
            (final(self)@, action) == step_spec(old(self)@, event),
    {
        match event {
            Event::Space(has_space) => self.on_space(has_space),
            Event::Status { ret, status } => self.on_status(ret, status.as_slice()),
            Event::Candidates { failed, found } => self.on_candidates(failed, found),
            Event::Clock(now) => self.on_clock(now),
        }
    }

    /// The block of the pages to promote.
    pub fn promotion_args(&self) -> (args: &MovePagesArgs<HPAGE_PAGES>)
        ensures
            args@ == self@.promotion_args,
    {
        &self.promotion_args
    }

    /// The block of the pages to demote.
    pub fn demotion_args(&self) -> (args: &MovePagesArgs<HPAGE_PAGES>)
        ensures
            args@ == self@.demotion_args,
    {
        &self.demotion_args
    }

    /// Base pages moved since the worker was started.
    pub fn migrated_pages(&self) -> (pages: u64)
        ensures
            pages == self@.migrated_pages,
    {
        self.migrated_pages
    }

    /// The clock reading, in nanoseconds, that the worker was started at.
    pub fn start(&self) -> (start: u64)
        ensures
            start == self@.start,
    {
        self.start
    }

    /// Base pages promoted and demoted in the current or last run.
    pub fn moved_in_run(&self) -> (moved: (u64, u64))
        ensures
            moved == (self@.promoted, self@.demoted),
    {
        (self.promoted, self.demoted)
    }

    /// How many promotions and demotions are pending.
    pub fn pending(&self) -> (depth: (usize, usize))
        ensures
            depth.0 == self@.promotion_pending.len(),
            depth.1 == self@.demotion_pending.len(),
    {
        (self.promotion_pending.len(), self.demotion_pending.len())
    }

    /// Whether `key` is believed to be in the fast tier.
    pub fn in_dram(&self, key: u64) -> (believed: bool)
        ensures
            believed == self@.dram.contains(key),
    {
        self.dram.get(&key).is_some()
    }

    /// Whether `key` is believed to be in the slow tier.
    pub fn in_pmem(&self, key: u64) -> (believed: bool)
        ensures
            believed == self@.pmem.contains(key),
    {
        self.pmem.get(&key).is_some()
    }
}

/// Takes everything out of `ring` and appends it to `pending`, oldest first.
fn drain(ring: &mut Ring<u64>, pending: &mut Vec<u64>)
    requires
        old(ring).wf(),
    ensures
        final(ring).wf(),
        final(ring)@ == (crate::spsc::RingView { queue: Seq::<u64>::empty(), ..old(ring)@ }),
        final(pending)@ == old(pending)@ + old(ring)@.queue,
{
    loop
        invariant
            ring.wf(),
            ring@.cap == old(ring)@.cap,
            ring@.sent == old(ring)@.sent,
            pending@ + ring@.queue == old(pending)@ + old(ring)@.queue,
        ensures
            ring@.queue.len() == 0,
        decreases ring@.queue.len(),
    {
        let ghost before = ring@.queue;
        let ghost had = pending@;
        match ring.recv() {
            None => {
                break ;
            },
            Some(addr) => {
                pending.push(addr);
                assert(pending@ + ring@.queue =~= had + before);
            },
        }
    }
    assert(ring@.queue =~= Seq::<u64>::empty());
    assert(pending@ =~= pending@ + ring@.queue);
}

/// Where as many entries as there are among the first `n` equal `node`,
/// each of them does.
pub proof fn lemma_full_count(status: Seq<i32>, node: i32, n: int)
    requires
        0 <= n <= status.len(),
    ensures
        crate::pages::count_upto(status, node, n) <= n,
        crate::pages::count_upto(status, node, n) == n ==> forall|i: int|
            0 <= i < n ==> status[i] == node,
    decreases n,
{
    if n > 0 {
        lemma_full_count(status, node, n - 1);
    }
}

/// Entries that are not `node` do not count.
proof fn lemma_count_stops(status: Seq<i32>, node: i32, from: int, n: int)
    requires
        0 <= from <= n <= status.len(),
        forall|i: int| from <= i < n ==> status[i] != node,
    ensures
        crate::pages::count_upto(status, node, n) == crate::pages::count_upto(status, node, from),
    decreases n,
{
    if n > from {
        lemma_count_stops(status, node, from, n - 1);
    }
}

/// The worker goes on after moving a promotion only if the move succeeded
/// and every page it moved was reported on the fast node, which is the node
/// the block wanted it on. It then believes the huge page to be in the fast
/// tier and has counted its pages; the pages and the nodes of the block are
/// as they were.
pub proof fn lemma_promotion_lands(
    v: MigrationView,
    key: u64,
    todo: usize,
    ret: i32,
    observed: Seq<i32>,
)
    requires
        migration_valid(v),
        v.phase == (Phase::PromotionMove { key, todo }),
        !(on_status_spec(v, ret, observed).1 is Abort),
    ensures
        ret >= 0,
        forall|i: int| 0 <= i < todo ==> i < observed.len() && observed[i] == v.dram_node,
        on_status_spec(v, ret, observed).1 == Action::ReadClock,
        on_status_spec(v, ret, observed).0.dram.contains(key),
        on_status_spec(v, ret, observed).0.migrated_pages == capped_sum(v.migrated_pages, todo as nat),
        on_status_spec(v, ret, observed).0.promotion_args.pages == v.promotion_args.pages,
        on_status_spec(v, ret, observed).0.promotion_args.nodes == v.promotion_args.nodes,
        forall|i: int|
            0 <= i < todo ==> #[trigger] on_status_spec(v, ret, observed).0.promotion_args.status[i]
                == v.promotion_args.nodes[i],
{
    let status = reported(observed, todo as nat, HPAGE_PAGES as nat);
    lemma_count_stops(status, v.dram_node, todo as int, HPAGE_PAGES as int);
    lemma_full_count(status, v.dram_node, todo as int);
    assert forall|i: int| 0 <= i < todo implies i < observed.len() && observed[i]
        == v.dram_node by {
        assert(status[i] == v.dram_node);
    }
}

/// The worker goes on after moving a demotion only if the move succeeded and
/// every page it moved was reported on the slow node, which is the node the
/// block wanted it on.
pub proof fn lemma_demotion_lands(
    v: MigrationView,
    key: u64,
    todo: usize,
    needed: usize,
    candidate: u64,
    moving: usize,
    ret: i32,
    observed: Seq<i32>,
)
    requires
        migration_valid(v),
        v.phase == (Phase::DemotionMove { key, todo, needed, candidate, moving }),
        on_status_spec(v, ret, observed).1 != Action::Abort(Fault::Kernel(ret)),
        on_status_spec(v, ret, observed).1 != Action::Abort(Fault::StaleStatus),
    ensures
        ret >= 0,
        forall|i: int| 0 <= i < moving ==> i < observed.len() && observed[i] == v.pmem_node,
        forall|i: int|
            0 <= i < moving ==> #[trigger] informed(v.demotion_args, observed, moving as nat).status[i]
                == v.demotion_args.nodes[i],
{
    let status = reported(observed, moving as nat, HPAGE_PAGES as nat);
    lemma_count_stops(status, v.pmem_node, moving as int, HPAGE_PAGES as int);
    lemma_full_count(status, v.pmem_node, moving as int);
    assert forall|i: int| 0 <= i < moving implies i < observed.len() && observed[i]
        == v.pmem_node by {
        assert(status[i] == v.pmem_node);
    }
}

/// What the worker believes after probing a huge page for promotion goes by
/// what was observed, not by what it believed: the block holds the status
/// observed for each page, the huge page is noted as being in the fast tier
/// exactly if no page of it has to move, and this is so whether or not it
/// is believed to be in the slow tier, which is left as it was.
pub proof fn lemma_probe_decides(v: MigrationView, key: u64, ret: i32, observed: Seq<i32>)
    requires
        migration_valid(v),
        v.phase == (Phase::PromotionStat { key }),
        ret >= 0,
        !v.dram.contains(key),
    ensures
        ({
            let heard = informed(v.promotion_args, observed, HPAGE_PAGES as nat);
            let after = on_status_spec(v, ret, observed).0;
            &&& forall|i: int|
                0 <= i < HPAGE_PAGES && i < observed.len() ==> heard.status[i] == observed[i]
            &&& after.promotion_args == consolidated(heard)
            &&& after.dram.contains(key) <==> todo_of(heard) == 0
            &&& after.pmem == v.pmem
        }),
{
}

/// At the throttle check the worker goes on exactly when the average
/// bandwidth since its start is within the cap; above the cap it ends the
/// run and asks to be run again after the delay.
pub proof fn lemma_throttle(v: MigrationView, now: u64)
    requires
        v.phase == Phase::Clock,
        now >= v.start,
    ensures
        ({
            let speed = speed_of(v.migrated_pages, (now - v.start) as u64);
            let next = on_clock_spec(v, now);
            &&& speed <= THROTTLE_MBPS <==> next.1 == Action::AskSpace(v.pmem_node)
            &&& speed > THROTTLE_MBPS <==> next.1 == Action::Requeue(THROTTLE_DELAY)
            &&& speed > THROTTLE_MBPS ==> next.0.phase == Phase::Idle
            &&& next.0.migrated_pages == v.migrated_pages
        }),
{
}

/// An address that is the start of a huge page is its own key.
pub proof fn lemma_aligned_is_key(p: u64)
    requires
        p % HPAGE_SIZE == 0,
    ensures
        hpage_of(p) == p,
{
    assert(p & 0xffff_ffff_ffe0_0000u64 == p) by (bit_vector)
        requires
            p % 0x20_0000u64 == 0,
    ;
}

/// One promotion from start to end. A run starts on a worker with nothing
/// pending, with `promotions` and `demotions` queued in the rings; the key
/// `p` of the last promotion queued, which is that address itself where it
/// is the start of a huge page, is not believed to be in the fast tier.
/// Both tiers have space, the pages of `p` are all reported on valid nodes
/// other than the fast one, and the move reports them all on the fast node.
/// Then the worker asks for space on the slow node, for the status of the
/// 512 base pages of `p`, for space on the fast node, and for one move of
/// those 512 pages, each to the fast node; it asks for no demotion. After
/// the move `p` is believed to be in the fast tier and in no other set than
/// before, 512 more pages are counted, and the other promotions are still
/// pending.
pub proof fn lemma_promotion_run(
    v: MigrationView,
    promotions: Seq<u64>,
    demotions: Seq<u64>,
    located: Seq<i32>,
    moved: Seq<i32>,
)
    requires
        migration_valid(v),
        v.promotion_pending.len() == 0,
        promotions.len() > 0,
        !v.dram.contains(hpage_of(promotions.last())),
        located.len() == HPAGE_PAGES,
        forall|i: int| 0 <= i < HPAGE_PAGES ==> #[trigger] located[i] >= 0 && located[i] != v.dram_node,
        moved.len() == HPAGE_PAGES,
        forall|i: int| 0 <= i < HPAGE_PAGES ==> #[trigger] moved[i] == v.dram_node,
    ensures
        ({
            let p = hpage_of(promotions.last());
            let started = migrate_spec(v, promotions, demotions);
            let taken = on_space_spec(started.0, true);
            let probed = on_status_spec(taken.0, 0, located);
            let cleared = on_space_spec(probed.0, true);
            let landed = on_status_spec(cleared.0, 0, moved);
            &&& promotions.last() % HPAGE_SIZE == 0 ==> p == promotions.last()
            &&& started.1 == Action::AskSpace(v.pmem_node)
            &&& taken.1 == Action::StatPages { demotion: false }
            &&& taken.0.promotion_args.pages == page_run(p, HPAGE_PAGES as nat)
            &&& probed.1 == Action::AskSpace(v.dram_node)
            &&& cleared.1 == Action::MovePages { demotion: false, len: HPAGE_PAGES }
            &&& cleared.0.promotion_args.pages == page_run(p, HPAGE_PAGES as nat)
            &&& targets(cleared.0.promotion_args, v.dram_node)
            &&& cleared.0.promotion_args.nodes.len() == HPAGE_PAGES
            &&& landed.1 == Action::ReadClock
            &&& landed.0.phase == Phase::Clock
            &&& landed.0.dram == v.dram.insert(p)
            &&& landed.0.pmem == v.pmem
            &&& landed.0.migrated_pages == capped_sum(v.migrated_pages, HPAGE_PAGES as nat)
            &&& landed.0.promoted == HPAGE_PAGES
            &&& landed.0.demoted == 0
            &&& landed.0.promotion_pending == promotions.drop_last()
            &&& landed.0.demotion_pending == v.demotion_pending + demotions
            &&& landed.0.start == v.start
            &&& migration_valid(landed.0)
        }),
{
    let p = hpage_of(promotions.last());
    if promotions.last() % HPAGE_SIZE == 0 {
        lemma_aligned_is_key(promotions.last());
    }
    let started = migrate_spec(v, promotions, demotions);
    assert(started.0.promotion_pending =~= promotions);
    let taken = on_space_spec(started.0, true);
    let heard = informed(taken.0.promotion_args, located, HPAGE_PAGES as nat);
    assert forall|i: int| 0 <= i < HPAGE_PAGES implies needs_move(
        #[trigger] heard.status[i],
        heard.nodes[i],
    ) by {
        assert(located[i] >= 0 && located[i] != v.dram_node);
        assert(heard.nodes[i] == v.dram_node);
    }
    lemma_all_move(heard.pages, heard.status, heard.nodes, HPAGE_PAGES as int);
    let probed = on_status_spec(taken.0, 0, located);
    let cleared = on_space_spec(probed.0, true);
    let status = reported(moved, HPAGE_PAGES as nat, HPAGE_PAGES as nat);
    assert forall|i: int| 0 <= i < HPAGE_PAGES implies #[trigger] status[i] == v.dram_node by {
        assert(moved[i] == v.dram_node);
    }
    lemma_count_all(status, v.dram_node, HPAGE_PAGES as int);
}

/// A run that is throttled after its first promotion. As in
/// `lemma_promotion_run`, and the clock then shows an average bandwidth
/// above the cap: the worker asks to be run again after a delay that is not
/// 0 and ends the run. It has made one move and no other, has counted 512
/// more pages, believes one more key to be in the fast tier, and has all
/// other promotions still pending.
pub proof fn lemma_throttled_run(
    v: MigrationView,
    promotions: Seq<u64>,
    demotions: Seq<u64>,
    located: Seq<i32>,
    moved: Seq<i32>,
    now: u64,
)
    requires
        migration_valid(v),
        v.promotion_pending.len() == 0,
        promotions.len() > 0,
        !v.dram.contains(hpage_of(promotions.last())),
        located.len() == HPAGE_PAGES,
        forall|i: int| 0 <= i < HPAGE_PAGES ==> #[trigger] located[i] >= 0 && located[i] != v.dram_node,
        moved.len() == HPAGE_PAGES,
        forall|i: int| 0 <= i < HPAGE_PAGES ==> #[trigger] moved[i] == v.dram_node,
        now >= v.start,
        speed_of(capped_sum(v.migrated_pages, HPAGE_PAGES as nat), (now - v.start) as u64)
            > THROTTLE_MBPS,
    ensures
        ({
            let started = migrate_spec(v, promotions, demotions);
            let taken = on_space_spec(started.0, true);
            let probed = on_status_spec(taken.0, 0, located);
            let cleared = on_space_spec(probed.0, true);
            let landed = on_status_spec(cleared.0, 0, moved);
            let ended = on_clock_spec(landed.0, now);
            &&& ended.1 == Action::Requeue(THROTTLE_DELAY)
            &&& THROTTLE_DELAY > 0
            &&& ended.0.phase == Phase::Idle
            &&& ended.0.migrated_pages == capped_sum(v.migrated_pages, HPAGE_PAGES as nat)
            &&& ended.0.promotion_pending.len() == promotions.len() - 1
            &&& ended.0.dram == v.dram.insert(hpage_of(promotions.last()))
            &&& ended.0.pmem == v.pmem
        }),
{
    lemma_promotion_run(v, promotions, demotions, located, moved);
}

} // verus!
