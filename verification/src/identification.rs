//! Identification: samples are drained from the collection rings into the
//! sketch, and the keys that turn hot or are pushed out are handed on as
//! candidates for promotion and demotion.

use crate::event::Sample;
use crate::helper::{hpage_base, hpage_of, MIGRATION_PERIOD};
use crate::iheap::{
    distinct_keys, has_key, lemma_push_keys, lemma_replace_entries, lemma_same_entries,
    lemma_same_entries_same_keys, push_spec, replace_spec, update_spec, Entry,
};
use crate::sdh::{
    bumped, counters_at_least, counters_exactly, estimate, lemma_bumped_exact,
    lemma_bumped_keeps_shape, lemma_bumped_raises_floor, lemma_estimate_exact,
    lemma_estimate_floor, position_of, sketch_after, sketch_report, sketch_valid, SketchView, SDH,
};
use crate::spsc::{Ring, RingView};
use vstd::prelude::*;

verus! {

/// What identification has at hand while it drains: the sketch, the two
/// candidate rings, and its counters.
pub struct Flow {
    pub sketch: SketchView,
    /// The ring of candidates for promotion.
    pub promotion: RingView<u64>,
    /// The ring of candidates for demotion.
    pub demotion: RingView<u64>,
    /// Candidates accepted by the two rings in this drain, modulo 2^64.
    pub sent: u64,
    /// Whether migration has been asked for in this drain.
    pub queued: bool,
    /// Samples identified since the start, modulo 2^64.
    pub received: u64,
}

/// A counter after one more, modulo 2^64.
pub open spec fn next_count(n: u64) -> u64 {
    if n == u64::MAX {
        0
    } else {
        (n + 1) as u64
    }
}

/// The ring after `key` was offered to it: holding it if it could accept it.
pub open spec fn offered(ring: RingView<u64>, key: u64) -> RingView<u64> {
    if ring.accepts() {
        ring.after_send(key)
    } else {
        ring
    }
}

/// What one sample does: its huge page is counted in the sketch; if that
/// made it hot it is offered for promotion, and a key it pushed out is
/// offered for demotion. Migration is asked for, once in a drain, when the
/// number of candidates accepted so far is a multiple of the period.
pub open spec fn identify_one(f: Flow, sample: Sample) -> Flow {
    let key = hpage_of(sample.va);
    let report = sketch_report(f.sketch, key);
    let promotion = if report.1 {
        offered(f.promotion, key)
    } else {
        f.promotion
    };
    let sent_hot = if report.1 && f.promotion.accepts() {
        next_count(f.sent)
    } else {
        f.sent
    };
    let demotion = match report.2 {
        Some(evicted) => offered(f.demotion, evicted),
        None => f.demotion,
    };
    let sent = if report.2.is_some() && f.demotion.accepts() {
        next_count(sent_hot)
    } else {
        sent_hot
    };
    Flow {
        sketch: sketch_after(f.sketch, key),
        promotion,
        demotion,
        sent,
        queued: f.queued || sent % MIGRATION_PERIOD == 0,
        received: next_count(f.received),
    }
}

/// What the samples `samples` do, taken first to last.
pub open spec fn identify_all(f: Flow, samples: Seq<Sample>) -> Flow
    decreases samples.len(),
{
    if samples.len() == 0 {
        f
    } else {
        identify_all(identify_one(f, samples[0]), samples.drop_first())
    }
}

/// Everything queued in `rings`: all of the first ring, then all of the
/// second, and so on.
pub open spec fn queued_in(rings: Seq<RingView<Sample>>) -> Seq<Sample>
    decreases rings.len(),
{
    if rings.len() == 0 {
        Seq::empty()
    } else {
        rings[0].queue + queued_in(rings.drop_first())
    }
}

/// What each of the rings in `rings` holds.
pub open spec fn ring_views(rings: Seq<Ring<Sample>>) -> Seq<RingView<Sample>> {
    Seq::new(rings.len(), |i: int| rings[i]@)
}

/// The ring `ring` with nothing queued.
pub open spec fn emptied(ring: RingView<Sample>) -> RingView<Sample> {
    RingView { queue: Seq::empty(), ..ring }
}

/// The identification side: the sketch and a count of the samples seen.
pub struct IdentificationContext {
    sdh: SDH,
    received: u64,
}

/// What identification holds.
pub struct IdentificationView {
    pub sketch: SketchView,
    pub received: u64,
}

impl View for IdentificationContext {
    type V = IdentificationView;

    closed spec fn view(&self) -> IdentificationView {
        IdentificationView { sketch: self.sdh@, received: self.received }
    }
}

/// A counter after one more, modulo 2^64.
fn count_on(n: u64) -> (m: u64)
    ensures
        m == next_count(n),
{
    if n == u64::MAX {
        0
    } else {
        n + 1
    }
}

impl IdentificationContext {
    /// The sketch is well formed.
    pub closed spec fn wf(&self) -> bool {
        self.sdh.wf()
    }

    /// A well-formed context holds a valid sketch.
    pub proof fn lemma_wf_valid(&self)
        requires
            self.wf(),
        ensures
            sketch_valid(self@.sketch),
    {
    }

    /// Identification over the sketch `sdh`, with no sample seen yet.
    pub fn new(sdh: SDH) -> (context: Self)
        requires
            sdh.wf(),
        ensures
            context.wf(),
            context@.sketch == sdh@,
            context@.received == 0,
    {
        IdentificationContext { sdh, received: 0 }
    }

    /// Takes in one sample.
    fn identify(
        &mut self,
        sample: Sample,
        promotion_tx: &mut Ring<u64>,
        demotion_tx: &mut Ring<u64>,
        sent: u64,
        queued: bool,
    ) -> (after: (u64, bool))
        requires
            old(self).wf(),
            old(promotion_tx).wf(),
            old(demotion_tx).wf(),
        ensures
            final(self).wf(),
            final(promotion_tx).wf(),
            final(demotion_tx).wf(),
            (Flow {
                sketch: final(self)@.sketch,
                promotion: final(promotion_tx)@,
                demotion: final(demotion_tx)@,
                sent: after.0,
                queued: after.1,
                received: final(self)@.received,
            }) == identify_one(
                (Flow {
                    sketch: old(self)@.sketch,
                    promotion: old(promotion_tx)@,
                    demotion: old(demotion_tx)@,
                    sent,
                    queued,
                    received: old(self)@.received,
                }),
                sample,
            ),
    {
        let mut sent = sent;
        let va = hpage_base(sample.va);
        let (_, hot, replaced) = self.sdh.add(va);
        if hot {
            if promotion_tx.send(va).is_ok() {
                sent = count_on(sent);
            }
        }
        if let Some(cold) = replaced {
            if demotion_tx.send(cold).is_ok() {
                sent = count_on(sent);
            }
        }
        self.received = count_on(self.received);
        (sent, queued || sent % MIGRATION_PERIOD == 0)
    }

    /// Drains every ring of `rx` in turn, takes in each sample, and returns
    /// whether migration is to be asked for.
    pub fn identify_hotness(
        &mut self,
        rx: &mut Vec<Ring<Sample>>,
        promotion_tx: &mut Ring<u64>,
        demotion_tx: &mut Ring<u64>,
    ) -> (queue_migration: bool)
        requires
            old(self).wf(),
            old(promotion_tx).wf(),
            old(demotion_tx).wf(),
            forall|i: int| 0 <= i < old(rx)@.len() ==> (#[trigger] old(rx)@[i]).wf(),
        ensures
            final(self).wf(),
            final(promotion_tx).wf(),
            final(demotion_tx).wf(),
            final(rx)@.len() == old(rx)@.len(),
            forall|i: int|
                0 <= i < old(rx)@.len() ==> (#[trigger] final(rx)@[i]).wf() && final(rx)@[i]@
                    == emptied(old(rx)@[i]@),
            ({
                let done = identify_all(
                    (Flow {
                        sketch: old(self)@.sketch,
                        promotion: old(promotion_tx)@,
                        demotion: old(demotion_tx)@,
                        sent: 0,
                        queued: false,
                        received: old(self)@.received,
                    }),
                    queued_in(ring_views(old(rx)@)),
                );
                &&& final(self)@.sketch == done.sketch
                &&& final(self)@.received == done.received
                &&& final(promotion_tx)@ == done.promotion
                &&& final(demotion_tx)@ == done.demotion
                &&& queue_migration == done.queued
            }),
    {
        let mut sent: u64 = 0;
        let mut queued = false;
        let ghost goal = identify_all(
            (Flow {
                sketch: old(self)@.sketch,
                promotion: old(promotion_tx)@,
                demotion: old(demotion_tx)@,
                sent: 0,
                queued: false,
                received: old(self)@.received,
            }),
            queued_in(ring_views(old(rx)@)),
        );
        let ghost before = ring_views(old(rx)@);
        let mut i: usize = 0;
        proof {
            assert(before.skip(0) =~= before);
        }
        while i < rx.len()
            invariant
                i <= rx@.len(),
                rx@.len() == old(rx)@.len(),
                before == ring_views(old(rx)@),
                self.wf(),
                promotion_tx.wf(),
                demotion_tx.wf(),
                forall|j: int| 0 <= j < rx@.len() ==> (#[trigger] rx@[j]).wf(),
                forall|j: int| 0 <= j < i ==> (#[trigger] rx@[j])@ == emptied(old(rx)@[j]@),
                forall|j: int| i <= j < rx@.len() ==> (#[trigger] rx@[j])@ == old(rx)@[j]@,
                identify_all(
                    (Flow {
                        sketch: self@.sketch,
                        promotion: promotion_tx@,
                        demotion: demotion_tx@,
                        sent,
                        queued,
                        received: self@.received,
                    }),
                    queued_in(before.skip(i as int)),
                ) == goal,
            decreases rx@.len() - i,
        {
            let ghost rest = queued_in(before.skip(i + 1));
            proof {
                assert(before.skip(i as int).drop_first() =~= before.skip(i + 1));
                assert(before.skip(i as int)[0] == rx@[i as int]@);
            }
            loop
                invariant
                    i < rx@.len(),
                    rx@.len() == old(rx)@.len(),
                    self.wf(),
                    promotion_tx.wf(),
                    demotion_tx.wf(),
                    forall|j: int| 0 <= j < rx@.len() ==> (#[trigger] rx@[j]).wf(),
                    forall|j: int| 0 <= j < i ==> (#[trigger] rx@[j])@ == emptied(old(rx)@[j]@),
                    forall|j: int| i < j < rx@.len() ==> (#[trigger] rx@[j])@ == old(rx)@[j]@,
                    rx@[i as int]@.cap == old(rx)@[i as int]@.cap,
                    rx@[i as int]@.sent == old(rx)@[i as int]@.sent,
                    identify_all(
                        (Flow {
                            sketch: self@.sketch,
                            promotion: promotion_tx@,
                            demotion: demotion_tx@,
                            sent,
                            queued,
                            received: self@.received,
                        }),
                        rx@[i as int]@.queue + rest,
                    ) == goal,
                ensures
                    rx@[i as int]@.queue.len() == 0,
                decreases rx@[i as int]@.queue.len(),
            {
                let ghost queue = rx@[i as int]@.queue;
                let ghost rings = rx@;
                let taken = rx[i].recv();
                proof {
                    assert forall|j: int| 0 <= j < rx@.len() && j != i implies rx@[j]
                        == rings[j] by {}
                }
                match taken {
                    None => {
                        break ;
                    },
                    Some(sample) => {
                        proof {
                            assert((queue + rest)[0] == sample);
                            assert((queue + rest).drop_first() =~= rx@[i as int]@.queue + rest);
                        }
                        let after = self.identify(sample, promotion_tx, demotion_tx, sent, queued);
                        sent = after.0;
                        queued = after.1;
                    },
                }
            }
            proof {
                assert(rx@[i as int]@.queue + rest =~= rest);
                assert(rx@[i as int]@.queue =~= Seq::<Sample>::empty());
            }
            i += 1;
        }
        proof {
            assert(before.skip(i as int) =~= Seq::<RingView<Sample>>::empty());
        }
        queued
    }

    /// The number of samples identified since the start, modulo 2^64.
    pub fn received(&self) -> (n: u64)
        ensures
            n == self@.received,
    {
        self.received
    }

    /// The sketch.
    pub fn sketch(&self) -> (sdh: &SDH)
        ensures
            sdh@ == self@.sketch,
            sdh.wf() == self.wf(),
    {
        &self.sdh
    }
}

/// The keys of the samples: the huge page each address lies in.
pub open spec fn keys_of(samples: Seq<Sample>) -> Seq<u64> {
    samples.map_values(|s: Sample| hpage_of(s.va))
}

/// The table has `w > 0` columns in every row.
pub open spec fn shaped(table: Seq<Seq<u64>>, w: nat) -> bool {
    &&& w > 0
    &&& forall|r: int| 0 <= r < table.len() ==> (#[trigger] table[r]).len() == w
}

/// The samples have keys that differ from one another and from the keys
/// kept; the heap has room for all of them, and the promotion ring has room
/// for as many candidates.
pub open spec fn new_keys_fit(f: Flow, samples: Seq<Sample>) -> bool {
    &&& f.sketch.heap.len() + samples.len() <= f.sketch.k
    &&& forall|i: int, j: int|
        0 <= i < j < samples.len() ==> hpage_of(samples[i].va) != hpage_of(samples[j].va)
    &&& forall|i: int|
        0 <= i < samples.len() ==> !has_key(f.sketch.heap, hpage_of(#[trigger] samples[i].va))
    &&& f.promotion.queue.len() + samples.len() <= f.promotion.cap
    &&& f.promotion.sent + samples.len() <= usize::MAX
}

/// What the first of a run of new keys does: it is kept and offered for
/// promotion, nothing is offered for demotion, and the rest of the run are
/// new keys that fit again.
proof fn lemma_new_key_step(f: Flow, samples: Seq<Sample>)
    requires
        new_keys_fit(f, samples),
        samples.len() > 0,
    ensures
        ({
            let first = hpage_of(samples[0].va);
            let g = identify_one(f, samples[0]);
            &&& new_keys_fit(g, samples.drop_first())
            &&& g.demotion == f.demotion
            &&& g.promotion == f.promotion.after_send(first)
            &&& g.sketch.k == f.sketch.k
            &&& g.sketch.heap == push_spec(f.sketch.heap, (first, sketch_report(f.sketch, first).0))
            &&& g.sketch.heap.len() == f.sketch.heap.len() + 1
            &&& identify_all(f, samples) == identify_all(g, samples.drop_first())
            &&& keys_of(samples) == seq![first] + keys_of(samples.drop_first())
        }),
{
    let first = hpage_of(samples[0].va);
    let rest = samples.drop_first();
    let g = identify_one(f, samples[0]);
    assert(!has_key(f.sketch.heap, hpage_of(samples[0].va)));
    let count = sketch_report(f.sketch, first).0;
    assert(g.sketch.heap == push_spec(f.sketch.heap, (first, count)));
    lemma_push_keys(f.sketch.heap, (first, count), first);
    assert forall|i: int| 0 <= i < rest.len() implies !has_key(
        g.sketch.heap,
        hpage_of(#[trigger] rest[i].va),
    ) by {
        assert(rest[i] == samples[i + 1]);
        assert(hpage_of(samples[0].va) != hpage_of(samples[i + 1].va));
        assert(!has_key(f.sketch.heap, hpage_of(samples[i + 1].va)));
        lemma_push_keys(f.sketch.heap, (first, count), hpage_of(rest[i].va));
    }
    assert forall|i: int, j: int| 0 <= i < j < rest.len() implies hpage_of(rest[i].va) != hpage_of(
        rest[j].va,
    ) by {
        assert(rest[i] == samples[i + 1]);
        assert(rest[j] == samples[j + 1]);
    }
    assert(keys_of(samples) =~= seq![first] + keys_of(rest));
}

/// New keys while there is room: every key of the run is offered for
/// promotion once, in the order of the samples; no key is pushed out, so
/// that the heap grows by one key for each sample; and nothing is offered
/// for demotion.
pub proof fn lemma_new_keys_while_room(f: Flow, samples: Seq<Sample>)
    requires
        new_keys_fit(f, samples),
    ensures
        ({
            let done = identify_all(f, samples);
            &&& done.demotion == f.demotion
            &&& done.promotion == (RingView {
                cap: f.promotion.cap,
                queue: f.promotion.queue + keys_of(samples),
                sent: f.promotion.sent + samples.len(),
            })
            &&& done.sketch.k == f.sketch.k
            &&& done.sketch.heap.len() == f.sketch.heap.len() + samples.len()
        }),
    decreases samples.len(),
{
    let done = identify_all(f, samples);
    let keys = keys_of(samples);
    if samples.len() == 0 {
        assert(f.promotion.queue + keys =~= f.promotion.queue);
    } else {
        lemma_new_key_step(f, samples);
        let g = identify_one(f, samples[0]);
        lemma_new_keys_while_room(g, samples.drop_first());
        assert(done.promotion.queue =~= f.promotion.queue + keys);
    }
}

/// New keys while there is room: after the run the keys kept are the keys
/// kept before and the keys of the run, and no others.
pub proof fn lemma_new_keys_are_kept(f: Flow, samples: Seq<Sample>, key: u64)
    requires
        new_keys_fit(f, samples),
    ensures
        has_key(identify_all(f, samples).sketch.heap, key) <==> has_key(f.sketch.heap, key)
            || keys_of(samples).contains(key),
    decreases samples.len(),
{
    let keys = keys_of(samples);
    if samples.len() == 0 {
        assert(!keys.contains(key));
    } else {
        lemma_new_key_step(f, samples);
        let first = hpage_of(samples[0].va);
        let rest = samples.drop_first();
        let g = identify_one(f, samples[0]);
        lemma_new_keys_are_kept(g, rest, key);
        lemma_push_keys(f.sketch.heap, (first, sketch_report(f.sketch, first).0), key);
        if keys.contains(key) {
            let i = choose|i: int| 0 <= i < keys.len() && keys[i] == key;
            if i > 0 {
                assert(keys_of(rest)[i - 1] == key);
            }
        }
        if keys_of(rest).contains(key) {
            let i = choose|i: int| 0 <= i < keys_of(rest).len() && keys_of(rest)[i] == key;
            assert(keys[i + 1] == key);
        }
        if key == first {
            assert(keys[0] == key);
        }
    }
}

/// A run of samples of one key that is the only key kept. The counters of
/// the key have reached `floor`. Then nothing is offered for promotion or
/// demotion, the key stays the only key kept, and its count has risen by at
/// least the number of samples.
pub proof fn lemma_kept_key_run(g: Flow, samples: Seq<Sample>, key: u64, floor: int)
    requires
        forall|i: int| 0 <= i < samples.len() ==> hpage_of(#[trigger] samples[i].va) == key,
        shaped(g.sketch.table, g.sketch.w),
        g.sketch.heap.len() == 1,
        g.sketch.heap[0].0 == key,
        g.sketch.heap[0].1 >= floor || g.sketch.heap[0].1 == u64::MAX,
        counters_at_least(g.sketch.table, g.sketch.w, key, floor),
    ensures
        ({
            let done = identify_all(g, samples);
            &&& done.promotion == g.promotion
            &&& done.demotion == g.demotion
            &&& done.sent == g.sent
            &&& done.sketch.k == g.sketch.k
            &&& done.sketch.heap.len() == 1
            &&& done.sketch.heap[0].0 == key
            &&& done.sketch.heap[0].1 >= floor + samples.len() || done.sketch.heap[0].1
                == u64::MAX
            &&& g.received + samples.len() <= u64::MAX ==> done.received == g.received
                + samples.len()
        }),
    decreases samples.len(),
{
    if samples.len() > 0 {
        let rest = samples.drop_first();
        let h = identify_one(g, samples[0]);
        assert(hpage_of(samples[0].va) == key);
        assert(has_key(g.sketch.heap, key)) by {
            assert(g.sketch.heap[0].0 == key);
        }
        let table = bumped(g.sketch.table, g.sketch.w, key);
        let count = estimate(table, g.sketch.w, key);
        lemma_bumped_keeps_shape(g.sketch.table, g.sketch.w, key);
        lemma_bumped_raises_floor(g.sketch.table, g.sketch.w, key, floor);
        lemma_estimate_floor(table, g.sketch.w, key, floor + 1, table.len() as int);
        let at = position_of(g.sketch.heap, key);
        assert(at == 0);
        assert(h.sketch.heap == update_spec(g.sketch.heap, 0, count));
        assert(h.sketch.heap =~= seq![(key, count)]);
        assert forall|i: int| 0 <= i < rest.len() implies hpage_of(#[trigger] rest[i].va)
            == key by {
            assert(rest[i] == samples[i + 1]);
        }
        lemma_kept_key_run(h, rest, key, floor + 1);
    }
}

/// A run of samples that all lie in one huge page, taken in by a sketch that
/// keeps keys but holds none yet, with room in the promotion ring: the huge
/// page is offered for promotion once, nothing is offered for demotion, and
/// after the run it is the one key kept, with a count of at least the number
/// of samples (or the largest count there is).
pub proof fn lemma_one_key_run(f: Flow, samples: Seq<Sample>, key: u64)
    requires
        samples.len() >= 1,
        forall|i: int| 0 <= i < samples.len() ==> hpage_of(#[trigger] samples[i].va) == key,
        shaped(f.sketch.table, f.sketch.w),
        f.sketch.heap.len() == 0,
        f.sketch.k >= 1,
        f.promotion.accepts(),
    ensures
        ({
            let done = identify_all(f, samples);
            &&& done.promotion == f.promotion.after_send(key)
            &&& done.demotion == f.demotion
            &&& done.sent == next_count(f.sent)
            &&& done.sketch.heap.len() == 1
            &&& done.sketch.heap[0].0 == key
            &&& done.sketch.heap[0].1 >= samples.len() || done.sketch.heap[0].1 == u64::MAX
            &&& f.received + samples.len() <= u64::MAX ==> done.received == f.received
                + samples.len()
        }),
{
    let rest = samples.drop_first();
    let g = identify_one(f, samples[0]);
    assert(hpage_of(samples[0].va) == key);
    assert(!has_key(f.sketch.heap, key));
    let table = bumped(f.sketch.table, f.sketch.w, key);
    let count = estimate(table, f.sketch.w, key);
    assert(counters_at_least(f.sketch.table, f.sketch.w, key, 0));
    lemma_bumped_keeps_shape(f.sketch.table, f.sketch.w, key);
    lemma_bumped_raises_floor(f.sketch.table, f.sketch.w, key, 0);
    lemma_estimate_floor(table, f.sketch.w, key, 1, table.len() as int);
    assert(g.sketch.heap == push_spec(f.sketch.heap, (key, count)));
    assert(f.sketch.heap =~= Seq::<Entry>::empty());
    assert(g.sketch.heap =~= seq![(key, count)]);
    assert forall|i: int| 0 <= i < rest.len() implies hpage_of(#[trigger] rest[i].va) == key by {
        assert(rest[i] == samples[i + 1]);
    }
    lemma_kept_key_run(g, rest, key, 1);
}

/// Taking in one run of samples and then another is taking in the two in
/// one.
pub proof fn lemma_identify_in_parts(f: Flow, first: Seq<Sample>, then: Seq<Sample>)
    ensures
        identify_all(f, first + then) == identify_all(identify_all(f, first), then),
    decreases first.len(),
{
    if first.len() == 0 {
        assert(first + then =~= then);
    } else {
        assert((first + then)[0] == first[0]);
        assert((first + then).drop_first() =~= first.drop_first() + then);
        lemma_identify_in_parts(identify_one(f, first[0]), first.drop_first(), then);
    }
}

/// A key that is not kept and does not beat the root. The heap is full, the
/// counters of the key all stand at `seen`, and even after all the samples
/// the count is not above the root's. Then nothing is offered and the heap
/// stays as it is; the counters have risen by the number of samples.
pub proof fn lemma_cold_key_waits(f: Flow, samples: Seq<Sample>, key: u64, seen: int)
    requires
        forall|i: int| 0 <= i < samples.len() ==> hpage_of(#[trigger] samples[i].va) == key,
        shaped(f.sketch.table, f.sketch.w),
        f.sketch.table.len() >= 1,
        counters_exactly(f.sketch.table, f.sketch.w, key, seen),
        !has_key(f.sketch.heap, key),
        f.sketch.heap.len() >= f.sketch.k,
        f.sketch.heap.len() > 0,
        seen + samples.len() <= f.sketch.heap[0].1,
    ensures
        ({
            let done = identify_all(f, samples);
            &&& done.promotion == f.promotion
            &&& done.demotion == f.demotion
            &&& done.sent == f.sent
            &&& done.sketch.heap == f.sketch.heap
            &&& done.sketch.k == f.sketch.k
            &&& done.sketch.w == f.sketch.w
            &&& shaped(done.sketch.table, done.sketch.w)
            &&& done.sketch.table.len() == f.sketch.table.len()
            &&& counters_exactly(done.sketch.table, done.sketch.w, key, seen + samples.len())
        }),
    decreases samples.len(),
{
    if samples.len() > 0 {
        let rest = samples.drop_first();
        let g = identify_one(f, samples[0]);
        assert(hpage_of(samples[0].va) == key);
        let table = bumped(f.sketch.table, f.sketch.w, key);
        lemma_bumped_keeps_shape(f.sketch.table, f.sketch.w, key);
        lemma_bumped_exact(f.sketch.table, f.sketch.w, key, seen);
        lemma_estimate_exact(table, f.sketch.w, key, seen + 1, table.len() as int);
        assert forall|i: int| 0 <= i < rest.len() implies hpage_of(#[trigger] rest[i].va)
            == key by {
            assert(rest[i] == samples[i + 1]);
        }
        lemma_cold_key_waits(g, rest, key, seen + 1);
    }
}

/// A key that is kept. Its counters all stand at `seen`. Then nothing is
/// offered, the heap holds as many keys as before, the key among them, and
/// after at least one sample the key is kept with a count of `seen` and the
/// number of samples.
pub proof fn lemma_kept_key_counts(g: Flow, samples: Seq<Sample>, key: u64, seen: int)
    requires
        forall|i: int| 0 <= i < samples.len() ==> hpage_of(#[trigger] samples[i].va) == key,
        shaped(g.sketch.table, g.sketch.w),
        g.sketch.table.len() >= 1,
        counters_exactly(g.sketch.table, g.sketch.w, key, seen),
        seen + samples.len() <= u64::MAX,
        has_key(g.sketch.heap, key),
    ensures
        ({
            let done = identify_all(g, samples);
            &&& done.promotion == g.promotion
            &&& done.demotion == g.demotion
            &&& done.sent == g.sent
            &&& done.sketch.k == g.sketch.k
            &&& done.sketch.heap.len() == g.sketch.heap.len()
            &&& has_key(done.sketch.heap, key)
            &&& samples.len() > 0 ==> done.sketch.heap.contains(
                (key, (seen + samples.len()) as u64),
            )
        }),
    decreases samples.len(),
{
    if samples.len() > 0 {
        let rest = samples.drop_first();
        let h = identify_one(g, samples[0]);
        assert(hpage_of(samples[0].va) == key);
        let table = bumped(g.sketch.table, g.sketch.w, key);
        let count = estimate(table, g.sketch.w, key);
        lemma_bumped_keeps_shape(g.sketch.table, g.sketch.w, key);
        lemma_bumped_exact(g.sketch.table, g.sketch.w, key, seen);
        lemma_estimate_exact(table, g.sketch.w, key, seen + 1, table.len() as int);
        let at = position_of(g.sketch.heap, key);
        let put = g.sketch.heap.update(at, (key, count));
        assert(h.sketch.heap == replace_spec(g.sketch.heap, at, (key, count)));
        lemma_replace_entries(g.sketch.heap, at, (key, count));
        assert(put[at] == (key, count));
        assert(put.contains((key, count)));
        lemma_same_entries(put, h.sketch.heap, (key, count));
        assert(has_key(put, key));
        lemma_same_entries_same_keys(put, h.sketch.heap, key);
        assert forall|i: int| 0 <= i < rest.len() implies hpage_of(#[trigger] rest[i].va)
            == key by {
            assert(rest[i] == samples[i + 1]);
        }
        lemma_kept_key_counts(h, rest, key, seen + 1);
    }
}

/// A key that is kept leaves the other keys as they are: a key other than
/// it is kept after the run exactly if it was kept before.
pub proof fn lemma_kept_key_keeps_others(g: Flow, samples: Seq<Sample>, key: u64, other: u64)
    requires
        forall|i: int| 0 <= i < samples.len() ==> hpage_of(#[trigger] samples[i].va) == key,
        has_key(g.sketch.heap, key),
        other != key,
    ensures
        has_key(identify_all(g, samples).sketch.heap, key),
        has_key(identify_all(g, samples).sketch.heap, other) <==> has_key(g.sketch.heap, other),
    decreases samples.len(),
{
    if samples.len() > 0 {
        let rest = samples.drop_first();
        let h = identify_one(g, samples[0]);
        assert(hpage_of(samples[0].va) == key);
        let count = sketch_report(g.sketch, key).0;
        let at = position_of(g.sketch.heap, key);
        let put = g.sketch.heap.update(at, (key, count));
        assert(h.sketch.heap == replace_spec(g.sketch.heap, at, (key, count)));
        lemma_replace_entries(g.sketch.heap, at, (key, count));
        assert(put[at].0 == key);
        lemma_same_entries_same_keys(put, h.sketch.heap, key);
        lemma_same_entries_same_keys(put, h.sketch.heap, other);
        lemma_same_entries_same_keys(h.sketch.heap, put, other);
        if has_key(put, other) {
            let i = choose|i: int| 0 <= i < put.len() && (#[trigger] put[i]).0 == other;
            assert(g.sketch.heap[i].0 == other);
        }
        if has_key(g.sketch.heap, other) {
            let i = choose|i: int|
                0 <= i < g.sketch.heap.len() && (#[trigger] g.sketch.heap[i]).0 == other;
            assert(put[i].0 == other);
        }
        assert forall|i: int| 0 <= i < rest.len() implies hpage_of(#[trigger] rest[i].va)
            == key by {
            assert(rest[i] == samples[i + 1]);
        }
        lemma_kept_key_keeps_others(h, rest, key, other);
    }
}

/// A new key that grows hotter than the coldest key kept. The heap is full
/// of keys that differ, none of them `key`; the counters of `key` all stand
/// at 0, and there are more samples of `key` than the count of the root.
/// Both candidate rings have room. Then `key` is offered for promotion once,
/// at the sample that lifts its count above the root's, and the key of the
/// root is offered for demotion at that sample and no other. After the run
/// the heap holds as many keys as before, `key` among them with a count of
/// the number of samples, and the key of the former root no longer.
pub proof fn lemma_cold_eviction(f: Flow, samples: Seq<Sample>, key: u64)
    requires
        forall|i: int| 0 <= i < samples.len() ==> hpage_of(#[trigger] samples[i].va) == key,
        shaped(f.sketch.table, f.sketch.w),
        f.sketch.table.len() >= 1,
        counters_exactly(f.sketch.table, f.sketch.w, key, 0),
        !has_key(f.sketch.heap, key),
        distinct_keys(f.sketch.heap),
        f.sketch.heap.len() == f.sketch.k,
        f.sketch.k >= 1,
        samples.len() > f.sketch.heap[0].1,
        samples.len() <= u64::MAX,
        f.promotion.accepts(),
        f.demotion.accepts(),
    ensures
        ({
            let done = identify_all(f, samples);
            let root = f.sketch.heap[0];
            &&& done.promotion == f.promotion.after_send(key)
            &&& done.demotion == f.demotion.after_send(root.0)
            &&& done.sketch.heap.len() == f.sketch.k
            &&& has_key(done.sketch.heap, key)
            &&& done.sketch.heap.contains((key, samples.len() as u64))
            &&& !has_key(done.sketch.heap, root.0)
        }),
{
    let root = f.sketch.heap[0];
    let wait = root.1 as int;
    let before = samples.take(wait);
    let from = samples.skip(wait);
    let after = from.drop_first();
    assert(samples =~= before + from);
    lemma_identify_in_parts(f, before, from);
    assert forall|i: int| 0 <= i < before.len() implies hpage_of(#[trigger] before[i].va)
        == key by {
        assert(before[i] == samples[i]);
    }
    lemma_cold_key_waits(f, before, key, 0);
    let waited = identify_all(f, before);
    // the sample that lifts the count above the root's
    assert(from[0] == samples[wait]);
    assert(hpage_of(from[0].va) == key);
    let table = bumped(waited.sketch.table, waited.sketch.w, key);
    lemma_bumped_keeps_shape(waited.sketch.table, waited.sketch.w, key);
    lemma_bumped_exact(waited.sketch.table, waited.sketch.w, key, wait);
    lemma_estimate_exact(table, waited.sketch.w, key, wait + 1, table.len() as int);
    let count = (wait + 1) as u64;
    let lifted = identify_one(waited, from[0]);
    assert(lifted.sketch.heap == replace_spec(f.sketch.heap, 0, (key, count)));
    let put = f.sketch.heap.update(0, (key, count));
    lemma_replace_entries(f.sketch.heap, 0, (key, count));
    assert(put[0].0 == key);
    lemma_same_entries_same_keys(put, lifted.sketch.heap, key);
    assert(!has_key(put, root.0)) by {
        if has_key(put, root.0) {
            let i = choose|i: int| 0 <= i < put.len() && (#[trigger] put[i]).0 == root.0;
            assert(i != 0);
            assert(f.sketch.heap[i].0 == f.sketch.heap[0].0);
        }
    }
    assert(root.0 != key) by {
        assert(f.sketch.heap[0].0 == root.0);
    }
    lemma_same_entries_same_keys(lifted.sketch.heap, put, root.0);
    assert(put.contains((key, count)));
    lemma_same_entries(put, lifted.sketch.heap, (key, count));
    // the samples after it
    assert forall|i: int| 0 <= i < after.len() implies hpage_of(#[trigger] after[i].va)
        == key by {
        assert(after[i] == samples[wait + 1 + i]);
    }
    lemma_kept_key_counts(lifted, after, key, wait + 1);
    lemma_kept_key_keeps_others(lifted, after, key, root.0);
    assert(identify_all(waited, from) == identify_all(lifted, after));
}

} // verus!
