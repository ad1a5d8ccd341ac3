//! Collection: what the overflow handler of one processor's counter does
//! with a sample.

use crate::event::Sample;
use crate::helper::{
    EventAttr, SampleData, EVENT_ATTR_EXCLUDE_CALLCHAIN_KERNEL, EVENT_ATTR_EXCLUDE_HV,
    EVENT_ATTR_EXCLUDE_IDLE, EVENT_ATTR_EXCLUDE_KERNEL,
    EVENT_ATTR_SAMPLE_IP_ZERO_SKID, EVENT_ATTR_SIZE, IDENTIFIATION_PERIOD, PERF_SAMPLE_ADDR,
    PERF_SAMPLE_TID, PERF_SAMPLE_WEIGHT, PERF_TYPE_RAW,
};
use crate::identification::next_count;
use crate::spsc::{Ring, RingView};
use vstd::prelude::*;

verus! {

/// What became of a sample.
#[derive(Clone, Copy, Debug, PartialEq, Eq, Structural)]
pub enum Collected {
    /// Its address lies outside the tracked region; it was discarded.
    Invalid,
    /// The ring was full; it was dropped.
    Dropped,
    /// It was put into the ring. `queue_identification` says whether
    /// identification is now to be asked for.
    Sent { queue_identification: bool },
}

/// The collection side of one processor.
pub struct CollectionContext {
    cpu: i32,
    collected: u64,
    invalid: u64,
}

/// What the collection side of one processor holds.
pub struct CollectionView {
    pub cpu: i32,
    /// Samples put into the ring so far, modulo 2^64.
    pub collected: u64,
    /// Samples discarded so far, modulo 2^64.
    pub invalid: u64,
}

impl View for CollectionContext {
    type V = CollectionView;

    closed spec fn view(&self) -> CollectionView {
        CollectionView { cpu: self.cpu, collected: self.collected, invalid: self.invalid }
    }
}

/// The sample made of a counter record: it gets the running number `id`, the
/// address and the weight of the record, and no physical address.
pub open spec fn shaped(data: SampleData, id: u64) -> Sample {
    Sample { id, va: data.addr, lat: data.weight, pa: 0 }
}

/// The attributes the counter is opened with: a raw event `config` with
/// threshold `threshold`, sampled once in `period` events, that records
/// thread, address and weight, leaves out the kernel, the hypervisor, the
/// idle task and the kernel part of call chains, and asks for instruction
/// pointers with no skid.
pub open spec fn sampling_attr(config: u64, threshold: u64, period: u64) -> EventAttr {
    EventAttr {
        typ: PERF_TYPE_RAW,
        size: EVENT_ATTR_SIZE,
        config,
        sample_period: period,
        sample_type: PERF_SAMPLE_TID | PERF_SAMPLE_ADDR | PERF_SAMPLE_WEIGHT,
        read_format: 0,
        flags: EVENT_ATTR_SAMPLE_IP_ZERO_SKID | EVENT_ATTR_EXCLUDE_KERNEL | EVENT_ATTR_EXCLUDE_HV
            | EVENT_ATTR_EXCLUDE_IDLE | EVENT_ATTR_EXCLUDE_CALLCHAIN_KERNEL,
        wakeup: 0,
        bp_type: 0,
        config1: threshold,
        config2: 0,
        branch_sample_type: 0,
        sample_regs_user: 0,
        sample_stack_user: 0,
        clockid: 0,
        sample_regs_intr: 0,
        aux_watermark: 0,
        sample_max_stack: 0,
        __reserved_2: 0,
        aux_sample_size: 0,
        __reserved_3: 0,
        sig_data: 0,
        config3: 0,
    }
}

/// What `drain_pebs` does with the record `data`: the state of the context
/// and of its ring afterwards, and what became of the sample.
pub open spec fn drained(
    c: CollectionView,
    ring: RingView<Sample>,
    data: SampleData,
    in_region: bool,
    id: u64,
) -> (CollectionView, RingView<Sample>, Collected) {
    if !in_region {
        (CollectionView { invalid: next_count(c.invalid), ..c }, ring, Collected::Invalid)
    } else if !ring.accepts() {
        (c, ring, Collected::Dropped)
    } else {
        (
            CollectionView { collected: next_count(c.collected), ..c },
            ring.after_send(shaped(data, id)),
            Collected::Sent {
                queue_identification: next_count(c.collected) % IDENTIFIATION_PERIOD == 0,
            },
        )
    }
}

impl CollectionContext {
    /// The collection side of processor `cpu`, with nothing collected yet.
    pub fn new(cpu: i32) -> (context: Self)
        ensures
            context@ == (CollectionView { cpu, collected: 0, invalid: 0 }),
    {
        CollectionContext { cpu, collected: 0, invalid: 0 }
    }

    /// The attributes to open the counter with.
    pub fn event_attr(config: u64, threshold: u64, period: u64) -> (attr: EventAttr)
        ensures
            attr == sampling_attr(config, threshold, period),
    {
        EventAttr {
            typ: PERF_TYPE_RAW,
            size: EVENT_ATTR_SIZE,
            config,
            sample_period: period,
            sample_type: PERF_SAMPLE_TID | PERF_SAMPLE_ADDR | PERF_SAMPLE_WEIGHT,
            read_format: 0,
            flags: EVENT_ATTR_SAMPLE_IP_ZERO_SKID | EVENT_ATTR_EXCLUDE_KERNEL
                | EVENT_ATTR_EXCLUDE_HV | EVENT_ATTR_EXCLUDE_IDLE
                | EVENT_ATTR_EXCLUDE_CALLCHAIN_KERNEL,
            wakeup: 0,
            bp_type: 0,
            config1: threshold,
            config2: 0,
            branch_sample_type: 0,
            sample_regs_user: 0,
            sample_stack_user: 0,
            clockid: 0,
            sample_regs_intr: 0,
            aux_watermark: 0,
            sample_max_stack: 0,
            __reserved_2: 0,
            aux_sample_size: 0,
            __reserved_3: 0,
            sig_data: 0,
            config3: 0,
        }
    }

    /// Takes in the record of one counter overflow. `in_region` says whether
    /// the sampled address lies in the tracked region; `id` is the running
    /// number for the sample, used only if it does. A sample in the region
    /// is put into `tx` unless that is full; once in every
    /// `IDENTIFIATION_PERIOD` samples put in, identification is asked for.
    pub fn drain_pebs(
        &mut self,
        data: &SampleData,
        in_region: bool,
        id: u64,
        tx: &mut Ring<Sample>,
    ) -> (outcome: Collected)
        requires
            old(tx).wf(),
        ensures
            final(tx).wf(),
            (final(self)@, final(tx)@, outcome) == drained(old(self)@, old(tx)@, *data, in_region, id),
    {
        if !in_region {
            self.invalid = if self.invalid == u64::MAX {
                0
            } else {
                self.invalid + 1
            };
            return Collected::Invalid;
        }
        let sample = Sample { id, va: data.addr, lat: data.weight, pa: 0 };
        // ignore if full
        if tx.send(sample).is_ok() {
            self.collected = if self.collected == u64::MAX {
                0
            } else {
                self.collected + 1
            };
            Collected::Sent { queue_identification: self.collected % IDENTIFIATION_PERIOD == 0 }
        } else {
            Collected::Dropped
        }
    }

    /// The processor this context collects on.
    pub fn cpu(&self) -> (cpu: i32)
        ensures
            cpu == self@.cpu,
    {
        self.cpu
    }

    /// Samples put into the ring so far, modulo 2^64.
    pub fn collected(&self) -> (n: u64)
        ensures
            n == self@.collected,
    {
        self.collected
    }

    /// Samples discarded so far, modulo 2^64.
    pub fn invalid(&self) -> (n: u64)
        ensures
            n == self@.invalid,
    {
        self.invalid
    }
}

} // verus!
