//! The migrator: the whole pipeline for one process, from the sample rings
//! of the processors through identification to the migration worker.

use crate::collection::{drained, Collected, CollectionContext, CollectionView};
use crate::event::Sample;
use crate::helper::{Exhausted, Pid, SampleData};
use crate::identification::{
    emptied, identify_all, queued_in, ring_views, Flow, IdentificationContext,
    IdentificationView,
};
use crate::migration::{
    fresh_worker, migrate_spec, migration_valid, step_spec, Action, Event, MigrationContext,
    MigrationView,
};
use crate::sdh::{fresh_sketch, SDH};
use crate::spsc::{empty_ring, Ring, RingView};
use vstd::prelude::*;

verus! {

/// The options the agent is loaded with.
#[derive(Clone, Copy, Debug)]
pub struct Config {
    /// Columns of the sketch.
    pub sdh_w: usize,
    /// Rows of the sketch.
    pub sdh_d: usize,
    /// Heavy hitters the sketch keeps.
    pub sdh_k: usize,
    /// Raw encoding of the event to sample.
    pub event_config: u64,
    /// Latency threshold of the event.
    pub event_threshold: u64,
    /// One sample is taken in this many events.
    pub event_period: u64,
    /// Capacity of every ring.
    pub channel_capacity: usize,
    /// Whether the kept keys are to be dumped on shutdown.
    pub dump_topk: bool,
}

/// What a migrator holds.
pub struct MigratorView {
    pub pid: Pid,
    /// The collection side of each processor.
    pub collection: Seq<CollectionView>,
    /// The sample ring of each processor.
    pub samples: Seq<RingView<Sample>>,
    /// The ring of candidates for promotion.
    pub promotion: RingView<u64>,
    /// The ring of candidates for demotion.
    pub demotion: RingView<u64>,
    pub identification: IdentificationView,
    pub migration: MigrationView,
}

/// A pipeline for process `pid` that has seen no sample yet: over the rings
/// given it has one collection side per sample ring, numbered from 0, a
/// fresh sketch of the size that `config` names, and a worker started at
/// time `now` with node `dram_node` for the fast tier.
pub open spec fn fresh_pipeline(
    pid: Pid,
    config: Config,
    dram_node: i32,
    now: u64,
    promotion: RingView<u64>,
    demotion: RingView<u64>,
    samples: Seq<RingView<Sample>>,
) -> MigratorView {
    MigratorView {
        pid,
        collection: Seq::new(
            samples.len(),
            |i: int| (CollectionView { cpu: i as i32, collected: 0, invalid: 0 }),
        ),
        samples,
        promotion,
        demotion,
        identification: IdentificationView {
            sketch: fresh_sketch(config.sdh_w as nat, config.sdh_d as nat, config.sdh_k as nat),
            received: 0,
        },
        migration: fresh_worker(pid, dram_node, now),
    }
}

/// What `collect` does on processor `cpu`.
pub open spec fn collect_spec(
    v: MigratorView,
    cpu: int,
    data: SampleData,
    in_region: bool,
    id: u64,
) -> (MigratorView, Collected) {
    let done = drained(v.collection[cpu], v.samples[cpu], data, in_region, id);
    (
        MigratorView {
            collection: v.collection.update(cpu, done.0),
            samples: v.samples.update(cpu, done.1),
            ..v
        },
        done.2,
    )
}

/// What `identify` does: every sample ring is drained into the sketch, and
/// the result says whether migration is to be asked for.
pub open spec fn identify_spec(v: MigratorView) -> (MigratorView, bool) {
    let done = identify_all(
        (Flow {
            sketch: v.identification.sketch,
            promotion: v.promotion,
            demotion: v.demotion,
            sent: 0,
            queued: false,
            received: v.identification.received,
        }),
        queued_in(v.samples),
    );
    (
        MigratorView {
            samples: Seq::new(v.samples.len(), |i: int| emptied(v.samples[i])),
            promotion: done.promotion,
            demotion: done.demotion,
            identification: IdentificationView { sketch: done.sketch, received: done.received },
            ..v
        },
        done.queued,
    )
}

/// The whole pipeline for one process.
pub struct Migrator {
    pid: Pid,
    collection: Vec<CollectionContext>,
    samples: Vec<Ring<Sample>>,
    promotion: Ring<u64>,
    demotion: Ring<u64>,
    identification: IdentificationContext,
    migration: MigrationContext,
}

impl View for Migrator {
    type V = MigratorView;

    closed spec fn view(&self) -> MigratorView {
        MigratorView {
            pid: self.pid,
            collection: Seq::new(self.collection@.len(), |i: int| self.collection@[i]@),
            samples: Seq::new(self.samples@.len(), |i: int| self.samples@[i]@),
            promotion: self.promotion@,
            demotion: self.demotion@,
            identification: self.identification@,
            migration: self.migration@,
        }
    }
}

impl Migrator {
    /// Every part is well formed and every processor has its ring.
    pub closed spec fn wf(&self) -> bool {
        &&& self.collection@.len() == self.samples@.len()
        &&& forall|i: int| 0 <= i < self.samples@.len() ==> (#[trigger] self.samples@[i]).wf()
        &&& self.promotion.wf()
        &&& self.demotion.wf()
        &&& self.identification.wf()
        &&& self.migration.wf()
    }

    /// A well-formed migrator has one ring per processor and a valid worker.
    pub proof fn lemma_wf_valid(&self)
        requires
            self.wf(),
        ensures
            self@.collection.len() == self@.samples.len(),
            migration_valid(self@.migration),
    {
    }

    /// The pipeline for process `pid` on a machine with `ncpu` processors,
    /// with empty rings, a fresh sketch and a worker started at time `now`
    /// that has node `dram_node` for the fast tier; or the reason why the
    /// memory for it could not be had. Rings without slots, a sketch without
    /// rows and no kept keys need no memory: then the pipeline is always
    /// made.
    pub fn new(pid: Pid, ncpu: usize, config: &Config, dram_node: i32, now: u64) -> (made: Result<
        Migrator,
        Exhausted,
    >)
        requires
            config.sdh_w > 0,
            0 <= dram_node < i32::MAX,
            ncpu <= i32::MAX,
        ensures
            config.channel_capacity == 0 && config.sdh_d == 0 && config.sdh_k == 0
                ==> made.is_ok(),
            made.is_ok() ==> made.unwrap().wf() && made.unwrap()@ == fresh_pipeline(
                pid,
                *config,
                dram_node,
                now,
                empty_ring::<u64>(config.channel_capacity as nat),
                empty_ring::<u64>(config.channel_capacity as nat),
                Seq::new(ncpu as nat, |i: int| empty_ring::<Sample>(config.channel_capacity as nat)),
            ),
    {
        let promotion = match Ring::with_capacity(config.channel_capacity) {
            Ok(ring) => ring,
            Err(e) => {
                return Err(Exhausted::Array(e));
            },
        };
        let demotion = match Ring::with_capacity(config.channel_capacity) {
            Ok(ring) => ring,
            Err(e) => {
                return Err(Exhausted::Array(e));
            },
        };
        let migration = match MigrationContext::new(
            pid,
            dram_node,
            config.sdh_k,
            config.channel_capacity,
            now,
        ) {
            Ok(migration) => migration,
            Err(e) => {
                return Err(e);
            },
        };
        let mut samples: Vec<Ring<Sample>> = Vec::new();
        let mut cpu: usize = 0;
        while cpu < ncpu
            invariant
                cpu <= ncpu,
                samples@.len() == cpu,
                forall|i: int|
                    0 <= i < cpu ==> (#[trigger] samples@[i]).wf() && samples@[i]@ == empty_ring::<
                        Sample,
                    >(config.channel_capacity as nat),
            decreases ncpu - cpu,
        {
            let ring = match Ring::<Sample>::with_capacity(config.channel_capacity) {
                Ok(ring) => ring,
                Err(e) => {
                    return Err(Exhausted::Array(e));
                },
            };
            samples.push(ring);
            cpu += 1;
        }
        let sdh = match SDH::new(config.sdh_w, config.sdh_d, config.sdh_k) {
            Ok(sdh) => sdh,
            Err(e) => {
                return Err(e);
            },
        };
        proof {
            assert(ring_views(samples@) =~= Seq::new(
                ncpu as nat,
                |i: int| empty_ring::<Sample>(config.channel_capacity as nat),
            ));
        }
        Ok(Self::with_parts(pid, promotion, demotion, samples, sdh, migration))
    }

    /// The pipeline for process `pid` made of the parts given: the rings
    /// `promotion` and `demotion` for the candidates, one ring of `samples`
    /// for each processor, the sketch `sdh` and the worker `migration`. It
    /// has one collection side for each sample ring, numbered from 0, that
    /// has collected nothing, and has identified no sample yet.
    pub fn with_parts(
        pid: Pid,
        promotion: Ring<u64>,
        demotion: Ring<u64>,
        samples: Vec<Ring<Sample>>,
        sdh: SDH,
        migration: MigrationContext,
    ) -> (migrator: Migrator)
        requires
            samples@.len() <= i32::MAX,
            promotion.wf(),
            demotion.wf(),
            forall|i: int| 0 <= i < samples@.len() ==> (#[trigger] samples@[i]).wf(),
            sdh.wf(),
            migration.wf(),
        ensures
            migrator.wf(),
            migrator@ == (MigratorView {
                pid,
                collection: Seq::new(
                    samples@.len(),
                    |i: int| (CollectionView { cpu: i as i32, collected: 0, invalid: 0 }),
                ),
                samples: ring_views(samples@),
                promotion: promotion@,
                demotion: demotion@,
                identification: IdentificationView { sketch: sdh@, received: 0 },
                migration: migration@,
            }),
    {
        let ncpu = samples.len();
        let mut collection: Vec<CollectionContext> = Vec::new();
        let mut cpu: usize = 0;
        while cpu < ncpu
            invariant
                cpu <= ncpu <= i32::MAX,
                collection@.len() == cpu,
                forall|i: int|
                    0 <= i < cpu ==> (#[trigger] collection@[i])@ == (CollectionView {
                        cpu: i as i32,
                        collected: 0,
                        invalid: 0,
                    }),
            decreases ncpu - cpu,
        {
            collection.push(CollectionContext::new(cpu as i32));
            cpu += 1;
        }
        let identification = IdentificationContext::new(sdh);
        let migrator = Migrator {
            pid,
            collection,
            samples,
            promotion,
            demotion,
            identification,
            migration,
        };
        proof {
            assert(migrator@.collection =~= Seq::new(
                samples@.len(),
                |i: int| (CollectionView { cpu: i as i32, collected: 0, invalid: 0 }),
            ));
            assert(migrator@.samples =~= ring_views(samples@));
        }
        migrator
    }

    /// Takes in the record of a counter overflow on processor `cpu`.
    pub fn collect(&mut self, cpu: usize, data: &SampleData, in_region: bool, id: u64) -> (outcome:
        Collected)
        requires
            old(self).wf(),
            cpu < old(self)@.samples.len(),
        ensures
            final(self).wf(),
            (final(self)@, outcome) == collect_spec(old(self)@, cpu as int, *data, in_region, id),
    {
        let outcome = self.collection[cpu].drain_pebs(data, in_region, id, &mut self.samples[cpu]);
        proof {
            let goal = collect_spec(old(self)@, cpu as int, *data, in_region, id).0;
            assert(self@.collection =~= goal.collection);
            assert(self@.samples =~= goal.samples);
        }
        outcome
    }

    /// Drains the sample rings into the sketch and returns whether migration
    /// is to be asked for.
    pub fn identify(&mut self) -> (queue_migration: bool)
        requires
            old(self).wf(),
        ensures
            final(self).wf(),
            (final(self)@, queue_migration) == identify_spec(old(self)@),
    {
        proof {
            assert(crate::identification::ring_views(self.samples@) =~= self@.samples);
        }
        let queue_migration = self.identification.identify_hotness(
            &mut self.samples,
            &mut self.promotion,
            &mut self.demotion,
        );
        proof {
            assert(self@.samples =~= identify_spec(old(self)@).0.samples);
            assert(self@.collection =~= old(self)@.collection);
        }
        queue_migration
    }

    /// Starts a run of the migration worker: it takes the candidates out of
    /// the two rings and asks whether the slow tier has space.
    pub fn migrate(&mut self) -> (action: Action)
        requires
            old(self).wf(),
        ensures
            final(self).wf(),
            final(self)@ == (MigratorView {
                promotion: RingView { queue: Seq::<u64>::empty(), ..old(self)@.promotion },
                demotion: RingView { queue: Seq::<u64>::empty(), ..old(self)@.demotion },
                migration: migrate_spec(
                    old(self)@.migration,
                    old(self)@.promotion.queue,
                    old(self)@.demotion.queue,
                ).0,
                ..old(self)@
            }),
            action == migrate_spec(
                old(self)@.migration,
                old(self)@.promotion.queue,
                old(self)@.demotion.queue,
            ).1,
    {
        let action = self.migration.migrate(&mut self.promotion, &mut self.demotion);
        proof {
            assert(self@.samples =~= old(self)@.samples);
            assert(self@.collection =~= old(self)@.collection);
        }
        action
    }

    /// Hands the migration worker the answer to what it last asked for.
    pub fn step(&mut self, event: Event) -> (action: Action)
        requires
            old(self).wf(),
        ensures
            final(self).wf(),
            final(self)@ == (MigratorView {
                migration: step_spec(old(self)@.migration, event).0,
                ..old(self)@
            }),
            action == step_spec(old(self)@.migration, event).1,
    {
        let action = self.migration.step(event);
        proof {
            assert(self@.samples =~= old(self)@.samples);
            assert(self@.collection =~= old(self)@.collection);
        }
        action
    }

    /// The process this migrator works for.
    pub fn pid(&self) -> (pid: Pid)
        ensures
            pid == self@.pid,
    {
        self.pid
    }

    /// The number of processors collected on.
    pub fn ncpu(&self) -> (n: usize)
        requires
            self.wf(),
        ensures
            n == self@.samples.len(),
    {
        self.samples.len()
    }

    /// The identification side.
    pub fn identification(&self) -> (context: &IdentificationContext)
        ensures
            context@ == self@.identification,
    {
        &self.identification
    }

    /// The migration worker.
    pub fn migration(&self) -> (worker: &MigrationContext)
        ensures
            worker@ == self@.migration,
    {
        &self.migration
    }

    /// How many candidates for promotion and for demotion are queued for the
    /// worker.
    pub fn queued(&self) -> (depth: (usize, usize))
        requires
            self.wf(),
        ensures
            depth.0 == self@.promotion.queue.len(),
            depth.1 == self@.demotion.queue.len(),
    {
        (self.promotion.len(), self.demotion.len())
    }
}

} // verus!
