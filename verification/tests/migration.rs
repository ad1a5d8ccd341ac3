use hagent::collection::Collected;
use hagent::helper::SampleData;
use hagent::migration::{Action, Event, Fault, MigrationContext};
use hagent::migrator::{Config, Migrator};
use hagent::helper::Exhausted;
use hagent::index::KeySet;
use hagent::sdh::SDH;
use hagent::spsc::Ring;

const DRAM: i32 = 0;
const PMEM: i32 = 1;
const SLOW_CLOCK: u64 = 1_000_000_000_000;

fn config(k: usize, capacity: usize) -> Config {
    Config {
        sdh_w: 4096,
        sdh_d: 4,
        sdh_k: k,
        event_config: 0x1cd,
        event_threshold: 64,
        event_period: 4001,
        channel_capacity: capacity,
        dump_topk: false,
    }
}

fn migrator(k: usize, capacity: usize) -> Migrator {
    Migrator::new(42, 2, &config(k, capacity), DRAM, 0).unwrap()
}

fn feed(m: &mut Migrator, cpu: usize, va: u64, times: usize) {
    for i in 0..times {
        let data = SampleData { addr: va, weight: 100, ..Default::default() };
        match m.collect(cpu, &data, true, i as u64) {
            Collected::Sent { .. } => {}
            other => panic!("sample not sent: {:?}", other),
        }
    }
}

fn all_on(node: i32) -> Event {
    Event::Status { ret: 0, status: vec![node; 512] }
}

fn worker_with(promotions: &[u64], demotions: &[u64]) -> MigrationContext {
    let mut worker = MigrationContext::new(42, DRAM, 8, 64, 0).unwrap();
    let mut p: Ring<u64> = Ring::with_capacity(64).unwrap();
    let mut d: Ring<u64> = Ring::with_capacity(64).unwrap();
    for x in promotions {
        p.send(*x).unwrap();
    }
    for x in demotions {
        d.send(*x).unwrap();
    }
    assert_eq!(worker.migrate(&mut p, &mut d), Action::AskSpace(PMEM));
    assert_eq!(p.len(), 0);
    assert_eq!(d.len(), 0);
    assert_eq!(worker.pending(), (promotions.len(), demotions.len()));
    worker
}

#[test]
fn single_hot_page_is_promoted_once() {
    let mut m = migrator(8, 4096);
    feed(&mut m, 0, 0x7f00_0012_3456, 2000);
    m.identify();
    assert_eq!(m.queued(), (1, 0));
    assert_eq!(m.identification().received(), 2000);
    assert_eq!(m.identification().sketch().dump_topk(), vec![(0x7f00_0000_0000, 2000)]);

    assert_eq!(m.migrate(), Action::AskSpace(PMEM));
    assert_eq!(m.queued(), (0, 0));
    assert_eq!(m.step(Event::Space(true)), Action::StatPages { demotion: false });
    let pages = m.migration().promotion_args().pages().to_vec();
    assert_eq!(pages.len(), 512);
    for (i, page) in pages.iter().enumerate() {
        assert_eq!(*page, 0x7f00_0000_0000 + 4096 * i as u64);
    }
    assert_eq!(m.step(all_on(PMEM)), Action::AskSpace(DRAM));
    assert_eq!(m.step(Event::Space(true)), Action::MovePages { demotion: false, len: 512 });
    assert_eq!(m.migration().promotion_args().pages(), &pages[..]);
    assert_eq!(m.migration().promotion_args().nodes(), &[DRAM; 512][..]);
    assert_eq!(m.migration().promotion_args().pid(), 42);
    assert_eq!(m.step(all_on(DRAM)), Action::ReadClock);
    assert_eq!(m.migration().migrated_pages(), 512);
    assert!(m.migration().in_dram(0x7f00_0000_0000));
    assert_eq!(m.step(Event::Clock(SLOW_CLOCK)), Action::AskSpace(PMEM));
    assert_eq!(m.step(Event::Space(true)), Action::Done);
    assert_eq!(m.migration().moved_in_run(), (512, 0));
}

#[test]
fn cold_key_is_demoted_when_a_hotter_one_arrives() {
    let mut m = migrator(2, 4096);
    for _ in 0..10 {
        feed(&mut m, 0, 0x20_0000, 1);
        feed(&mut m, 1, 0x40_0000, 1);
    }
    m.identify();
    assert_eq!(m.queued(), (2, 0));
    let lightest = m.identification().sketch().dump_topk()[0].0;
    feed(&mut m, 0, 0x60_0000, 20);
    m.identify();
    assert_eq!(m.queued(), (3, 1));
    let top = m.identification().sketch().dump_topk();
    assert!(top.contains(&(0x60_0000, 20)));
    assert!(!top.iter().any(|e| e.0 == lightest));

    // with the fast tier full, the key pushed out is the one that is demoted
    assert_eq!(m.migrate(), Action::AskSpace(PMEM));
    assert_eq!(m.step(Event::Space(true)), Action::StatPages { demotion: false });
    assert_eq!(m.migration().promotion_args().pages()[0], 0x60_0000);
    assert_eq!(m.step(all_on(PMEM)), Action::AskSpace(DRAM));
    assert_eq!(m.step(Event::Space(false)), Action::StatPages { demotion: true });
    assert_eq!(m.migration().demotion_args().pages()[0], lightest);
    assert_eq!(m.migration().demotion_args().nodes(), &[PMEM; 512][..]);
}

#[test]
fn samples_are_drained_ring_by_ring() {
    let mut m = migrator(1, 16);
    feed(&mut m, 1, 0x40_0000, 1);
    feed(&mut m, 0, 0x20_0000, 2);
    // ring 0 first: 0x20_0000 is kept with count 2, then 0x40_0000 comes with count 1
    assert!(!m.identify());
    assert_eq!(m.identification().sketch().dump_topk(), vec![(0x20_0000, 2)]);
    assert_eq!(m.queued(), (1, 0));
    assert_eq!(m.identification().received(), 3);
}

#[test]
fn migration_is_asked_for_when_nothing_or_a_period_was_sent() {
    // a sample that sends nothing leaves the count at 0, a multiple of the period
    let mut m = migrator(0, 4096);
    feed(&mut m, 0, 0x20_0000, 1);
    assert!(m.identify());
    // one candidate sent and nothing after it: 1 is no multiple
    let mut m = migrator(4, 4096);
    feed(&mut m, 0, 0x20_0000, 2);
    assert!(!m.identify());
    // every sample sends a candidate: 127 sent is no multiple, 128 is
    let mut m = migrator(1024, 4096);
    for i in 0..127u64 {
        feed(&mut m, 0, (i + 1) << 21, 1);
    }
    assert!(!m.identify());
    let mut m = migrator(1024, 4096);
    for i in 0..128u64 {
        feed(&mut m, 0, (i + 1) << 21, 1);
    }
    assert!(m.identify());
    assert_eq!(m.queued(), (128, 0));
    // nothing to drain, nothing to ask for
    assert!(!m.identify());
}

#[test]
fn full_candidate_ring_drops_promotions() {
    let mut m = migrator(64, 4);
    for i in 0..4u64 {
        feed(&mut m, 0, (i + 1) << 21, 1);
    }
    m.identify();
    for i in 4..8u64 {
        feed(&mut m, 0, (i + 1) << 21, 1);
    }
    m.identify();
    assert_eq!(m.queued(), (4, 0));
    assert_eq!(m.identification().sketch().dump_topk().len(), 8);
}

#[test]
fn throttle_ends_the_run_after_one_promotion() {
    let mut m = migrator(16, 4096);
    for i in 0..10u64 {
        feed(&mut m, 0, (i + 1) << 21, 1);
    }
    m.identify();
    assert_eq!(m.queued(), (10, 0));
    assert_eq!(m.migrate(), Action::AskSpace(PMEM));
    assert_eq!(m.migration().pending(), (10, 0));
    assert_eq!(m.step(Event::Space(true)), Action::StatPages { demotion: false });
    // the last candidate queued is taken up first
    assert_eq!(m.migration().promotion_args().pages()[0], 10 << 21);
    assert_eq!(m.step(all_on(PMEM)), Action::AskSpace(DRAM));
    assert_eq!(m.step(Event::Space(true)), Action::MovePages { demotion: false, len: 512 });
    assert_eq!(m.step(all_on(DRAM)), Action::ReadClock);
    // 2 MiB in one microsecond begun and one more: far above 128 MB/s
    assert_eq!(m.step(Event::Clock(1000)), Action::Requeue(200));
    assert_eq!(m.migration().migrated_pages(), 512);
    assert_eq!(m.migration().pending(), (9, 0));
    assert_eq!(m.step(Event::Space(true)), Action::Abort(Fault::Unexpected));
    assert_eq!(m.migration().migrated_pages(), 512);
}

#[test]
fn throttle_check_is_exact_at_the_cap() {
    // 512 pages are 2097152 bytes: 2097152 / 16257 is 128, 2097152 / 16256 is 129
    assert_eq!(MigrationContext::speed_mbps(512, 16_256_000), 128);
    assert_eq!(MigrationContext::speed_mbps(512, 16_255_999), 129);
    for (clock, expected) in [(16_256_000u64, Action::AskSpace(PMEM)), (16_255_999, Action::Requeue(200))] {
        let mut w = worker_with(&[0x20_0000], &[]);
        w.step(Event::Space(true));
        w.step(all_on(PMEM));
        w.step(Event::Space(true));
        assert_eq!(w.step(all_on(DRAM)), Action::ReadClock);
        assert_eq!(w.step(Event::Clock(clock)), expected);
    }
}

#[test]
fn speed_is_bytes_per_microsecond() {
    assert_eq!(MigrationContext::speed_mbps(512, 1000), 1_048_576);
    assert_eq!(MigrationContext::speed_mbps(512, 0), 2_097_152);
    assert_eq!(MigrationContext::speed_mbps(512, 999), 2_097_152);
    assert_eq!(MigrationContext::speed_mbps(0, 5), 0);
    assert_eq!(MigrationContext::speed_mbps(1, 4_095_000), 1);
    assert_eq!(MigrationContext::speed_mbps(1, 4_096_000), 0);
    assert_eq!(MigrationContext::speed_mbps(u64::MAX, 0), u64::MAX);
}

#[test]
fn queue_only_when_not_busy() {
    assert!(MigrationContext::queue(0));
    assert!(!MigrationContext::queue(1));
    assert!(!MigrationContext::queue(3));
}

#[test]
fn run_ends_when_slow_tier_is_full_or_nothing_is_pending() {
    let mut w = worker_with(&[0x20_0000], &[]);
    assert_eq!(w.step(Event::Space(false)), Action::Done);
    assert_eq!(w.pending(), (1, 0));
    let mut w = worker_with(&[], &[0x20_0000]);
    assert_eq!(w.step(Event::Space(true)), Action::Done);
    assert_eq!(w.pending(), (0, 1));
}

#[test]
fn page_already_in_fast_tier_is_noted_not_moved() {
    let mut w = worker_with(&[0x20_0000, 0x20_0000], &[]);
    assert_eq!(w.step(Event::Space(true)), Action::StatPages { demotion: false });
    let mut status = vec![DRAM; 512];
    status[7] = -14;
    assert_eq!(w.step(Event::Status { ret: 0, status }), Action::AskSpace(PMEM));
    assert!(w.in_dram(0x20_0000));
    assert!(!w.in_pmem(0x20_0000));
    assert_eq!(w.migrated_pages(), 0);
    // the second candidate for the same page is skipped
    assert_eq!(w.step(Event::Space(true)), Action::AskSpace(PMEM));
    assert_eq!(w.pending(), (0, 0));
    assert_eq!(w.step(Event::Space(true)), Action::Done);
}

#[test]
fn partly_resident_page_moves_only_what_is_elsewhere() {
    let mut w = worker_with(&[0x20_0000], &[]);
    w.step(Event::Space(true));
    let mut status = vec![DRAM; 512];
    status[3] = PMEM;
    status[500] = PMEM;
    status[9] = -2;
    assert_eq!(w.step(Event::Status { ret: 0, status }), Action::AskSpace(DRAM));
    assert_eq!(w.step(Event::Space(true)), Action::MovePages { demotion: false, len: 2 });
    assert_eq!(&w.promotion_args().pages()[..2], &[0x20_0000 + 3 * 4096, 0x20_0000 + 500 * 4096]);
    assert_eq!(w.step(Event::Status { ret: 0, status: vec![DRAM, DRAM] }), Action::ReadClock);
    assert_eq!(w.migrated_pages(), 2);
    assert_eq!(w.moved_in_run(), (2, 0));
}

#[test]
fn full_fast_tier_demotes_before_it_promotes() {
    let mut w = worker_with(&[0x20_0000], &[0x80_0000, 0x60_0000]);
    w.step(Event::Space(true));
    assert_eq!(w.step(all_on(PMEM)), Action::AskSpace(DRAM));
    assert_eq!(w.step(Event::Space(false)), Action::StatPages { demotion: true });
    assert_eq!(w.demotion_args().pages()[0], 0x60_0000);
    // only 100 pages of the first candidate are in the fast tier
    let mut status = vec![PMEM; 512];
    for s in status.iter_mut().take(100) {
        *s = DRAM;
    }
    assert_eq!(w.step(Event::Status { ret: 0, status }), Action::MovePages { demotion: true, len: 100 });
    assert_eq!(w.step(Event::Status { ret: 0, status: vec![PMEM; 100] }), Action::StatPages { demotion: true });
    assert!(w.in_pmem(0x60_0000));
    assert_eq!(w.migrated_pages(), 100);
    assert_eq!(w.demotion_args().pages()[0], 0x80_0000);
    // the second candidate is all in the fast tier: 512 more, enough
    assert_eq!(w.step(all_on(DRAM)), Action::MovePages { demotion: true, len: 512 });
    assert_eq!(w.step(all_on(PMEM)), Action::MovePages { demotion: false, len: 512 });
    assert!(w.in_pmem(0x80_0000));
    assert_eq!(w.step(all_on(DRAM)), Action::ReadClock);
    assert_eq!(w.migrated_pages(), 1124);
    assert_eq!(w.moved_in_run(), (512, 612));
    assert!(w.in_dram(0x20_0000));
}

#[test]
fn candidates_are_asked_for_when_none_is_pending() {
    let mut w = worker_with(&[0x20_0000], &[]);
    w.step(Event::Space(true));
    w.step(all_on(PMEM));
    assert_eq!(w.step(Event::Space(false)), Action::FindCandidates(64));
    let mut found = vec![0x100_0000u64; 64];
    found[63] = 0xa0_0123;
    assert_eq!(w.step(Event::Candidates { failed: 0, found }), Action::StatPages { demotion: true });
    assert_eq!(w.demotion_args().pages()[0], 0xa0_0000);
    assert_eq!(w.pending(), (0, 63));
    // a candidate found all in the slow tier is noted and the next one taken up
    assert_eq!(w.step(all_on(PMEM)), Action::StatPages { demotion: true });
    assert!(w.in_pmem(0xa0_0000));
    assert_eq!(w.demotion_args().pages()[0], 0x100_0000);
    assert_eq!(w.step(all_on(DRAM)), Action::MovePages { demotion: true, len: 512 });
    assert_eq!(w.step(all_on(PMEM)), Action::MovePages { demotion: false, len: 512 });
}

#[test]
fn candidates_believed_in_slow_tier_are_skipped() {
    let mut w = worker_with(&[0x20_0000, 0x40_0000], &[0x60_0000, 0x60_0000, 0x60_0000]);
    w.step(Event::Space(true));
    w.step(all_on(PMEM));
    assert_eq!(w.step(Event::Space(false)), Action::StatPages { demotion: true });
    assert_eq!(w.step(all_on(PMEM)), Action::FindCandidates(64));
    assert!(w.in_pmem(0x60_0000));
    assert_eq!(w.pending(), (1, 0));
}

#[test]
fn failures_give_up_the_run() {
    // page query fails
    let mut w = worker_with(&[0x20_0000], &[]);
    w.step(Event::Space(true));
    assert_eq!(w.step(Event::Status { ret: -3, status: vec![] }), Action::Abort(Fault::Kernel(-3)));
    assert_eq!(w.step(Event::Space(true)), Action::Abort(Fault::Unexpected));

    // page move fails
    let mut w = worker_with(&[0x20_0000], &[]);
    w.step(Event::Space(true));
    w.step(all_on(PMEM));
    w.step(Event::Space(true));
    assert_eq!(w.step(Event::Status { ret: -12, status: vec![DRAM; 512] }), Action::Abort(Fault::Kernel(-12)));
    assert!(!w.in_dram(0x20_0000));
    assert_eq!(w.migrated_pages(), 0);

    // a page did not arrive
    let mut w = worker_with(&[0x20_0000], &[]);
    w.step(Event::Space(true));
    w.step(all_on(PMEM));
    w.step(Event::Space(true));
    let mut status = vec![DRAM; 512];
    status[511] = -16;
    assert_eq!(w.step(Event::Status { ret: 0, status }), Action::Abort(Fault::StaleStatus));
    assert!(!w.in_dram(0x20_0000));
    assert_eq!(w.migrated_pages(), 0);

    // no candidate can be found
    let mut w = worker_with(&[0x20_0000], &[]);
    w.step(Event::Space(true));
    w.step(all_on(PMEM));
    w.step(Event::Space(false));
    assert_eq!(w.step(Event::Candidates { failed: 1, found: vec![0x40_0000] }), Action::Abort(Fault::NoCandidate));
    let mut w = worker_with(&[0x20_0000], &[]);
    w.step(Event::Space(true));
    w.step(all_on(PMEM));
    w.step(Event::Space(false));
    assert_eq!(w.step(Event::Candidates { failed: 0, found: vec![] }), Action::Abort(Fault::NoCandidate));

    // a candidate is address 0
    let mut w = worker_with(&[0x20_0000], &[0]);
    w.step(Event::Space(true));
    w.step(all_on(PMEM));
    assert_eq!(w.step(Event::Space(false)), Action::Abort(Fault::NoCandidate));

    // the clock went back
    let mut w = MigrationContext::new(1, DRAM, 8, 8, 5000).unwrap();
    let mut p: Ring<u64> = Ring::with_capacity(4).unwrap();
    let mut d: Ring<u64> = Ring::with_capacity(4).unwrap();
    p.send(0x20_0000).unwrap();
    w.migrate(&mut p, &mut d);
    w.step(Event::Space(true));
    w.step(all_on(PMEM));
    w.step(Event::Space(true));
    w.step(all_on(DRAM));
    assert_eq!(w.step(Event::Clock(4999)), Action::Abort(Fault::ClockWentBack));
}

#[test]
fn events_nobody_asked_for_change_nothing() {
    let mut w = MigrationContext::new(1, DRAM, 8, 8, 0).unwrap();
    assert_eq!(w.step(Event::Space(true)), Action::Abort(Fault::Unexpected));
    assert_eq!(w.step(Event::Clock(5)), Action::Abort(Fault::Unexpected));
    assert_eq!(w.step(all_on(DRAM)), Action::Abort(Fault::Unexpected));
    assert_eq!(w.step(Event::Candidates { failed: 0, found: vec![1] }), Action::Abort(Fault::Unexpected));
    assert_eq!(w.pending(), (0, 0));
    assert_eq!(w.migrated_pages(), 0);
    let mut w = worker_with(&[0x20_0000], &[]);
    assert_eq!(w.step(Event::Clock(5)), Action::Abort(Fault::Unexpected));
    assert_eq!(w.step(Event::Space(true)), Action::StatPages { demotion: false });
}

#[test]
fn new_migrator_is_empty() {
    let m = migrator(8, 16);
    assert_eq!(m.pid(), 42);
    assert_eq!(m.ncpu(), 2);
    assert_eq!(m.queued(), (0, 0));
    assert_eq!(m.identification().received(), 0);
    assert_eq!(m.migration().migrated_pages(), 0);
    assert_eq!(m.migration().pending(), (0, 0));
    assert_eq!(m.migration().demotion_args().nodes()[0], PMEM);
    assert_eq!(m.migration().promotion_args().nodes()[511], DRAM);
}

#[test]
fn samples_outside_the_region_reach_nothing() {
    let mut m = migrator(8, 16);
    let data = SampleData { addr: 0x20_0000, weight: 1, ..Default::default() };
    assert_eq!(m.collect(1, &data, false, 0), Collected::Invalid);
    assert!(m.identify() == false);
    assert_eq!(m.identification().received(), 0);
    assert_eq!(m.queued(), (0, 0));
}

#[test]
fn migrator_without_memory_for_its_rings_is_refused() {
    assert!(Migrator::new(42, 2, &config(8, usize::MAX), DRAM, 0).is_err());
}

#[test]
fn migrator_with_rings_without_slots_is_always_made() {
    let mut m = Migrator::new(42, 3, &config(8, 0), DRAM, 0).unwrap();
    assert_eq!(m.ncpu(), 3);
    let data = SampleData { addr: 0x20_0000, weight: 1, ..Default::default() };
    assert_eq!(m.collect(2, &data, true, 0), Collected::Dropped);
    assert_eq!(m.queued(), (0, 0));
}

#[test]
fn migrator_over_given_parts() {
    let mut promotion: Ring<u64> = Ring::with_capacity(4).unwrap();
    let demotion: Ring<u64> = Ring::with_capacity(2).unwrap();
    promotion.send(0x60_0000).unwrap();
    let samples = vec![
        Ring::with_capacity(1).unwrap(),
        Ring::with_capacity(8).unwrap(),
        Ring::with_capacity(8).unwrap(),
    ];
    let mut sdh = SDH::new(64, 2, 4).unwrap();
    sdh.add(0x80_0000);
    let worker = MigrationContext::new(7, DRAM, 4, 4, 500).unwrap();
    let mut m = Migrator::with_parts(7, promotion, demotion, samples, sdh, worker);
    assert_eq!(m.pid(), 7);
    assert_eq!(m.ncpu(), 3);
    assert_eq!(m.queued(), (1, 0));
    assert_eq!(m.identification().received(), 0);
    assert_eq!(m.identification().sketch().dump_topk(), vec![(0x80_0000, 1)]);
    assert_eq!(m.migration().migrated_pages(), 0);
    assert_eq!(m.migration().promotion_args().pid(), 7);
    assert_eq!(m.migration().start(), 500);
    let data = SampleData { addr: 0x20_0000, weight: 1, ..Default::default() };
    // the ring of processor 0 has one slot, that of processor 2 has eight
    assert_eq!(m.collect(0, &data, true, 0), Collected::Sent { queue_identification: false });
    assert_eq!(m.collect(0, &data, true, 1), Collected::Dropped);
    assert_eq!(m.collect(2, &data, true, 2), Collected::Sent { queue_identification: false });
    // the candidate that was queued in the ring given is taken up
    assert_eq!(m.migrate(), Action::AskSpace(PMEM));
    assert_eq!(m.step(Event::Space(true)), Action::StatPages { demotion: false });
    assert_eq!(m.migration().promotion_args().pages()[0], 0x60_0000);
    // the worker was started at 500: a clock before that went back
    m.step(all_on(PMEM));
    m.step(Event::Space(true));
    m.step(all_on(DRAM));
    assert_eq!(m.step(Event::Clock(499)), Action::Abort(Fault::ClockWentBack));
}

#[test]
fn worker_over_given_room() {
    let mut dram = KeySet::with_room(4).unwrap();
    let pmem = KeySet::with_room(0).unwrap();
    dram = KeySet::reserved(dram, true).unwrap();
    assert_eq!(KeySet::reserved(pmem, false).err(), Some(Exhausted::Table));
    let pmem = KeySet::with_room(0).unwrap();
    let mut w = MigrationContext::with_room(9, 2, 77, dram, pmem, vec![0x20_0000], vec![]);
    assert_eq!(w.start(), 77);
    assert_eq!(w.pending(), (1, 0));
    assert_eq!(w.promotion_args().nodes()[0], 2);
    assert_eq!(w.demotion_args().nodes()[0], 3);
    assert_eq!(w.promotion_args().pid(), 9);
    assert!(!w.in_dram(0x20_0000));
    let mut p: Ring<u64> = Ring::with_capacity(0).unwrap();
    let mut d: Ring<u64> = Ring::with_capacity(0).unwrap();
    assert_eq!(w.migrate(&mut p, &mut d), Action::AskSpace(3));
    assert_eq!(w.step(Event::Space(true)), Action::StatPages { demotion: false });
}

#[test]
fn worker_too_large_to_have_is_refused() {
    assert!(MigrationContext::new(1, DRAM, usize::MAX, 0, 0).is_err());
    assert!(MigrationContext::new(1, DRAM, 0, usize::MAX, 0).is_err());
    assert!(MigrationContext::new(1, DRAM, 0, 0, 0).is_ok());
    assert!(Migrator::new(42, 2, &config(usize::MAX, 4), DRAM, 0).is_err());
}

#[test]
fn as_many_new_keys_as_room_are_all_promoted_and_none_demoted() {
    let n = 12usize;
    let mut m = migrator(n, 64);
    for i in 0..n as u64 {
        feed(&mut m, (i % 2) as usize, ((i + 1) << 21) + 0x123, 1);
    }
    m.identify();
    assert_eq!(m.queued(), (n, 0));
    let top = m.identification().sketch().dump_topk();
    assert_eq!(top.len(), n);
    for i in 0..n as u64 {
        assert!(top.contains(&((i + 1) << 21, 1)));
    }
}
