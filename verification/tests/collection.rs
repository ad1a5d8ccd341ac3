use hagent::collection::{Collected, CollectionContext};
use hagent::event::Sample;
use hagent::helper::SampleData;
use hagent::spsc::Ring;

fn record(addr: u64, weight: u64) -> SampleData {
    SampleData { addr, weight, phys_addr: 0xabc, id: 999, ..Default::default() }
}

#[test]
fn sample_outside_the_region_is_discarded() {
    let mut ctx = CollectionContext::new(3);
    let mut ring: Ring<Sample> = Ring::with_capacity(4).unwrap();
    assert_eq!(ctx.drain_pebs(&record(0x1000, 5), false, 0, &mut ring), Collected::Invalid);
    assert_eq!(ctx.invalid(), 1);
    assert_eq!(ctx.collected(), 0);
    assert_eq!(ctx.cpu(), 3);
    assert_eq!(ring.len(), 0);
}

#[test]
fn sample_in_the_region_is_shaped_and_sent() {
    let mut ctx = CollectionContext::new(0);
    let mut ring: Ring<Sample> = Ring::with_capacity(4).unwrap();
    let outcome = ctx.drain_pebs(&record(0x20_1234, 42), true, 17, &mut ring);
    assert_eq!(outcome, Collected::Sent { queue_identification: false });
    assert_eq!(ctx.collected(), 1);
    assert_eq!(ctx.invalid(), 0);
    let s = ring.recv().unwrap();
    assert_eq!((s.id, s.va, s.lat, s.pa), (17, 0x20_1234, 42, 0));
}

#[test]
fn full_ring_drops_samples_silently() {
    let mut ctx = CollectionContext::new(0);
    let mut ring: Ring<Sample> = Ring::with_capacity(4).unwrap();
    let mut sent = 0;
    let mut dropped = 0;
    for i in 0..100u64 {
        match ctx.drain_pebs(&record(0x20_0000 + i, 1), true, i, &mut ring) {
            Collected::Sent { .. } => sent += 1,
            Collected::Dropped => dropped += 1,
            Collected::Invalid => panic!("in region"),
        }
    }
    assert_eq!((sent, dropped), (4, 96));
    assert_eq!(ctx.collected(), 4);
    let mut ids = Vec::new();
    while let Some(s) = ring.recv() {
        ids.push(s.id);
    }
    assert_eq!(ids, vec![0, 1, 2, 3]);
}

#[test]
fn identification_is_asked_for_once_in_1024_samples() {
    let mut ctx = CollectionContext::new(0);
    let mut ring: Ring<Sample> = Ring::with_capacity(8).unwrap();
    let mut asked = Vec::new();
    for i in 1..=3000u64 {
        match ctx.drain_pebs(&record(0x20_0000, 1), true, i, &mut ring) {
            Collected::Sent { queue_identification } => {
                if queue_identification {
                    asked.push(i);
                }
            }
            _ => panic!("ring has room"),
        }
        ring.recv();
    }
    assert_eq!(asked, vec![1024, 2048]);
}

#[test]
fn counter_attributes() {
    let attr = CollectionContext::event_attr(0x1cd, 64, 4001);
    assert_eq!(attr.typ, 4);
    assert_eq!(attr.size, 136);
    assert_eq!(attr.config, 0x1cd);
    assert_eq!(attr.config1, 64);
    assert_eq!(attr.sample_period, 4001);
    assert_eq!(attr.sample_type, (1 << 1) | (1 << 3) | (1 << 14));
    // zero skid, and no kernel, hypervisor, idle task or kernel call chain
    assert_eq!(attr.flags, (3 << 15) | (1 << 5) | (1 << 6) | (1 << 7) | (1 << 21));
    assert_eq!(attr.flags, 0x2180e0);
    assert_eq!(attr.read_format, 0);
    assert_eq!(attr.config2, 0);
    assert_eq!(attr.config3, 0);
    assert_eq!(attr.wakeup, 0);
    assert_eq!(attr.clockid, 0);
}
