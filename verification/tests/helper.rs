use hagent::event::Sample;
use hagent::helper::{
    hpage_base, room_had, vec_reserved, vec_with_room, Exhausted, SampleData, BATCH_SIZE, CPU_IDENTIFICATION, CPU_MIGRATION, DRAIN_REPORT_PERIOD,
    HPAGE_MASK, HPAGE_PAGES, HPAGE_SIZE, IDENTIFIATION_PERIOD, MIGRATION_PERIOD, MPOL_MF_MOVE_ALL,
    NUMA_NO_NODE, PAGE_SIZE, SIGNIFICANCE_RATIO, THROTTLE_MBPS, WORK_CPU_UNBOUND,
};

#[test]
fn constants_have_their_values() {
    assert_eq!(PAGE_SIZE, 4096);
    assert_eq!(HPAGE_SIZE, 2 * 1024 * 1024);
    assert_eq!(HPAGE_PAGES, 512);
    assert_eq!(HPAGE_PAGES as u64, HPAGE_SIZE / PAGE_SIZE);
    assert_eq!(HPAGE_MASK, !(HPAGE_SIZE - 1));
    assert_eq!(CPU_IDENTIFICATION, 0);
    assert_eq!(CPU_MIGRATION, WORK_CPU_UNBOUND);
    assert_eq!(IDENTIFIATION_PERIOD, 1024);
    assert_eq!(MIGRATION_PERIOD, 128);
    assert_eq!(DRAIN_REPORT_PERIOD, 4096);
    assert_eq!(BATCH_SIZE, 64);
    assert_eq!(THROTTLE_MBPS, 128);
    assert_eq!(MPOL_MF_MOVE_ALL, 4);
    assert_eq!(NUMA_NO_NODE, -1);
    assert_eq!(SIGNIFICANCE_RATIO, 3);
}

#[test]
fn hpage_base_clears_the_offset() {
    assert_eq!(hpage_base(0), 0);
    assert_eq!(hpage_base(0x1f_ffff), 0);
    assert_eq!(hpage_base(0x20_0000), 0x20_0000);
    assert_eq!(hpage_base(0x7fff_1234_5678), 0x7fff_1220_0000);
    assert_eq!(hpage_base(u64::MAX), 0xffff_ffff_ffe0_0000);
}

#[test]
fn sample_is_made_of_a_counter_record() {
    let data = SampleData { id: 5, addr: 0x1234, weight: 77, phys_addr: 0x9000, ..Default::default() };
    let sample = Sample::from(&data);
    assert_eq!(sample.id, 5);
    assert_eq!(sample.va, 0x1234);
    assert_eq!(sample.lat, 77);
    assert_eq!(sample.pa, 0x9000);
    let none = Sample::default();
    assert_eq!((none.id, none.va, none.lat, none.pa), (0, 0, 0, 0));
}

#[test]
fn room_is_had_or_refused() {
    let v: Vec<u64> = vec_with_room(16).unwrap();
    assert!(v.is_empty());
    assert!(v.capacity() >= 16);
    let none: Vec<u64> = vec_with_room(0).unwrap();
    assert!(none.is_empty());
    assert!(vec_with_room::<u64>(usize::MAX).is_err());
}

#[test]
fn array_follows_the_answer_to_the_request_for_room() {
    let mut probe: Vec<u64> = Vec::new();
    let refused = probe.try_reserve(usize::MAX).unwrap_err();
    assert_eq!(room_had(Ok(())), Ok(()));
    assert_eq!(room_had(Err(refused.clone())), Err(Exhausted::Array(refused.clone())));
    assert_eq!(vec_reserved(Ok(()), vec![1u8, 2]), Ok(vec![1u8, 2]));
    assert_eq!(vec_reserved(Err(refused.clone()), vec![1u8, 2]), Err(Exhausted::Array(refused)));
}
