use hagent::spsc::Ring;

#[test]
fn ring_is_fifo() {
    let mut ring: Ring<u64> = Ring::with_capacity(3).unwrap();
    assert_eq!(ring.capacity(), 3);
    assert_eq!(ring.len(), 0);
    assert_eq!(ring.recv(), None);
    assert_eq!(ring.send(1), Ok(()));
    assert_eq!(ring.send(2), Ok(()));
    assert_eq!(ring.len(), 2);
    assert_eq!(ring.recv(), Some(1));
    assert_eq!(ring.send(3), Ok(()));
    assert_eq!(ring.send(4), Ok(()));
    assert_eq!(ring.send(5), Err(5));
    assert_eq!(ring.recv(), Some(2));
    assert_eq!(ring.recv(), Some(3));
    assert_eq!(ring.recv(), Some(4));
    assert_eq!(ring.recv(), None);
    assert_eq!(ring.len(), 0);
}

#[test]
fn full_ring_drops_and_keeps_what_it_has() {
    let mut ring: Ring<u64> = Ring::with_capacity(4).unwrap();
    let mut dropped = 0;
    for i in 0..100u64 {
        match ring.send(i) {
            Ok(()) => {}
            Err(back) => {
                assert_eq!(back, i);
                dropped += 1;
            }
        }
    }
    assert_eq!(dropped, 96);
    let mut got = Vec::new();
    while let Some(x) = ring.recv() {
        got.push(x);
    }
    assert_eq!(got, vec![0, 1, 2, 3]);
}

#[test]
fn send_after_free_slots_are_used_is_refused() {
    let mut ring: Ring<u8> = Ring::with_capacity(5).unwrap();
    for i in 0..5 {
        assert_eq!(ring.send(i), Ok(()));
    }
    assert_eq!(ring.recv(), Some(0));
    assert_eq!(ring.recv(), Some(1));
    // 5 slots, 3 in use: two more go in, the third is refused
    assert_eq!(ring.send(10), Ok(()));
    assert_eq!(ring.send(11), Ok(()));
    assert_eq!(ring.send(12), Err(12));
}

#[test]
fn ring_without_slots_refuses_everything() {
    let mut ring: Ring<u64> = Ring::with_capacity(0).unwrap();
    assert_eq!(ring.send(1), Err(1));
    assert_eq!(ring.recv(), None);
}

#[test]
fn ring_wraps_around_many_times() {
    let mut ring: Ring<String> = Ring::with_capacity(3).unwrap();
    let mut sent = 0u32;
    let mut received = 0u32;
    for round in 0..50 {
        for _ in 0..(round % 4) {
            if ring.send(sent.to_string()).is_ok() {
                sent += 1;
            }
        }
        for _ in 0..((round + 1) % 3) {
            if let Some(s) = ring.recv() {
                assert_eq!(s, received.to_string());
                received += 1;
            }
        }
    }
    while let Some(s) = ring.recv() {
        assert_eq!(s, received.to_string());
        received += 1;
    }
    assert_eq!(sent, received);
    assert!(sent > 3);
}

#[test]
fn received_plus_dropped_is_sent() {
    let mut ring: Ring<u32> = Ring::with_capacity(2).unwrap();
    let mut accepted = Vec::new();
    let mut dropped = 0;
    let mut delivered = Vec::new();
    for i in 0..30u32 {
        match ring.send(i) {
            Ok(()) => accepted.push(i),
            Err(_) => dropped += 1,
        }
        if i % 3 == 0 {
            if let Some(x) = ring.recv() {
                delivered.push(x);
            }
        }
    }
    while let Some(x) = ring.recv() {
        delivered.push(x);
    }
    assert_eq!(accepted.len() + dropped, 30);
    assert_eq!(delivered, accepted);
}

#[test]
fn ring_too_large_to_have_is_refused() {
    assert!(Ring::<u64>::with_capacity(usize::MAX).is_err());
}

#[test]
fn ring_is_made_of_reserved_room() {
    let mut buf: Vec<Option<u64>> = Vec::new();
    let reserved = buf.try_reserve(3);
    let mut ring = Ring::with_reserved(reserved, buf, 3).unwrap();
    assert_eq!(ring.capacity(), 3);
    assert_eq!(ring.len(), 0);
    assert_eq!(ring.send(1), Ok(()));
    assert_eq!(ring.send(2), Ok(()));
    assert_eq!(ring.send(3), Ok(()));
    assert_eq!(ring.send(4), Err(4));
    assert_eq!(ring.recv(), Some(1));
}

#[test]
fn ring_made_in_a_used_buffer_starts_empty() {
    let buf: Vec<Option<u64>> = vec![Some(9), None, Some(8), Some(7)];
    let mut ring = Ring::with_reserved(Ok(()), buf, 2).unwrap();
    assert_eq!(ring.capacity(), 2);
    assert_eq!(ring.recv(), None);
    assert_eq!(ring.send(5), Ok(()));
    assert_eq!(ring.recv(), Some(5));
}

#[test]
fn ring_is_not_made_where_room_was_refused() {
    let mut probe: Vec<Option<u64>> = Vec::new();
    let refused = probe.try_reserve(usize::MAX).unwrap_err();
    let made: Result<Ring<u64>, _> = Ring::with_reserved(Err(refused.clone()), Vec::new(), 2);
    match made {
        Ok(_) => panic!("made without room"),
        Err(e) => assert_eq!(e, refused),
    }
}
