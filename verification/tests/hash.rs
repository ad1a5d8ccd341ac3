use hagent::hash::{FnvHasher, FNV_OFFSET_BASIS, FNV_PRIME};
use std::hash::Hasher;

#[test]
fn default_starts_at_offset_basis() {
    let h = FnvHasher::default();
    assert_eq!(h.finish(), 0xcbf29ce484222325);
    assert_eq!(FNV_OFFSET_BASIS, 0xcbf29ce484222325);
    assert_eq!(FNV_PRIME, 0x100000001b3);
}

#[test]
fn with_key_starts_at_key() {
    assert_eq!(FnvHasher::with_key(42).finish(), 42);
}

#[test]
fn write_nothing_changes_nothing() {
    let mut h = FnvHasher::with_key(7);
    h.write(&[]);
    assert_eq!(h.finish(), 7);
}

#[test]
fn write_mixes_then_multiplies() {
    let mut h = FnvHasher::default();
    h.write(b"a");
    assert_eq!(h.finish(), 0xaf63dc4c8601ec8c);
    let mut h = FnvHasher::default();
    h.write(b"foobar");
    assert_eq!(h.finish(), 0x85944171f73967e8);
}

#[test]
fn write_in_pieces_is_write_at_once() {
    let mut a = FnvHasher::default();
    a.write(b"foo");
    a.write(b"bar");
    let mut b = FnvHasher::default();
    b.write(b"foobar");
    assert_eq!(a.finish(), b.finish());
}

#[test]
fn one_step_by_hand() {
    let mut h = FnvHasher::with_key(1);
    h.write(&[3]);
    assert_eq!(h.finish(), (1u64 ^ 3).wrapping_mul(0x100000001b3));
}
