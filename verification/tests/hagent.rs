use hagent::hagent::{Hagent, Switch};

const RAM: u64 = 64 << 30;

#[test]
fn tracks_a_process_larger_than_a_third_of_memory() {
    let mut tracker = Hagent::new();
    assert_eq!(tracker.tracking(), None);
    let switch = tracker.track(100, RAM / 10 * 4, 0, RAM);
    assert_eq!(switch, Some(Switch { stop: None, start: Some(100) }));
    assert_eq!(tracker.tracking(), Some(100));
}

#[test]
fn ignores_a_process_of_at_most_a_third_of_memory() {
    let mut tracker = Hagent::new();
    assert_eq!(tracker.track(100, RAM / 3, 12345, RAM), None);
    assert_eq!(tracker.tracking(), None);
    assert_eq!(tracker.track(100, RAM / 3 + 1, 12345, RAM), Some(Switch { stop: None, start: Some(100) }));
}

#[test]
fn larger_process_takes_over() {
    let mut tracker = Hagent::new();
    tracker.track(100, RAM / 10 * 4, 0, RAM);
    let switch = tracker.track(200, RAM / 2, RAM / 10 * 4, RAM);
    assert_eq!(switch, Some(Switch { stop: Some(100), start: Some(200) }));
    assert_eq!(tracker.tracking(), Some(200));
}

#[test]
fn process_that_is_not_larger_does_not_take_over() {
    let mut tracker = Hagent::new();
    tracker.track(100, RAM / 2, 0, RAM);
    assert_eq!(tracker.track(200, RAM / 2, RAM / 2, RAM), None);
    assert_eq!(tracker.track(200, RAM / 10 * 4, RAM / 2, RAM), None);
    assert_eq!(tracker.tracking(), Some(100));
}

#[test]
fn tracked_process_growing_is_switched_to_again() {
    let mut tracker = Hagent::new();
    tracker.track(100, RAM / 2, 0, RAM);
    let switch = tracker.track(100, RAM / 2 + 4096, RAM / 2, RAM);
    assert_eq!(switch, Some(Switch { stop: Some(100), start: Some(100) }));
}

#[test]
fn untrack_clears_only_the_tracked_process() {
    let mut tracker = Hagent::new();
    assert_eq!(tracker.untrack(100), None);
    tracker.track(100, RAM / 2, 0, RAM);
    assert_eq!(tracker.untrack(200), None);
    assert_eq!(tracker.tracking(), Some(100));
    assert_eq!(tracker.untrack(100), Some(Switch { stop: Some(100), start: None }));
    assert_eq!(tracker.tracking(), None);
}

#[test]
fn switch_and_failed_start() {
    let mut tracker = Hagent::new();
    assert_eq!(tracker.switch(Some(5)), Switch { stop: None, start: Some(5) });
    assert_eq!(tracker.switch(Some(6)), Switch { stop: Some(5), start: Some(6) });
    tracker.start_failed();
    assert_eq!(tracker.tracking(), None);
    assert_eq!(tracker.switch(None), Switch { stop: None, start: None });
}
