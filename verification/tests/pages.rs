use hagent::pages::MovePagesArgs;

#[test]
fn new_block_wants_every_page_on_the_target() {
    let args: MovePagesArgs<4> = MovePagesArgs::new(7, 1);
    assert_eq!(args.pid(), 7);
    assert_eq!(args.pages(), &[0, 0, 0, 0]);
    assert_eq!(args.nodes(), &[1, 1, 1, 1]);
    assert_eq!(args.status(), &[0, 0, 0, 0]);
}

#[test]
fn base_address_lists_consecutive_base_pages() {
    let mut args: MovePagesArgs<4> = MovePagesArgs::new(7, 1);
    args.base_address(0x20_0000);
    assert_eq!(args.pages(), &[0x20_0000, 0x20_1000, 0x20_2000, 0x20_3000]);
    assert_eq!(args.nodes(), &[1, 1, 1, 1]);
}

#[test]
fn base_address_of_a_huge_page_lists_512_pages() {
    let mut args: MovePagesArgs<512> = MovePagesArgs::new(1, 0);
    args.base_address(0x4000_0000);
    assert_eq!(args.pages().len(), 512);
    for i in 0..512u64 {
        assert_eq!(args.pages()[i as usize], 0x4000_0000 + 4096 * i);
    }
    let mut top: MovePagesArgs<512> = MovePagesArgs::new(1, 0);
    top.base_address(0xffff_ffff_ffe0_0000);
    assert_eq!(top.pages()[511], 0xffff_ffff_ffff_f000);
}

#[test]
fn stat_pages_takes_in_the_status() {
    let mut args: MovePagesArgs<4> = MovePagesArgs::new(7, 1);
    assert_eq!(args.stat_pages(0, &[0, 1, -14, 0]), Ok(()));
    assert_eq!(args.status(), &[0, 1, -14, 0]);
    assert_eq!(args.count_node(0), 2);
    assert_eq!(args.count_node(1), 1);
    assert_eq!(args.count_node(-14), 1);
    assert_eq!(args.count_node(5), 0);
}

#[test]
fn stat_pages_hands_back_a_negative_return() {
    let mut args: MovePagesArgs<4> = MovePagesArgs::new(7, 1);
    assert_eq!(args.stat_pages(-22, &[]), Err(-22));
    assert_eq!(args.status(), &[-1, -1, -1, -1]);
    assert_eq!(args.stat_pages(3, &[1, 1]), Ok(()));
    assert_eq!(args.status(), &[1, 1, -1, -1]);
}

#[test]
fn consolidate_left_brings_movers_to_the_front() {
    let mut args: MovePagesArgs<4> = MovePagesArgs::new(7, 1);
    args.base_address(0x20_0000);
    args.stat_pages(0, &[0, 1, -14, 0]).unwrap();
    assert_eq!(args.consolidate_left(), 2);
    assert_eq!(args.pages(), &[0x20_0000, 0x20_3000, 0x20_2000, 0x20_1000]);
    assert_eq!(args.status(), &[-1, -1, -14, 0]);
    assert_eq!(args.nodes(), &[1, 1, 1, 1]);
}

#[test]
fn consolidate_left_with_nothing_to_move() {
    let mut args: MovePagesArgs<4> = MovePagesArgs::new(7, 1);
    args.base_address(0x20_0000);
    args.stat_pages(0, &[1, 1, -2, 1]).unwrap();
    assert_eq!(args.consolidate_left(), 0);
    assert_eq!(args.pages(), &[0x20_0000, 0x20_1000, 0x20_2000, 0x20_3000]);
    assert_eq!(args.status(), &[1, 1, -2, 1]);
}

#[test]
fn consolidate_left_with_everything_to_move() {
    let mut args: MovePagesArgs<3> = MovePagesArgs::new(7, 0);
    args.base_address(0x40_0000);
    args.stat_pages(0, &[1, 2, 1]).unwrap();
    assert_eq!(args.consolidate_left(), 3);
    assert_eq!(args.pages(), &[0x40_0000, 0x40_1000, 0x40_2000]);
    assert_eq!(args.status(), &[-1, -1, -1]);
}

#[test]
fn move_pages_takes_in_status_of_the_pages_moved() {
    let mut args: MovePagesArgs<4> = MovePagesArgs::new(7, 1);
    args.base_address(0x20_0000);
    args.stat_pages(0, &[0, 1, -14, 0]).unwrap();
    let todo = args.consolidate_left();
    assert_eq!(args.move_pages(todo, 0, &[1, 1, 9, 9]), Ok(()));
    assert_eq!(args.status(), &[1, 1, -1, -1]);
    assert_eq!(args.count_node(1), todo);
    assert_eq!(args.move_pages(todo, -12, &[1, 0]), Err(-12));
    assert_eq!(args.status(), &[1, 0, -1, -1]);
}

#[test]
fn block_without_pages() {
    let mut args: MovePagesArgs<0> = MovePagesArgs::new(7, 1);
    args.base_address(u64::MAX);
    assert_eq!(args.stat_pages(0, &[1, 2]), Ok(()));
    assert_eq!(args.consolidate_left(), 0);
    assert_eq!(args.count_node(1), 0);
    assert!(args.pages().is_empty());
}

#[test]
fn count_status_counts_what_the_predicate_holds_of() {
    let mut args: MovePagesArgs<5> = MovePagesArgs::new(7, 1);
    args.stat_pages(0, &[0, 1, -14, 0, -2]).unwrap();
    assert_eq!(args.count_status(|s| s < 0), 2);
    assert_eq!(args.count_status(|s| s == 0), 2);
    assert_eq!(args.count_status(|_| true), 5);
    assert_eq!(args.count_status(|_| false), 0);
}
