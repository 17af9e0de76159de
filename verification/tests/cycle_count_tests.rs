use rcmd_suit::cycle_count::{CycleCount, CycleNum, CycleOrder};

// The counters advance two by two; after `n` steps each has moved by `2 * n`, which a
// single wrapping addition also gives. The run checks the first million steps, jumps
// both counters to just before the wrap, and checks the steps across it.
#[test]
fn test() {
    let mut a = CycleCount::new(0u32, 9999u32);
    let mut b = CycleCount::new(9998u32, 9999u32);
    for _ in 0..1_000_000u64 {
        a.add_assign(2);
        b.add_assign(2);
        assert!(a.lt(&b), "{}", format!("test failed {} {}", a.get(), b.get()));
    }
    let jump: u32 = u32::MAX - 2_000_000 - 30_000 + 1;
    a.add_assign(jump);
    b.add_assign(jump);
    assert_eq!(a.get() % 2, 0);
    for _ in 0..1_000_000u64 {
        a.add_assign(2);
        b.add_assign(2);
        assert!(a.lt(&b), "{}", format!("test failed {} {}", a.get(), b.get()));
    }
    assert!(a.get() < 2_000_000);
}

#[test]
fn cycle_order_across_the_wrap() {
    assert_eq!(250u8.cycle_cmp(&3u8, 10), CycleOrder::Less);
    assert_eq!(3u8.cycle_cmp(&250u8, 10), CycleOrder::Greater);
    assert_eq!(3u8.cycle_cmp(&4u8, 10), CycleOrder::Less);
    assert_eq!(7u16.cycle_cmp(&7u16, 3), CycleOrder::Equal);
    assert_eq!(u64::MAX.cycle_cmp(&0u64, 5), CycleOrder::Less);
    assert_eq!(100u32.cycle_partial_cmp(&50u32, 10), Some(CycleOrder::Greater));
}

#[test]
fn counter_wraps_when_added_past_the_top() {
    let mut c = CycleCount::new(u16::MAX - 1, 100u16);
    c.add_assign(3);
    assert_eq!(c.get(), 1);
    let mut x = 254u8;
    x.uncheck_add_assign(5);
    assert_eq!(x, 3);
}

#[test]
fn range_tests_at_the_ends() {
    assert!(0u32.in_min_range(5, 10));
    assert!(!0u32.in_min_range(50, 10));
    assert!(0u32.in_max_range(u32::MAX - 3, 10));
    assert!(!0u32.in_max_range(u32::MAX - 30, 10));
}
