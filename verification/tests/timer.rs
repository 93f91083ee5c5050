use taskcore::config::Config;
use taskcore::objects::TaskRef;
use taskcore::timer::{
    add_timer, check_timer, check_timer_at, check_timer_on, get_time, get_time_ms, get_time_us,
    next_trigger, scale_ticks, set_next_trigger, time_ms_at, time_us_at, TimerQueue,
    MICRO_PER_SEC, MSEC_PER_SEC,
};

fn config() -> Config {
    Config {
        clock_freq: 12_500_000,
        page_size: 4096,
        trap_context_base: 0xffff_ffff_ffff_e000,
        user_stack_size: 8192,
        kernel_token: 0x8000_0000_0008_0000,
        trap_handler: 0x8020_1000,
    }
}

#[test]
fn ticks_scale_to_milliseconds_and_microseconds() {
    assert_eq!(scale_ticks(12_500_000, MSEC_PER_SEC, 12_500_000), Some(1000));
    assert_eq!(scale_ticks(12_499, MSEC_PER_SEC, 12_500_000), Some(0));
    assert_eq!(scale_ticks(12_500, MSEC_PER_SEC, 12_500_000), Some(1));
    assert_eq!(scale_ticks(25, MICRO_PER_SEC, 12_500_000), Some(2));
    assert_eq!(scale_ticks(37, MICRO_PER_SEC, 10_000_000), Some(3));
}

#[test]
fn readings_are_in_milliseconds_and_microseconds() {
    let config = config();
    assert_eq!(time_ms_at(Some(37_500_025), &config), Some(3_000));
    assert_eq!(time_us_at(Some(37_500_025), &config), Some(3_000_002));
    assert_eq!(time_ms_at(None, &config), None);
    assert_eq!(time_us_at(None, &config), None);
    // Too large in microseconds only.
    let ticks = usize::MAX / MSEC_PER_SEC;
    assert_eq!(time_ms_at(Some(ticks), &config), Some(ticks * 1000 / 12_500_000));
    assert_eq!(time_us_at(Some(ticks), &config), None);
}

#[test]
fn timers_are_checked_in_milliseconds() {
    let mut queue = TimerQueue::new();
    add_timer(&mut queue, 3_000, TaskRef(1));
    add_timer(&mut queue, 3_001, TaskRef(2));
    // A tick before three seconds, and three seconds.
    assert_eq!(check_timer_on(&mut queue, &config(), Some(37_499_999)), Some(vec![]));
    assert_eq!(check_timer_on(&mut queue, &config(), None), None);
    assert_eq!(check_timer_on(&mut queue, &config(), Some(usize::MAX)), None);
    assert_eq!(
        check_timer_on(&mut queue, &config(), Some(37_500_000)),
        Some(vec![TaskRef(1)])
    );
    assert_eq!(queue.entries[&3_001], vec![TaskRef(2)]);
}

#[test]
fn ticks_too_large_to_scale() {
    assert_eq!(scale_ticks(usize::MAX, MSEC_PER_SEC, 12_500_000), None);
    let largest = usize::MAX / MICRO_PER_SEC;
    assert_eq!(
        scale_ticks(largest, MICRO_PER_SEC, 1),
        Some(largest * MICRO_PER_SEC)
    );
    assert_eq!(scale_ticks(largest + 1, MICRO_PER_SEC, 1), None);
}

#[test]
fn scaling_is_monotone() {
    let early = scale_ticks(99_999, MSEC_PER_SEC, 12_500_000);
    let late = scale_ticks(100_000, MSEC_PER_SEC, 12_500_000);
    assert_eq!((early, late), (Some(7), Some(8)));
}

#[test]
fn the_next_trigger_is_a_hundredth_of_a_second_away() {
    assert_eq!(next_trigger(Some(1_000), &config()), Some(126_000));
    assert_eq!(next_trigger(Some(usize::MAX), &config()), None);
    assert_eq!(next_trigger(None, &config()), None);
}

#[test]
fn the_clock_is_read_where_there_is_one() {
    // Only RISC-V machines have the register.
    match get_time() {
        Some(ticks) => {
            assert!(ticks <= get_time().unwrap());
            assert!(get_time_ms(&config()).is_some());
            assert!(set_next_trigger(&config()).unwrap() > ticks);
        }
        None => {
            assert_eq!(get_time_ms(&config()), None);
            assert_eq!(get_time_us(&config()), None);
            assert_eq!(set_next_trigger(&config()), None);
            let mut queue = TimerQueue::new();
            add_timer(&mut queue, 0, TaskRef(1));
            assert_eq!(check_timer(&mut queue, &config()), None);
            assert_eq!(check_timer_at(&mut queue, 0), vec![TaskRef(1)]);
        }
    }
}

#[test]
fn expired_tasks_wake_in_order_of_time_then_of_arrival() {
    let mut queue = TimerQueue::new();
    add_timer(&mut queue, 30, TaskRef(1));
    add_timer(&mut queue, 10, TaskRef(2));
    add_timer(&mut queue, 30, TaskRef(3));
    add_timer(&mut queue, 20, TaskRef(4));
    add_timer(&mut queue, 40, TaskRef(5));
    let woken = check_timer_at(&mut queue, 30);
    assert_eq!(woken, vec![TaskRef(2), TaskRef(4), TaskRef(1), TaskRef(3)]);
    assert_eq!(queue.entries.len(), 1);
    assert_eq!(queue.entries[&40], vec![TaskRef(5)]);
}

#[test]
fn a_second_check_wakes_nobody() {
    let mut queue = TimerQueue::new();
    add_timer(&mut queue, 5, TaskRef(1));
    assert_eq!(check_timer_at(&mut queue, 4), vec![]);
    assert_eq!(check_timer_at(&mut queue, 5), vec![TaskRef(1)]);
    assert_eq!(check_timer_at(&mut queue, 5), vec![]);
    assert_eq!(check_timer_at(&mut queue, usize::MAX), vec![]);
}

#[test]
fn two_checks_wake_what_one_would() {
    let fill = |queue: &mut TimerQueue| {
        for (time, task) in [(7, 1), (3, 2), (9, 3), (7, 4), (usize::MAX, 5)] {
            add_timer(queue, time, TaskRef(task));
        }
    };
    let mut once = TimerQueue::new();
    fill(&mut once);
    let all = check_timer_at(&mut once, 9);
    let mut twice = TimerQueue::new();
    fill(&mut twice);
    let mut parts = check_timer_at(&mut twice, 6);
    parts.extend(check_timer_at(&mut twice, 9));
    assert_eq!(all, parts);
    assert_eq!(once.entries, twice.entries);
    assert_eq!(check_timer_at(&mut once, usize::MAX), vec![TaskRef(5)]);
}
