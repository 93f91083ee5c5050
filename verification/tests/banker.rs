use taskcore::banker::{ensure_sem_alloc, ensure_sem_wait_for, is_safe_state};

#[test]
fn nobody_waiting_is_safe() {
    assert!(is_safe_state(&[vec![1, 2], vec![0, 3]], &[None, None], &[0, 0]));
    assert!(is_safe_state(&[], &[], &[]));
}

#[test]
fn circular_wait_is_unsafe() {
    // Thread 0 holds semaphore 0 and waits for 1; thread 1 the other way round.
    let alloc = [vec![1, 0], vec![0, 1]];
    assert!(!is_safe_state(&alloc, &[Some(1), Some(0)], &[0, 0]));
}

#[test]
fn a_free_unit_breaks_the_circle() {
    let alloc = [vec![1, 0], vec![0, 1]];
    assert!(is_safe_state(&alloc, &[Some(1), Some(0)], &[1, 0]));
    assert!(is_safe_state(&alloc, &[Some(1), Some(0)], &[0, 1]));
}

#[test]
fn waiting_for_oneself_is_unsafe() {
    assert!(!is_safe_state(&[vec![1]], &[Some(0)], &[0]));
}

#[test]
fn a_chain_of_waiters_is_safe() {
    // 0 waits for what 1 holds, 1 for what 2 holds, 2 runs.
    let alloc = [vec![1, 0, 0], vec![0, 1, 0], vec![0, 0, 1]];
    assert!(is_safe_state(&alloc, &[Some(1), Some(2), None], &[0, 0, 0]));
    // Given the other way round, it takes more than one pass.
    let alloc = [vec![0, 0, 1], vec![0, 1, 0], vec![1, 0, 0]];
    assert!(is_safe_state(&alloc, &[None, Some(2), Some(1)], &[0, 0, 0]));
}

#[test]
fn a_stuck_thread_without_units_does_no_harm() {
    assert!(is_safe_state(&[vec![0, 0]], &[Some(0)], &[0, 0]));
    assert!(is_safe_state(&[vec![0]], &[Some(7)], &[0]));
}

#[test]
fn waiting_for_a_semaphore_that_is_not_there() {
    assert!(!is_safe_state(&[vec![1]], &[Some(7)], &[5]));
}

#[test]
fn threads_without_a_wait_entry_run() {
    let alloc = [vec![1], vec![1]];
    assert!(is_safe_state(&alloc, &[Some(0)], &[0]));
}

#[test]
fn rows_may_be_short_or_long() {
    // A unit of a semaphore beyond the list counts as held.
    assert!(!is_safe_state(&[vec![0, 1]], &[Some(0)], &[0]));
    assert!(is_safe_state(&[vec![], vec![1]], &[Some(0), None], &[0, 0]));
}

#[test]
fn huge_counts_do_not_overflow() {
    let alloc = [vec![isize::MAX], vec![isize::MAX], vec![1]];
    assert!(is_safe_state(&alloc, &[None, None, Some(0)], &[isize::MAX]));
}

#[test]
fn more_units_stay_safe() {
    let alloc = [vec![1, 0], vec![0, 1]];
    let wait = [Some(1), Some(0)];
    assert!(is_safe_state(&alloc, &wait, &[0, 1]));
    assert!(is_safe_state(&alloc, &wait, &[4, 2]));
}

#[test]
fn tables_grow_and_keep_what_they_hold() {
    let mut alloc = vec![vec![3], vec![1, 2, 5]];
    ensure_sem_alloc(&mut alloc, 3, 2);
    assert_eq!(alloc, vec![vec![3, 0], vec![1, 2, 5], vec![0, 0]]);
    ensure_sem_alloc(&mut alloc, 1, 1);
    assert_eq!(alloc, vec![vec![3, 0], vec![1, 2, 5], vec![0, 0]]);

    let mut wait = vec![Some(4)];
    ensure_sem_wait_for(&mut wait, 3);
    assert_eq!(wait, vec![Some(4), None, None]);
    ensure_sem_wait_for(&mut wait, 0);
    assert_eq!(wait, vec![Some(4), None, None]);
}

#[test]
fn taking_or_giving_back_keeps_a_safe_state_safe() {
    // Thread 1 waits for what thread 0 holds.
    let wait = [None, Some(0)];
    assert!(is_safe_state(&[vec![1, 0], vec![0, 1]], &wait, &[0, 1]));
    // Thread 0 takes the free unit of semaphore 1.
    assert!(is_safe_state(&[vec![1, 1], vec![0, 1]], &wait, &[0, 0]));
    // Thread 0 gives back its unit of semaphore 0.
    assert!(is_safe_state(&[vec![0, 1], vec![0, 1]], &wait, &[1, 0]));
}
