use remora::primary::pause_barrier::{Entry, PauseBarrier};

// Takes a task through the barrier as far as it comes.
fn enter(barrier: &mut PauseBarrier, mut entry: Entry) -> Entry {
    loop {
        let next = barrier.enter(entry);
        if next == entry || next == Entry::Entered {
            return next;
        }
        entry = next;
    }
}

#[test]
fn test_pause_waits_for_active_tasks() {
    let mut barrier = PauseBarrier::new();
    let mut completion_counter = 0;

    // A task enters the barrier and works.
    assert_eq!(enter(&mut barrier, Entry::Waiting), Entry::Entered);

    // The pause is not over while the task works.
    barrier.pause();
    assert!(!barrier.is_drained());
    completion_counter += 1;
    barrier.leave();
    assert!(barrier.is_drained());
    assert_eq!(completion_counter, 1);
}

#[test]
fn test_pause_waits_for_yielded_task() {
    let mut barrier = PauseBarrier::new();

    // The worker has a ticket, does some work and yields.
    assert_eq!(enter(&mut barrier, Entry::Waiting), Entry::Entered);
    let mut state = 1;

    // The pauser waits for the ticket, whatever the worker does meanwhile.
    barrier.pause();
    let mut state_at_pause = None;
    for _ in 0..3 {
        if barrier.is_drained() && state_at_pause.is_none() {
            state_at_pause = Some(state);
        }
        if state == 1 {
            state = 2;
            barrier.leave();
        }
    }
    assert_eq!(state_at_pause, Some(2), "Snapshot was taken mid-task.");
}

#[test]
fn test_tasks_are_paused_and_resumed() {
    let mut barrier = PauseBarrier::new();
    let mut completion_counter = 0;

    // Immediately pause the barrier.
    barrier.pause();
    assert!(barrier.is_drained());

    // Tasks try to enter the barrier.
    let mut tasks = vec![Entry::Waiting; 10];
    for task in tasks.iter_mut() {
        *task = enter(&mut barrier, *task);
        if *task == Entry::Entered {
            completion_counter += 1;
        }
    }
    assert_eq!(
        completion_counter, 0,
        "Tasks should be paused and not have completed."
    );

    // Resume the barrier.
    barrier.resume();
    for task in tasks.iter_mut() {
        *task = enter(&mut barrier, *task);
        if *task == Entry::Entered {
            completion_counter += 1;
            barrier.leave();
        }
    }
    assert_eq!(
        completion_counter, 10,
        "Tasks should resume and complete after the guard is dropped."
    );
}

#[test]
fn test_enter_pause_race_condition() {
    const NUM_ITERATIONS: usize = 100;
    const NUM_WORKERS: usize = 4;

    // The pauser sets the flag after some of the workers were counted and
    // before they see that the barrier is open.
    for i in 0..NUM_ITERATIONS {
        let mut barrier = PauseBarrier::new();
        let mut tasks_completed = 0;
        let mut workers = vec![Entry::Waiting; NUM_WORKERS];
        for worker in workers.iter_mut().take(i % (NUM_WORKERS + 1)) {
            *worker = barrier.enter(*worker);
            assert_eq!(*worker, Entry::Counted);
        }
        barrier.pause();
        for worker in workers.iter_mut() {
            *worker = barrier.enter(*worker);
        }
        assert!(barrier.is_drained());
        assert_eq!(
            barrier.active, 0,
            "Iteration {}: Active count should be 0 after pause",
            i
        );
        assert_eq!(
            workers.iter().filter(|worker| **worker == Entry::Entered).count(),
            0,
            "Iteration {}: No tasks should have completed before pause returns",
            i
        );

        barrier.resume();
        for worker in workers.iter_mut() {
            *worker = enter(&mut barrier, *worker);
            if *worker == Entry::Entered {
                tasks_completed += 1;
                barrier.leave();
            }
        }
        assert_eq!(
            tasks_completed, NUM_WORKERS,
            "Iteration {}: All workers should complete after resume",
            i
        );
    }
}
