use rw_visualizer::resource_box::ResourceBox;
use rw_visualizer::threads::{ThreadState, ThreadsVisualizer};

/// Counts the entities granted the resource at `r` in each mode.
fn granted_counts(tv: &ThreadsVisualizer, r: usize) -> (usize, usize) {
    let mut readers = 0;
    let mut writers = 0;
    for t in &tv.threads {
        if t.resource_in_use == Some(r) {
            match t.state {
                ThreadState::Reading => readers += 1,
                ThreadState::Writing => writers += 1,
                _ => panic!("an entity holds a resource in a non-granted state"),
            }
        }
    }
    (readers, writers)
}

fn check_conservation(tv: &ThreadsVisualizer, pool: &ResourceBox) {
    for (r, res) in pool.resources.iter().enumerate() {
        let (readers, writers) = granted_counts(tv, r);
        assert_eq!(readers, res.read_count);
        assert_eq!(writers, res.write_count);
    }
    for t in &tv.threads {
        if let Some(h) = t.resource_in_use {
            assert!(h < pool.resources.len());
            assert!(t.state == ThreadState::Reading || t.state == ThreadState::Writing);
        }
    }
}

fn check_mutual_exclusion(pool: &ResourceBox) {
    for res in &pool.resources {
        assert!(res.write_count <= 1);
        if res.write_count > 0 {
            assert_eq!(res.read_count, 0);
        }
    }
}

#[test]
fn fresh_pool_and_coordinator_start_idle() {
    let pool = ResourceBox::new(5);
    assert_eq!(pool.resources.len(), 5);
    for res in &pool.resources {
        assert_eq!(res.read_count, 0);
        assert_eq!(res.write_count, 0);
    }
    let tv = ThreadsVisualizer::new(8);
    assert_eq!(tv.threads.len(), 8);
    for t in &tv.threads {
        assert_eq!(t.state, ThreadState::Idle);
        assert_eq!(t.resource_in_use, None);
    }
}

#[test]
fn mutual_exclusion_counters() {
    let mut pool = ResourceBox::new(1);
    assert!(pool.try_set_writing(0));
    assert!(!pool.try_set_writing(0));
    assert!(!pool.try_set_reading(0));
    assert_eq!(pool.resources[0].write_count, 1);
    assert_eq!(pool.resources[0].read_count, 0);
    pool.remove_writing(0);
    assert!(pool.try_set_reading(0));
    assert!(pool.try_set_reading(0));
    assert!(!pool.try_set_writing(0));
    assert_eq!(pool.resources[0].read_count, 2);
    assert_eq!(pool.resources[0].write_count, 0);
}

#[test]
fn release_at_zero_is_noop() {
    let mut pool = ResourceBox::new(2);
    pool.remove_reading(0);
    pool.remove_writing(0);
    assert_eq!(pool.resources[0].read_count, 0);
    assert_eq!(pool.resources[0].write_count, 0);

    assert!(pool.try_set_reading(1));
    pool.remove_reading(1);
    pool.remove_reading(1);
    assert_eq!(pool.resources[1].read_count, 0);

    assert!(pool.try_set_writing(1));
    pool.remove_writing(1);
    pool.remove_writing(1);
    assert_eq!(pool.resources[1].write_count, 0);
}

#[test]
fn writer_blocks_reader() {
    let mut pool = ResourceBox::new(1);
    let mut tv = ThreadsVisualizer::new(2);

    tv.set_thread_resource_state(&mut pool, 0, ThreadState::Writing, Some(0));
    assert_eq!(tv.threads[0].state, ThreadState::Writing);
    assert_eq!(tv.threads[0].resource_in_use, Some(0));
    assert_eq!(pool.resources[0].read_count, 0);
    assert_eq!(pool.resources[0].write_count, 1);

    tv.set_thread_resource_state(&mut pool, 1, ThreadState::Reading, Some(0));
    assert_eq!(tv.threads[1].state, ThreadState::Waiting);
    assert_eq!(tv.threads[1].resource_in_use, None);
    assert_eq!(pool.resources[0].read_count, 0);
    assert_eq!(pool.resources[0].write_count, 1);
    check_conservation(&tv, &pool);
}

#[test]
fn release_happens_before_acquire() {
    let mut pool = ResourceBox::new(1);
    let mut tv = ThreadsVisualizer::new(1);

    tv.set_thread_resource_state(&mut pool, 0, ThreadState::Writing, Some(0));
    assert_eq!(pool.resources[0].write_count, 1);

    // The same entity re-requests the same resource as a reader: the
    // write hold is released first, so the read grant succeeds.
    tv.set_thread_resource_state(&mut pool, 0, ThreadState::Reading, Some(0));
    assert_eq!(tv.threads[0].state, ThreadState::Reading);
    assert_eq!(tv.threads[0].resource_in_use, Some(0));
    assert_eq!(pool.resources[0].read_count, 1);
    assert_eq!(pool.resources[0].write_count, 0);
    check_conservation(&tv, &pool);
}

#[test]
fn switching_resources_frees_the_old_one() {
    let mut pool = ResourceBox::new(2);
    let mut tv = ThreadsVisualizer::new(1);

    tv.set_thread_resource_state(&mut pool, 0, ThreadState::Reading, Some(0));
    assert_eq!(pool.resources[0].read_count, 1);

    tv.set_thread_resource_state(&mut pool, 0, ThreadState::Writing, Some(1));
    assert_eq!(pool.resources[0].read_count, 0);
    assert_eq!(pool.resources[1].write_count, 1);
    assert_eq!(tv.threads[0].state, ThreadState::Writing);
    assert_eq!(tv.threads[0].resource_in_use, Some(1));
    check_conservation(&tv, &pool);
}

#[test]
fn lower_index_wins_same_resource() {
    let mut pool = ResourceBox::new(1);
    let mut tv = ThreadsVisualizer::new(2);

    // Both entities want to write the same resource in one tick;
    // they are reconciled in increasing index order.
    tv.set_thread_resource_state(&mut pool, 0, ThreadState::Writing, Some(0));
    tv.set_thread_resource_state(&mut pool, 1, ThreadState::Writing, Some(0));

    assert_eq!(tv.threads[0].state, ThreadState::Writing);
    assert_eq!(tv.threads[0].resource_in_use, Some(0));
    assert_eq!(tv.threads[1].state, ThreadState::Waiting);
    assert_eq!(tv.threads[1].resource_in_use, None);
    assert_eq!(pool.resources[0].write_count, 1);
    check_conservation(&tv, &pool);
}

#[test]
fn empty_pool_update_is_noop() {
    let mut pool = ResourceBox::new(0);
    let mut tv = ThreadsVisualizer::new(4);
    for _ in 0..10 {
        tv.update_threads_randomly(&mut pool);
    }
    assert_eq!(tv.threads.len(), 4);
    for t in &tv.threads {
        assert_eq!(t.state, ThreadState::Idle);
        assert_eq!(t.resource_in_use, None);
    }
}

#[test]
fn out_of_range_indices_are_refused() {
    let mut pool = ResourceBox::new(2);
    assert!(!pool.try_set_reading(2));
    assert!(!pool.try_set_writing(5));
    pool.remove_reading(9);
    pool.remove_writing(9);
    for res in &pool.resources {
        assert_eq!(res.read_count, 0);
        assert_eq!(res.write_count, 0);
    }

    let mut tv = ThreadsVisualizer::new(1);
    tv.set_thread_resource_state(&mut pool, 7, ThreadState::Writing, Some(0));
    assert_eq!(tv.threads[0].state, ThreadState::Idle);
    assert_eq!(pool.resources[0].write_count, 0);

    // A granted-state request against an out-of-range resource fails
    // and downgrades the entity to waiting.
    tv.set_thread_resource_state(&mut pool, 0, ThreadState::Reading, Some(2));
    assert_eq!(tv.threads[0].state, ThreadState::Waiting);
    assert_eq!(tv.threads[0].resource_in_use, None);
}

#[test]
fn idle_or_waiting_request_discards_resource() {
    let mut pool = ResourceBox::new(1);
    let mut tv = ThreadsVisualizer::new(1);

    tv.set_thread_resource_state(&mut pool, 0, ThreadState::Idle, Some(0));
    assert_eq!(tv.threads[0].state, ThreadState::Idle);
    assert_eq!(tv.threads[0].resource_in_use, None);
    assert_eq!(pool.resources[0].read_count, 0);

    tv.set_thread_resource_state(&mut pool, 0, ThreadState::Waiting, Some(0));
    assert_eq!(tv.threads[0].state, ThreadState::Waiting);
    assert_eq!(tv.threads[0].resource_in_use, None);
    assert_eq!(pool.resources[0].read_count, 0);
    assert_eq!(pool.resources[0].write_count, 0);
}

#[test]
fn conservation_after_reconciles() {
    let mut pool = ResourceBox::new(3);
    let mut tv = ThreadsVisualizer::new(5);

    tv.set_thread_resource_state(&mut pool, 0, ThreadState::Reading, Some(0));
    tv.set_thread_resource_state(&mut pool, 1, ThreadState::Reading, Some(0));
    tv.set_thread_resource_state(&mut pool, 2, ThreadState::Writing, Some(1));
    tv.set_thread_resource_state(&mut pool, 3, ThreadState::Writing, Some(0));
    tv.set_thread_resource_state(&mut pool, 4, ThreadState::Reading, Some(2));
    check_conservation(&tv, &pool);
    check_mutual_exclusion(&pool);
    assert_eq!(pool.resources[0].read_count, 2);
    assert_eq!(pool.resources[1].write_count, 1);
    assert_eq!(pool.resources[2].read_count, 1);
    assert_eq!(tv.threads[3].state, ThreadState::Waiting);

    tv.set_thread_resource_state(&mut pool, 0, ThreadState::Idle, None);
    tv.set_thread_resource_state(&mut pool, 1, ThreadState::Idle, None);
    tv.set_thread_resource_state(&mut pool, 3, ThreadState::Writing, Some(0));
    check_conservation(&tv, &pool);
    check_mutual_exclusion(&pool);
    assert_eq!(pool.resources[0].read_count, 0);
    assert_eq!(pool.resources[0].write_count, 1);
    assert_eq!(tv.threads[3].state, ThreadState::Writing);
}

#[test]
fn random_update_keeps_invariants() {
    let mut pool = ResourceBox::new(3);
    let mut tv = ThreadsVisualizer::new(6);
    for _ in 0..25 {
        tv.update_threads_randomly(&mut pool);
        assert_eq!(tv.threads.len(), 6);
        assert_eq!(pool.resources.len(), 3);
        check_conservation(&tv, &pool);
        check_mutual_exclusion(&pool);
    }
}
