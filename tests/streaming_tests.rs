use paraselene::chunk::Chunk;
use paraselene::coord::ChunkCoord;
use paraselene::streaming::{drain_budget, StreamConfig, StreamingController};

fn c(x: u32, y: u32) -> ChunkCoord {
    ChunkCoord::new(x, y)
}

fn config(hysteresis: u32) -> StreamConfig {
    StreamConfig {
        base_rate: 1,
        check_interval_nanos: 250_000_000,
        min_chunk: 2,
        max_chunk: 1250,
        hysteresis,
    }
}

#[test]
fn budget_scales_with_started_seconds() {
    assert_eq!(drain_budget(1, 16_000_000, 100), 1);
    assert_eq!(drain_budget(1, 0, 100), 0);
    assert_eq!(drain_budget(1, 1_000_000_000, 100), 1);
    assert_eq!(drain_budget(1, 1_500_000_000, 100), 2);
    assert_eq!(drain_budget(3, 2_000_000_001, 100), 9);
    assert_eq!(drain_budget(3, 2_000_000_001, 4), 4);
    assert_eq!(drain_budget(u32::MAX, u64::MAX, usize::MAX), usize::MAX);
}

#[test]
fn standard_config_values() {
    let s = StreamConfig::standard();
    assert_eq!(s, config(8));
}

#[test]
fn slow_pass_covers_window() {
    let mut ctl = StreamingController::new(config(2));
    let evicted = ctl.slow_pass(c(50, 50), 3, 3, &Vec::new());
    assert!(evicted.is_empty());
    for x in 47..53 {
        for y in 47..53 {
            assert!(ctl.map().is_queued(c(x, y)) || ctl.map().is_loaded(c(x, y)));
        }
    }
    assert_eq!(ctl.map().load_queue().len(), 36);
    assert!(!ctl.map().is_queued(c(53, 50)));
    assert_eq!(ctl.map().load_queue()[0], c(47, 47));
    assert_eq!(ctl.map().load_queue()[1], c(47, 48));
}

#[test]
fn slow_pass_evicts_beyond_margin_only() {
    let mut ctl = StreamingController::new(config(2));
    let due = ctl.begin_tick(0);
    assert!(!due);
    ctl.slow_pass(c(56, 50), 0, 0, &vec![c(56, 50), c(54, 50)]);
    assert!(ctl.begin_tick(2_000_000_000));
    assert_eq!(ctl.next_pending(), Some(c(56, 50)));
    ctl.complete_pending(11, Chunk::new());
    assert_eq!(ctl.next_pending(), Some(c(54, 50)));
    ctl.complete_pending(12, Chunk::new());
    assert_eq!(ctl.next_pending(), None);
    assert!(ctl.map().is_loaded(c(56, 50)));
    assert!(ctl.map().is_loaded(c(54, 50)));

    let evicted = ctl.slow_pass(c(50, 50), 3, 3, &Vec::new());
    assert_eq!(evicted, vec![(c(56, 50), 11)]);
    assert!(!ctl.map().is_loaded(c(56, 50)));
    assert!(ctl.map().is_loaded(c(54, 50)));
    assert!(!ctl.map().is_queued(c(54, 50)));
}

#[test]
fn tick_drains_by_budget_and_requeues_on_abort() {
    let mut ctl = StreamingController::new(config(8));
    ctl.slow_pass(c(10, 10), 1, 1, &Vec::new());
    assert_eq!(ctl.map().load_queue().len(), 4);
    assert!(!ctl.begin_tick(100_000_000));
    assert_eq!(ctl.next_pending(), Some(c(9, 9)));
    assert_eq!(ctl.map().load_queue().len(), 3);
    ctl.abort_pending();
    assert_eq!(ctl.next_pending(), None);
    assert_eq!(ctl.map().load_queue()[0], c(9, 9));
    assert_eq!(ctl.map().load_queue().len(), 4);
    assert!(ctl.begin_tick(150_000_000));
    assert_eq!(ctl.next_pending(), Some(c(9, 9)));
    assert!(!ctl.begin_tick(1));
    assert_eq!(ctl.next_pending(), Some(c(9, 9)));
}

#[test]
fn pending_chunks_are_not_queued_twice() {
    let mut ctl = StreamingController::new(config(8));
    ctl.slow_pass(c(10, 10), 1, 1, &Vec::new());
    ctl.begin_tick(3_000_000_000);
    assert_eq!(ctl.map().load_queue().len(), 1);
    ctl.slow_pass(c(10, 10), 1, 1, &Vec::new());
    assert_eq!(ctl.next_pending(), None);
    assert_eq!(ctl.map().load_queue(), &vec![c(9, 9), c(9, 10), c(10, 9), c(10, 10)]);
}

#[test]
fn slow_pass_keeps_waiting_order_ahead_of_new_requests() {
    let mut ctl = StreamingController::new(config(8));
    ctl.slow_pass(c(10, 10), 1, 1, &Vec::new());
    ctl.begin_tick(2_000_000_000);
    assert_eq!(ctl.next_pending(), Some(c(9, 9)));
    ctl.slow_pass(c(11, 10), 1, 1, &vec![c(30, 30)]);
    assert_eq!(
        ctl.map().load_queue(),
        &vec![c(9, 9), c(9, 10), c(10, 9), c(10, 10), c(30, 30), c(11, 9), c(11, 10)]
    );
}
