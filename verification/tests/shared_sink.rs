use aobscan::shared::SharedSink;
use aobscan::{Pattern, PatternBuilder};
use std::sync::atomic::{AtomicBool, Ordering};

fn ida(text: &str, threads: usize) -> Pattern {
    PatternBuilder::from_ida_style(text)
        .unwrap()
        .with_threads_within(threads, threads)
        .unwrap()
        .build()
}

#[test]
fn a_shared_sink_halts_once_the_flag_is_set() {
    let pattern = ida("55", 1);
    let data = [0x55, 0x00, 0x55, 0x55];

    let stop = AtomicBool::new(false);
    let mut hits = Vec::new();
    let mut sink = SharedSink::new(
        |offset: usize| {
            hits.push(offset);
            true
        },
        &stop,
    );
    let mut finished = false;
    assert!(pattern.scan_chunk(&data, 10, &mut finished, &mut sink));
    assert!(!finished);
    assert!(!stop.load(Ordering::SeqCst));

    stop.store(true, Ordering::SeqCst);
    let mut finished = false;
    assert!(!pattern.scan_chunk(&data, 20, &mut finished, &mut sink));
    assert!(finished);
    let _ = sink;
    assert_eq!(hits, vec![10, 12, 13]);
}

#[test]
fn a_shared_sink_sets_the_flag_when_asked_to_stop() {
    let pattern = ida("55", 1);
    let data = [0x00, 0x55, 0x55, 0x55];
    let stop = AtomicBool::new(false);
    let mut hits = Vec::new();
    let mut sink = SharedSink::new(
        |offset: usize| {
            hits.push(offset);
            offset < 2
        },
        &stop,
    );
    let mut finished = false;
    assert!(pattern.scan_chunk(&data, 0, &mut finished, &mut sink));
    assert!(finished);
    assert!(stop.load(Ordering::SeqCst));
    assert!(!pattern.scan_into(&data, &mut sink));
    let _ = sink;
    assert_eq!(hits, vec![1, 2]);
}

#[test]
fn a_flag_set_from_within_halts_the_scan_at_the_next_candidate() {
    let pattern = ida("55", 1);
    let data = [0x55, 0x55, 0x55];
    let stop = AtomicBool::new(false);
    let mut hits = Vec::new();
    let mut sink = SharedSink::new(
        |offset: usize| {
            hits.push(offset);
            stop.store(true, Ordering::SeqCst);
            true
        },
        &stop,
    );
    let mut finished = false;
    assert!(pattern.scan_chunk(&data, 0, &mut finished, &mut sink));
    assert!(finished);
    let _ = sink;
    assert_eq!(hits, vec![0]);
}
