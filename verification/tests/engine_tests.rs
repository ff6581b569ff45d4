use zenith::engine::ZenithEngine;
use zenith::error::ZenithError;
use zenith::event::{ForeignArray, ForeignSchema, RecordBatch, ZenithEvent};
use zenith::ring_buffer::ZenithRingBuffer;

fn batch(ok: bool) -> RecordBatch {
    RecordBatch {
        array: ForeignArray { n_children: 2, n_rows: 3, n_bytes: 64, released: false },
        schema: ForeignSchema { struct_root: ok, n_fields: 2, released: false },
    }
}

fn event(seq_no: u64) -> ZenithEvent {
    ZenithEvent::new(1, seq_no, batch(true))
}

#[test]
fn s1_ring_wrap() {
    let mut ring = ZenithRingBuffer::new(4);

    assert!(ring.push(event(1)).is_ok());
    assert!(ring.push(event(2)).is_ok());
    assert!(ring.push(event(3)).is_ok());
    assert!(ring.push(event(4)).is_ok());

    assert_eq!(ring.pop().unwrap().header.seq_no, 1);
    assert_eq!(ring.pop().unwrap().header.seq_no, 2);

    assert!(ring.push(event(5)).is_ok());
    assert!(ring.push(event(6)).is_ok());
    assert!(matches!(ring.push(event(7)), Err(ZenithError::BufferFull)));

    assert_eq!(ring.pop().unwrap().header.seq_no, 3);
    assert_eq!(ring.pop().unwrap().header.seq_no, 4);
    assert_eq!(ring.pop().unwrap().header.seq_no, 5);
    assert_eq!(ring.pop().unwrap().header.seq_no, 6);
    assert!(ring.pop().is_none());
}

#[test]
fn ring_capacity_boundary() {
    let mut ring = ZenithRingBuffer::new(2);
    assert!(ring.try_push(event(1)).is_ok());
    assert!(ring.try_push(event(2)).is_ok());
    let back = ring.try_push(event(3));
    assert!(back.is_err());
    assert_eq!(back.unwrap_err().header.seq_no, 3);
    assert_eq!(ring.len(), 2);
    assert!(!ring.is_empty());
}

#[test]
fn s5_foreign_release() {
    let mut engine = ZenithEngine::new(8).unwrap();
    let malformed = batch(false);
    let (status, remnant) = engine.publish(malformed, 7, 1);
    assert_eq!(status, -4);
    let released = remnant.unwrap();
    assert!(released.array.released);
    assert!(released.schema.released);
    assert_eq!(engine.buffer_len(), 0);
}

#[test]
fn publish_full_ring_releases() {
    let mut engine = ZenithEngine::new(1).unwrap();
    let (s1, r1) = engine.publish(batch(true), 1, 1);
    assert_eq!(s1, 0);
    assert!(r1.is_none());

    let (s2, r2) = engine.publish(batch(true), 1, 2);
    assert_eq!(s2, -2);
    let released = r2.unwrap();
    assert!(released.array.released);
    assert!(released.schema.released);
}

#[test]
fn publish_dispatch_releases_once() {
    let mut engine = ZenithEngine::new(4).unwrap();
    let (status, _) = engine.publish(batch(true), 3, 9);
    assert_eq!(status, 0);
    assert_eq!(engine.buffer_len(), 1);

    let report = engine.dispatch_next().unwrap();
    assert_eq!(report.source_id, 3);
    assert_eq!(report.seq_no, 9);
    assert!(report.accepted);
    let payload = report.payload.unwrap();
    assert!(payload.array.released);
    assert!(payload.schema.released);

    let stats = engine.get_stats();
    assert_eq!(stats.events_received, 1);
    assert_eq!(stats.events_processed, 1);
    assert_eq!(stats.events_dropped, 0);
    assert_eq!(stats.bytes_processed, 64);

    assert!(engine.dispatch_next().is_none());
}

#[test]
fn stats_roundtrip_after_restart() {
    let mut engine = ZenithEngine::new(4).unwrap();
    let (s, _) = engine.publish(batch(true), 1, 1);
    assert_eq!(s, 0);
    engine.dispatch_next().unwrap();
    assert_eq!(engine.get_stats().events_processed, 1);

    let mut fresh = ZenithEngine::new(4).unwrap();
    assert_eq!(fresh.get_stats().events_processed, 0);
    let (s2, _) = fresh.publish(batch(true), 1, 1);
    assert_eq!(s2, 0);
    fresh.dispatch_next().unwrap();
    assert_eq!(fresh.get_stats().events_processed, 1);
}

#[test]
fn shutdown_tears_down_queue() {
    let mut engine = ZenithEngine::new(4).unwrap();
    engine.publish(batch(true), 1, 1);
    engine.publish(batch(true), 1, 2);
    assert_eq!(engine.buffer_len(), 2);
    assert!(engine.is_running());

    engine.shutdown();
    assert!(!engine.is_running());
    assert_eq!(engine.buffer_len(), 0);

    engine.start();
    assert!(engine.is_running());
}
