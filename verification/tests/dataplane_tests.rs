use zenith::dataplane::pipeline::{Pipeline, PipelineStage, StageKind};
use zenith::dataplane::processor::{EventPredicate, EventTransform, FilterStage, TransformStage};
use zenith::dataplane::{DataPlaneStats, Event};
use zenith::models::NodeStatus;
use zenith::proto::Timestamp;

fn event(id: u64, source_id: u32, data: Vec<u8>) -> Event {
    Event { id, source_id, timestamp_ns: 0, data }
}

#[test]
fn pipeline_filters_and_transforms() {
    let mut p = Pipeline::new();
    p.add_stage(StageKind::Filter(FilterStage::new(EventPredicate::IdEven)));
    p.add_stage(StageKind::Transform(TransformStage::new(EventTransform::SetSource(9))));

    let kept = p.execute(event(2, 1, vec![1, 2, 3])).unwrap();
    assert_eq!(kept.source_id, 9);
    assert_eq!(kept.data, vec![1, 2, 3]);

    assert!(p.execute(event(3, 1, vec![])).is_none());
}

#[test]
fn empty_pipeline_is_identity() {
    let p = Pipeline::default();
    let out = p.execute(event(5, 2, vec![7])).unwrap();
    assert_eq!(out.id, 5);
    assert_eq!(out.source_id, 2);
    assert_eq!(out.data, vec![7]);
}

#[test]
fn stage_trait_clears_data() {
    let stage = TransformStage::new(EventTransform::ClearData);
    let out = stage.process(&event(1, 1, vec![1, 2])).unwrap().unwrap();
    assert_eq!(out.data.len(), 0);
    assert_eq!(out.id, 1);

    let filter = FilterStage::new(EventPredicate::DataAtLeast(3));
    assert!(filter.process(&event(1, 1, vec![1, 2])).unwrap().is_none());
    assert!(filter.process(&event(1, 1, vec![1, 2, 3])).unwrap().is_some());
}

#[test]
fn stats_start_at_zero() {
    let stats = DataPlaneStats::default();
    assert_eq!(stats.events_received, 0);
    assert_eq!(stats.events_processed, 0);
    assert_eq!(stats.events_dropped, 0);
    assert_eq!(stats.bytes_processed, 0);
}

#[test]
fn timestamp_is_normalized() {
    let t = Timestamp::now();
    assert!(t.seconds >= 0);
    assert!(t.nanos >= 0 && t.nanos < 1_000_000_000);

    let fixed = Timestamp::from_nanos(1_500_000_000);
    assert_eq!(fixed.seconds, 1);
    assert_eq!(fixed.nanos, 500_000_000);
}

#[test]
fn node_status_variants_are_distinct() {
    assert_ne!(NodeStatus::Active, NodeStatus::Inactive);
    assert_ne!(NodeStatus::Inactive, NodeStatus::Maintenance);
}
