//! Event processor implementations: the concrete pipeline stages.
//!
//! A stage's behaviour is drawn from a closed set of predicates and
//! transforms, so every stage has an exact specification over the event's
//! mathematical view.

use vstd::prelude::*;
use crate::dataplane::{Event, EventView};

verus! {

/// Marker type for the event-processing subsystem.
pub struct EventProcessor;

/// Predicates a filter stage can apply to an event.
#[derive(Debug, Clone, Copy, PartialEq, Eq)]
pub enum EventPredicate {
    /// Every event passes.
    Always,
    /// Only events from the given source pass.
    SourceEquals(u32),
    /// Only events carrying at least this many payload bytes pass.
    DataAtLeast(usize),
    /// Only events with an even identifier pass.
    IdEven,
}

impl EventPredicate {
    /// What the predicate holds of an event.
    pub open spec fn spec_eval(self, e: EventView) -> bool {
        match self {
            EventPredicate::Always => true,
            EventPredicate::SourceEquals(s) => e.source_id == s,
            EventPredicate::DataAtLeast(n) => e.data.len() >= n,
            EventPredicate::IdEven => e.id % 2 == 0,
        }
    }

    /// Evaluate the predicate on an event.
    pub fn eval(&self, e: &Event) -> (r: bool)
        ensures
            r == self.spec_eval(e@),
    {
        match self {
            EventPredicate::Always => true,
            EventPredicate::SourceEquals(s) => e.source_id == *s,
            EventPredicate::DataAtLeast(n) => e.data.len() >= *n,
            EventPredicate::IdEven => e.id % 2 == 0,
        }
    }
}

/// Transforms a transform stage can apply to an event.
#[derive(Debug, Clone, Copy, PartialEq, Eq)]
pub enum EventTransform {
    /// Leave the event unchanged.
    Identity,
    /// Rewrite the source identifier.
    SetSource(u32),
    /// Drop the payload bytes, keeping the identity fields.
    ClearData,
}

impl EventTransform {
    /// What the transform produces from an event.
    pub open spec fn spec_apply(self, e: EventView) -> EventView {
        match self {
            EventTransform::Identity => e,
            EventTransform::SetSource(s) => EventView { source_id: s, ..e },
            EventTransform::ClearData => EventView { data: Seq::<u8>::empty(), ..e },
        }
    }

    /// Apply the transform to an event.
    pub fn apply(&self, e: Event) -> (r: Event)
        ensures
            r@ == self.spec_apply(e@),
    {
        match self {
            EventTransform::Identity => e,
            EventTransform::SetSource(s) => Event { source_id: *s, ..e },
            EventTransform::ClearData => Event { data: Vec::new(), ..e },
        }
    }
}

/// Filter stage: drops events that fail its predicate.
#[derive(Debug, Clone, Copy, PartialEq, Eq)]
pub struct FilterStage {
    /// The predicate an event must satisfy to pass.
    pub predicate: EventPredicate,
}

impl FilterStage {
    /// Build a filter stage from a predicate.
    pub fn new(predicate: EventPredicate) -> (s: FilterStage)
        ensures
            s.predicate == predicate,
    {
        FilterStage { predicate }
    }
}

/// Transform stage: rewrites events.
#[derive(Debug, Clone, Copy, PartialEq, Eq)]
pub struct TransformStage {
    /// The transform applied to every event.
    pub transformer: EventTransform,
}

impl TransformStage {
    /// Build a transform stage from a transform.
    pub fn new(transformer: EventTransform) -> (s: TransformStage)
        ensures
            s.transformer == transformer,
    {
        TransformStage { transformer }
    }
}

} // verus!
