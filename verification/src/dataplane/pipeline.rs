//! The event-processing pipeline.
//!
//! A pipeline runs its stages in order; a stage may pass an event on,
//! rewrite it, or filter it out. Stages are drawn from a closed set of
//! predicates and transforms — narrower than arbitrary caller closures,
//! and in exchange every stage carries an exact specification and the
//! chain is total: what each stage does is pinned, so what the whole
//! pipeline does is too, and `execute` yields an event or None rather
//! than an error.

use vstd::prelude::*;
use crate::dataplane::{Event, EventView};
use crate::dataplane::processor::{FilterStage, TransformStage};

verus! {

/// A stage of the pipeline. Implementors fix, as `spec_process`, what
/// their `process` returns when it succeeds.
pub trait PipelineStage {
    /// What the stage produces from an event: the event to pass on, or
    /// None to filter it out.
    spec fn spec_process(&self, e: EventView) -> Option<EventView>;

    /// Run the stage on an event.
    fn process(&self, event: &Event) -> (r: Result<Option<Event>, String>)
        ensures
            r matches Ok(out) ==> match (out, self.spec_process(event@)) {
                (Some(e), Some(v)) => e@ == v,
                (None, None) => true,
                _ => false,
            },
    ;
}

/// A stage as stored by the pipeline: one of the concrete stage kinds.
#[derive(Debug, Clone, Copy, PartialEq, Eq)]
pub enum StageKind {
    /// A filter stage.
    Filter(FilterStage),
    /// A transform stage.
    Transform(TransformStage),
}

impl StageKind {
    /// What the stage produces from an event.
    pub open spec fn spec_apply(self, e: EventView) -> Option<EventView> {
        match self {
            StageKind::Filter(f) => if f.predicate.spec_eval(e) {
                Some(e)
            } else {
                None
            },
            StageKind::Transform(t) => Some(t.transformer.spec_apply(e)),
        }
    }

    /// Run the stage on an event, by value.
    pub fn apply(&self, event: Event) -> (r: Option<Event>)
        ensures
            match (r, self.spec_apply(event@)) {
                (Some(e), Some(v)) => e@ == v,
                (None, None) => true,
                _ => false,
            },
    {
        match self {
            StageKind::Filter(f) => {
                if f.predicate.eval(&event) {
                    Some(event)
                } else {
                    None
                }
            },
            StageKind::Transform(t) => Some(t.transformer.apply(event)),
        }
    }
}

impl PipelineStage for StageKind {
    open spec fn spec_process(&self, e: EventView) -> Option<EventView> {
        self.spec_apply(e)
    }

    /// The closed stage set is total: this implementation never fails.
    fn process(&self, event: &Event) -> (r: Result<Option<Event>, String>)
        ensures
            r is Ok,
    {
        Ok(self.apply(event.duplicate()))
    }
}

impl PipelineStage for FilterStage {
    open spec fn spec_process(&self, e: EventView) -> Option<EventView> {
        if self.predicate.spec_eval(e) {
            Some(e)
        } else {
            None
        }
    }

    /// A filter never fails; it only passes the event on or drops it.
    fn process(&self, event: &Event) -> (r: Result<Option<Event>, String>)
        ensures
            r is Ok,
    {
        if self.predicate.eval(event) {
            Ok(Some(event.duplicate()))
        } else {
            Ok(None)
        }
    }
}

impl PipelineStage for TransformStage {
    open spec fn spec_process(&self, e: EventView) -> Option<EventView> {
        Some(self.transformer.spec_apply(e))
    }

    /// A transform never fails and never filters.
    fn process(&self, event: &Event) -> (r: Result<Option<Event>, String>)
        ensures
            r is Ok,
    {
        Ok(Some(self.transformer.apply(event.duplicate())))
    }
}

/// What a stage sequence produces from an event: each stage in order,
/// stopping with None as soon as one filters the event out.
pub open spec fn spec_execute(stages: Seq<StageKind>, e: EventView) -> Option<EventView>
    decreases stages.len(),
{
    if stages.len() == 0 {
        Some(e)
    } else {
        match stages[0].spec_apply(e) {
            Some(next) => spec_execute(stages.skip(1), next),
            None => None,
        }
    }
}

/// An ordered chain of stages.
#[derive(Debug, Clone, PartialEq, Eq)]
pub struct Pipeline {
    /// The stages, in execution order.
    pub stages: Vec<StageKind>,
}

impl Pipeline {
    /// An empty pipeline, which passes every event through unchanged.
    pub fn new() -> (p: Pipeline)
        ensures
            p.stages@ == Seq::<StageKind>::empty(),
    {
        Pipeline { stages: Vec::new() }
    }

    /// Append a stage at the end of the chain.
    pub fn add_stage(&mut self, stage: StageKind)
        ensures
            final(self).stages@ == old(self).stages@.push(stage),
    {
        self.stages.push(stage);
    }

    /// Run every stage in order on the event. Returns the transformed
    /// event, or None when some stage filtered it out.
    pub fn execute(&self, event: Event) -> (r: Option<Event>)
        ensures
            match (r, spec_execute(self.stages@, event@)) {
                (Some(e), Some(v)) => e@ == v,
                (None, None) => true,
                _ => false,
            },
    {
        let mut current = event;
        let n = self.stages.len();
        let mut i: usize = 0;
        proof {
            assert(self.stages@.skip(0) =~= self.stages@);
        }
        while i < n
            invariant
                n == self.stages@.len(),
                i <= n,
                spec_execute(self.stages@, event@) == spec_execute(
                    self.stages@.skip(i as int),
                    current@,
                ),
            decreases n - i,
        {
            assert(self.stages@.skip(i as int)[0] == self.stages@[i as int]);
            match self.stages[i].apply(current) {
                Some(next) => {
                    proof {
                        assert(self.stages@.skip(i as int).skip(1) =~= self.stages@.skip(
                            i as int + 1,
                        ));
                    }
                    current = next;
                },
                None => {
                    return None;
                },
            }
            i = i + 1;
        }
        proof {
            assert(self.stages@.skip(n as int) =~= Seq::<StageKind>::empty());
        }
        Some(current)
    }
}

impl Default for Pipeline {
    /// The default pipeline is empty.
    fn default() -> (p: Pipeline)
        ensures
            p.stages@ == Seq::<StageKind>::empty(),
    {
        Pipeline::new()
    }
}

} // verus!
