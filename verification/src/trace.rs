use vstd::prelude::*;

verus! {

/// Distinguishes the emission of a message from its reception.
#[derive(Clone, Copy, PartialEq, Eq, Structural, Hash, Debug)]
pub enum TraceActionKind {
    Emission,
    Reception,
}

/// One observable action of the log: a component (lifeline) either emits or
/// receives.  Two actions are the same action exactly when both fields agree.
#[derive(Clone, Copy, PartialEq, Eq, Structural, Hash, Debug)]
pub struct TraceAction {
    /// Identifier of the component (lifeline) performing the action.
    pub lf_id: usize,
    /// Whether the component emits or receives.
    pub act_kind: TraceActionKind,
}

/// A multi-action: a set of actions considered simultaneous, kept as a
/// repetition-free vector.
pub type MultiAction = Vec<TraceAction>;

/// One canal of the log: the ordered multi-actions observed on a group of
/// co-located components.
pub type Trace = Vec<MultiAction>;

} // verus!
