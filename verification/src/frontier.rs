use vstd::prelude::*;

use crate::context::AnalysisContext;
use crate::trace::TraceAction;

verus! {

/// A candidate next multi-action proposed by the specification term: the
/// actions themselves, the component identifiers that take part, and the
/// deepest loop nesting that executing it would instantiate.  Frontier
/// elements are computed by the term semantics outside this crate.
#[derive(Clone, Debug, PartialEq, Eq)]
pub struct FrontierElement {
    pub target_lf_ids: Vec<usize>,
    pub target_actions: Vec<TraceAction>,
    pub max_loop_depth: u32,
}

/// The mathematical content of a frontier element: actions and components as
/// sets.
pub struct FrontierElementModel {
    pub target_lf_ids: Set<usize>,
    pub target_actions: Set<TraceAction>,
    pub max_loop_depth: u32,
}

impl FrontierElement {
    pub open spec fn model(self) -> FrontierElementModel {
        FrontierElementModel {
            target_lf_ids: self.target_lf_ids@.to_set(),
            target_actions: self.target_actions@.to_set(),
            max_loop_depth: self.max_loop_depth,
        }
    }

    /// Well-formedness against the analysis context: the action and component
    /// sets are repetition-free, every listed component exists in the
    /// co-localization index, and every target action belongs to a listed
    /// component.
    pub open spec fn wf(self, ctx: AnalysisContext) -> bool {
        &&& self.target_actions@.no_duplicates()
        &&& self.target_lf_ids@.no_duplicates()
        &&& forall|i: int|
            0 <= i < self.target_lf_ids@.len() ==> (#[trigger] self.target_lf_ids@[i] as int)
                < ctx.co_localizations.lf_to_coloc@.len()
        &&& forall|i: int|
            0 <= i < self.target_actions@.len() ==> {
                let a = #[trigger] self.target_actions@[i];
                &&& (a.lf_id as int) < ctx.co_localizations.lf_to_coloc@.len()
                &&& self.target_lf_ids@.contains(a.lf_id)
            }
    }

    /// The canal set implied by this element's target components.
    pub open spec fn target_coloc_set(self, ctx: AnalysisContext) -> Set<usize> {
        ctx.co_localizations.coloc_set_of_lfs(self.target_lf_ids@.to_set())
    }

    /// A fresh element with the same content.
    pub fn duplicate(&self) -> (r: FrontierElement)
        ensures
            r.target_lf_ids@ == self.target_lf_ids@,
            r.target_actions@ == self.target_actions@,
            r.max_loop_depth == self.max_loop_depth,
            r.model() == self.model(),
            forall|ctx: AnalysisContext| r.wf(ctx) == self.wf(ctx),
    {
        let r = FrontierElement {
            target_lf_ids: crate::sets::copy_usize_vec(&self.target_lf_ids),
            target_actions: crate::sets::copy_action_vec(&self.target_actions),
            max_loop_depth: self.max_loop_depth,
        };
        r
    }
}

} // verus!
