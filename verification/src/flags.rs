use vstd::prelude::*;

use crate::context::AnalysisContext;
use crate::step::AnalysisStepKind;

verus! {

/// Progress of the analysis on one canal: the index of its next unconsumed
/// multi-action.
#[derive(Clone, Copy, PartialEq, Eq, Structural, Debug)]
pub struct TraceAnalysisFlags {
    pub consumed: usize,
}

/// Progress of the analysis on the whole multi-trace: one per-canal record,
/// plus the remaining simulation budgets.  A fresh copy is carried along each
/// explored path; budgets only shrink and `consumed` only grows.
#[derive(Clone, Debug)]
pub struct MultiTraceAnalysisFlags {
    pub canals: Vec<TraceAnalysisFlags>,
    /// How many more multi-actions may still be simulated on this path.
    pub rem_act_in_sim: u32,
    /// The deepest loop nesting a simulated multi-action may still instantiate.
    pub rem_loop_in_sim: u32,
}

impl MultiTraceAnalysisFlags {
    /// Number of canals covered.
    pub open spec fn num_canals(self) -> nat {
        self.canals@.len()
    }

    pub open spec fn spec_consumed(self, c: int) -> nat {
        self.canals@[c].consumed as nat
    }

    /// Well-formedness against the analysis context: one record per canal,
    /// and no canal has consumed past the end of its trace.
    pub open spec fn wf(self, ctx: AnalysisContext) -> bool {
        &&& self.canals@.len() == ctx.multi_trace@.len()
        &&& forall|c: int|
            0 <= c < self.canals@.len() ==> (#[trigger] self.canals@[c].consumed as int)
                <= ctx.multi_trace@[c]@.len()
    }

    /// The flags of a run's root: nothing consumed yet, budgets as configured.
    pub fn new_root(num_canals: usize, rem_act_in_sim: u32, rem_loop_in_sim: u32) -> (r:
        MultiTraceAnalysisFlags)
        ensures
            r.canals@.len() == num_canals,
            forall|c: int| 0 <= c < num_canals ==> (#[trigger] r.canals@[c].consumed) == 0,
            r.rem_act_in_sim == rem_act_in_sim,
            r.rem_loop_in_sim == rem_loop_in_sim,
    {
        let mut canals: Vec<TraceAnalysisFlags> = Vec::new();
        let mut i: usize = 0;
        while i < num_canals
            invariant
                i <= num_canals,
                canals@.len() == i,
                forall|c: int| 0 <= c < i ==> (#[trigger] canals@[c].consumed) == 0,
            decreases num_canals - i,
        {
            canals.push(TraceAnalysisFlags { consumed: 0 });
            i = i + 1;
        }
        MultiTraceAnalysisFlags { canals, rem_act_in_sim, rem_loop_in_sim }
    }

    /// The flags of the child node after one step: every canal consumed for
    /// real advances by one multi-action, every simulated canal spends one
    /// unit of the action budget, and nothing else changes.  Applying a step
    /// never decreases any canal's `consumed` and never increases a remaining
    /// simulation budget.  (The loop-depth budget is recomputed by the outer
    /// driver from the successor term's nesting, which this crate does not
    /// see; here it is carried over unchanged.)
    pub fn apply_step(&self, step: &AnalysisStepKind) -> (r: MultiTraceAnalysisFlags)
        requires
            forall|k: int|
                0 <= k < step.spec_consume().len() ==> (#[trigger] step.spec_consume()[k] as int)
                    < self.canals@.len() && self.canals@[step.spec_consume()[k] as int].consumed
                    < usize::MAX,
        ensures
            r.canals@.len() == self.canals@.len(),
            forall|c: int|
                0 <= c < self.canals@.len() ==> (#[trigger] r.canals@[c].consumed) as int == if step.spec_consume().contains(c as usize) {
                    self.canals@[c].consumed + 1
                } else {
                    self.canals@[c].consumed as int
                },
            r.rem_act_in_sim as int == if self.rem_act_in_sim as int >= step.spec_simulate().len() {
                self.rem_act_in_sim - step.spec_simulate().len()
            } else {
                0
            },
            r.rem_loop_in_sim == self.rem_loop_in_sim,
            forall|c: int|
                0 <= c < self.canals@.len() ==> (#[trigger] r.canals@[c].consumed)
                    >= self.canals@[c].consumed,
            r.rem_act_in_sim <= self.rem_act_in_sim,
    {
        let (consume, simulate): (&Vec<usize>, &Vec<(usize, crate::step::SimulationStepKind)>) =
            match step {
            AnalysisStepKind::Execute(_, consume, simulate) => (consume, simulate),
        };
        proof {
            assert(consume@ == step.spec_consume());
            assert(simulate@ == step.spec_simulate());
        }
        let mut canals: Vec<TraceAnalysisFlags> = Vec::new();
        let mut c: usize = 0;
        while c < self.canals.len()
            invariant
                c <= self.canals@.len(),
                canals@.len() == c,
                consume@ == step.spec_consume(),
                forall|k: int|
                    0 <= k < consume@.len() ==> (#[trigger] consume@[k] as int)
                        < self.canals@.len() && self.canals@[consume@[k] as int].consumed
                        < usize::MAX,
                forall|d: int|
                    0 <= d < c ==> (#[trigger] canals@[d].consumed) as int == if consume@.contains(
                        d as usize,
                    ) {
                        self.canals@[d].consumed + 1
                    } else {
                        self.canals@[d].consumed as int
                    },
            decreases self.canals@.len() - c,
        {
            let consumed = self.canals[c].consumed;
            if crate::sets::contains_usize(consume, c) {
                canals.push(TraceAnalysisFlags { consumed: consumed + 1 });
            } else {
                canals.push(TraceAnalysisFlags { consumed });
            }
            c = c + 1;
        }
        let spent = simulate.len();
        let rem_act_in_sim: u32 = if (self.rem_act_in_sim as usize) >= spent {
            self.rem_act_in_sim - (spent as u32)
        } else {
            0
        };
        MultiTraceAnalysisFlags { canals, rem_act_in_sim, rem_loop_in_sim: self.rem_loop_in_sim }
    }
}

} // verus!
