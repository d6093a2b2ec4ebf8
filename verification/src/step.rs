use vstd::prelude::*;

use crate::context::AnalysisContext;
use crate::frontier::{FrontierElement, FrontierElementModel};

verus! {

/// How a canal's contribution to a step is injected rather than read from the
/// log: as slack before its first logged multi-action, or after its last.
#[derive(Clone, Copy, PartialEq, Eq, Structural, Debug)]
pub enum SimulationStepKind {
    BeforeStart,
    AfterEnd,
}

/// A sound next analysis step: execute one frontier element, consuming the
/// listed canals from the log for real and simulating the mapped canals.
#[derive(Clone, Debug, PartialEq, Eq)]
pub enum AnalysisStepKind {
    Execute(FrontierElement, Vec<usize>, Vec<(usize, SimulationStepKind)>),
}

/// The mathematical content of a step: which frontier element it executes,
/// which canals it consumes for real, and which it simulates, and how.
pub struct StepModel {
    pub elt: FrontierElementModel,
    pub consume: Set<usize>,
    pub simulate: Map<usize, SimulationStepKind>,
}

/// The finite map held by an association vector.
pub open spec fn pairs_to_map(s: Seq<(usize, SimulationStepKind)>) -> Map<
    usize,
    SimulationStepKind,
>
    decreases s.len(),
{
    if s.len() == 0 {
        Map::empty()
    } else {
        pairs_to_map(s.drop_last()).insert(s.last().0, s.last().1)
    }
}

/// The keys of an association vector, in order.
pub open spec fn pair_keys(s: Seq<(usize, SimulationStepKind)>) -> Seq<usize> {
    s.map_values(|p: (usize, SimulationStepKind)| p.0)
}

/// The domain of the held map is exactly the key set.
pub proof fn lemma_pairs_to_map_dom(s: Seq<(usize, SimulationStepKind)>)
    ensures
        pairs_to_map(s).dom() == pair_keys(s).to_set(),
    decreases s.len(),
{
    if s.len() == 0 {
        assert(pairs_to_map(s).dom() =~= pair_keys(s).to_set());
    } else {
        lemma_pairs_to_map_dom(s.drop_last());
        assert(pair_keys(s).drop_last() =~= pair_keys(s.drop_last()));
        assert forall|c: usize| pair_keys(s).to_set().contains(c) implies pairs_to_map(
            s,
        ).dom().contains(c) by {
            let k = choose|k: int| 0 <= k < pair_keys(s).len() && pair_keys(s)[k] == c;
            if k < s.len() - 1 {
                assert(pair_keys(s.drop_last())[k] == pair_keys(s).drop_last()[k]);
                assert(pair_keys(s.drop_last()).contains(c));
            }
        }
        assert forall|c: usize| pairs_to_map(s).dom().contains(c) implies pair_keys(
            s,
        ).to_set().contains(c) by {
            if c == s.last().0 {
                assert(pair_keys(s)[s.len() - 1] == c);
                assert(pair_keys(s).contains(c));
            } else {
                let k = choose|k: int|
                    0 <= k < pair_keys(s.drop_last()).len() && pair_keys(s.drop_last())[k] == c;
                assert(pair_keys(s)[k] == c);
                assert(pair_keys(s).contains(c));
            }
        }
        assert(pairs_to_map(s).dom() =~= pair_keys(s).to_set());
    }
}

impl AnalysisStepKind {
    /// The frontier element this step executes.
    pub open spec fn spec_elt(self) -> FrontierElement {
        match self {
            AnalysisStepKind::Execute(elt, _, _) => elt,
        }
    }

    /// The canals consumed for real, as listed.
    pub open spec fn spec_consume(self) -> Seq<usize> {
        match self {
            AnalysisStepKind::Execute(_, consume, _) => consume@,
        }
    }

    /// The simulated canals and their kinds, as listed.
    pub open spec fn spec_simulate(self) -> Seq<(usize, SimulationStepKind)> {
        match self {
            AnalysisStepKind::Execute(_, _, simulate) => simulate@,
        }
    }

    pub open spec fn model(self) -> StepModel {
        match self {
            AnalysisStepKind::Execute(elt, consume, simulate) => StepModel {
                elt: elt.model(),
                consume: consume@.to_set(),
                simulate: pairs_to_map(simulate@),
            },
        }
    }
}

/// The models of a sequence of steps, in order.
pub open spec fn step_models(steps: Seq<AnalysisStepKind>) -> Seq<StepModel> {
    steps.map_values(|s: AnalysisStepKind| s.model())
}

impl StepModel {
    /// The partition invariant: the canals consumed for real and the canals
    /// simulated are disjoint, and together they are exactly the canals
    /// implied by the executed element's target components.
    pub open spec fn partition_ok(self, ctx: AnalysisContext) -> bool {
        &&& self.consume.disjoint(self.simulate.dom())
        &&& self.consume.union(self.simulate.dom()) == ctx.co_localizations.coloc_set_of_lfs(
            self.elt.target_lf_ids,
        )
    }
}

} // verus!
