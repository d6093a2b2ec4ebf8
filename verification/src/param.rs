use vstd::prelude::*;

verus! {

/// Whether the number of simulated multi-actions is bounded.  The bound set
/// here becomes the root value of `rem_act_in_sim`; with `NoCriterion` the
/// budget check is disabled entirely.
#[derive(Clone, Copy, PartialEq, Eq, Structural, Debug)]
pub enum SimulationActionCriterion {
    NoCriterion,
    MaxNum(u32),
}

/// Whether the loop nesting a simulated multi-action may instantiate is
/// bounded.  The bound set here becomes the root value of `rem_loop_in_sim`;
/// with `NoCriterion` the depth check is disabled entirely.
#[derive(Clone, Copy, PartialEq, Eq, Structural, Debug)]
pub enum SimulationLoopCriterion {
    NoCriterion,
    MaxDepth(u32),
}

/// Configuration of a simulating analysis: whether slack may be injected
/// before a canal's first logged multi-action, and the two budget criteria.
#[derive(Clone, Copy, PartialEq, Eq, Structural, Debug)]
pub struct SimulationConfiguration {
    pub sim_before: bool,
    pub act_crit: SimulationActionCriterion,
    pub loop_crit: SimulationLoopCriterion,
}

/// The kind of analysis being run.  Only `Simulate` permits injecting slack;
/// the other kinds match the log literally.
#[derive(Clone, Copy, PartialEq, Eq, Structural, Debug)]
pub enum AnalysisKind {
    Accept,
    Prefix,
    Simulate(SimulationConfiguration),
}

impl AnalysisKind {
    /// Whether this kind permits simulating before a canal's first logged
    /// multi-action.
    pub open spec fn spec_sim_before(self) -> bool {
        match self {
            AnalysisKind::Simulate(config) => config.sim_before,
            _ => false,
        }
    }

    pub fn sim_before(&self) -> (r: bool)
        ensures
            r == self.spec_sim_before(),
    {
        match self {
            AnalysisKind::Simulate(config) => config.sim_before,
            _ => false,
        }
    }
}

/// Immutable configuration of an analysis run.
#[derive(Clone, Copy, PartialEq, Eq, Structural, Debug)]
pub struct AnalysisParameterization {
    pub ana_kind: AnalysisKind,
}

/// An unrecoverable violation of the engine's contract with its oracles.
/// These indicate upstream inconsistency and abort the analysis run; they are
/// never a sound rejection.
#[derive(Clone, Copy, PartialEq, Eq, Structural, Debug)]
pub enum AnalysisFatalError {
    /// A canal was targeted both for an exact match and for simulation within
    /// one frontier element.
    DoubleTargetedCanal,
    /// The simulation gate was consulted while the analysis kind is not
    /// `Simulate`.
    SimulationCheckOutsideSimulate,
}

} // verus!
