use vstd::prelude::*;

verus! {

/// Identifies a logger plugin of the exploration driver.  The plugins
/// themselves perform I/O and live outside this crate; the options only
/// record which ones are attached.
#[derive(Clone, Copy, PartialEq, Eq, Structural, Debug)]
pub enum ExplorationLoggerKind {
    GraphicLogger,
    TracegenLogger,
}

/// The order in which the exploration driver visits pending nodes.
#[derive(Clone, Copy, PartialEq, Eq, Structural, Debug)]
pub enum HibouSearchStrategy {
    BFS,
    DFS,
    HCS,
}

/// A stateless bound the exploration driver applies to prune its search.
#[derive(Clone, Copy, PartialEq, Eq, Structural, Debug)]
pub enum ExplorationFilter {
    MaxLoopInstanciation(u32),
    MaxProcessDepth(u32),
    MaxNodeNumber(u32),
}

/// Relative priorities between the kinds of steps the exploration driver can
/// take from a node.
#[derive(Clone, Copy, PartialEq, Eq, Structural, Debug)]
pub struct ExplorationPriorities {
    pub emission: i32,
    pub reception: i32,
    pub multi_rdv: i32,
    pub in_loop: i32,
}

impl ExplorationPriorities {
    pub fn new(emission: i32, reception: i32, multi_rdv: i32, in_loop: i32) -> (r:
        ExplorationPriorities)
        ensures
            r == (ExplorationPriorities { emission, reception, multi_rdv, in_loop }),
    {
        ExplorationPriorities { emission, reception, multi_rdv, in_loop }
    }

    /// Neutral priorities: every step kind at level zero.
    pub fn default() -> (r: ExplorationPriorities)
        ensures
            r == (ExplorationPriorities { emission: 0, reception: 0, multi_rdv: 0, in_loop: 0 }),
    {
        ExplorationPriorities { emission: 0, reception: 0, multi_rdv: 0, in_loop: 0 }
    }
}

/// How the exploration driver orders the steps of one node: by specific
/// priorities, or at random.
#[derive(Clone, Copy, PartialEq, Eq, Structural, Debug)]
pub enum GenericProcessPriorities {
    Specific(ExplorationPriorities),
    Random,
}

/// The options of one exploration run: attached loggers, search strategy,
/// pruning filters and step priorities.
#[derive(Clone, Debug)]
pub struct HibouExploreOptions {
    pub loggers: Vec<ExplorationLoggerKind>,
    pub strategy: HibouSearchStrategy,
    pub filters: Vec<ExplorationFilter>,
    pub priorities: GenericProcessPriorities,
}

impl HibouExploreOptions {
    pub fn new(
        loggers: Vec<ExplorationLoggerKind>,
        strategy: HibouSearchStrategy,
        filters: Vec<ExplorationFilter>,
        priorities: GenericProcessPriorities,
    ) -> (r: HibouExploreOptions)
        ensures
            r.loggers@ == loggers@,
            r.strategy == strategy,
            r.filters@ == filters@,
            r.priorities == priorities,
    {
        HibouExploreOptions { loggers, strategy, filters, priorities }
    }

    /// The default exploration: no loggers, breadth-first search, at most one
    /// loop instantiation, specific neutral priorities.
    pub fn default() -> (r: HibouExploreOptions)
        ensures
            r.loggers@.len() == 0,
            r.strategy == HibouSearchStrategy::BFS,
            r.filters@ == seq![ExplorationFilter::MaxLoopInstanciation(1)],
            r.priorities == GenericProcessPriorities::Specific(
                ExplorationPriorities { emission: 0, reception: 0, multi_rdv: 0, in_loop: 0 },
            ),
    {
        let mut filters: Vec<ExplorationFilter> = Vec::new();
        filters.push(ExplorationFilter::MaxLoopInstanciation(1));
        proof {
            assert(filters@ =~= seq![ExplorationFilter::MaxLoopInstanciation(1)]);
        }
        HibouExploreOptions::new(
            Vec::new(),
            HibouSearchStrategy::BFS,
            filters,
            GenericProcessPriorities::Specific(ExplorationPriorities::default()),
        )
    }
}

} // verus!
