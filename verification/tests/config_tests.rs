use hibou_matching::explore::{
    ExplorationFilter, ExplorationLoggerKind, ExplorationPriorities, GenericProcessPriorities,
    HibouExploreOptions, HibouSearchStrategy,
};
use hibou_matching::filter::{AnalysisFilter, AnalysisFilterCriterion, FilterEliminationKind};
use hibou_matching::random_gen::{
    InteractionGenerationSymbol, InteractionSymbolsProbabilitiesError,
};

#[test]
fn filter_max_process_depth() {
    let criterion = AnalysisFilterCriterion { loop_depth: 0 };
    let f = AnalysisFilter::MaxProcessDepth(3);
    assert_eq!(f.apply_filter(4, 0, &criterion), Some(FilterEliminationKind::MaxProcessDepth));
    assert_eq!(f.apply_filter(3, 0, &criterion), None);
}

#[test]
fn filter_max_loop_instanciation() {
    let f = AnalysisFilter::MaxLoopInstanciation(2);
    assert_eq!(
        f.apply_filter(0, 0, &AnalysisFilterCriterion { loop_depth: 3 }),
        Some(FilterEliminationKind::MaxLoopInstanciation)
    );
    assert_eq!(f.apply_filter(0, 0, &AnalysisFilterCriterion { loop_depth: 2 }), None);
}

#[test]
fn filter_max_node_number() {
    let criterion = AnalysisFilterCriterion { loop_depth: 0 };
    let f = AnalysisFilter::MaxNodeNumber(5);
    assert_eq!(f.apply_filter(0, 5, &criterion), Some(FilterEliminationKind::MaxNodeNumber));
    assert_eq!(f.apply_filter(0, 4, &criterion), None);
}

#[test]
fn filter_labels() {
    assert_eq!(AnalysisFilter::MaxLoopInstanciation(1).to_string(), "MaxLoop=1");
    assert_eq!(AnalysisFilter::MaxProcessDepth(10).to_string(), "MaxDepth=10");
    assert_eq!(AnalysisFilter::MaxNodeNumber(0).to_string(), "MaxNum=0");
    assert_eq!(
        AnalysisFilter::MaxNodeNumber(4294967295).to_string(),
        "MaxNum=4294967295"
    );
}

#[test]
fn explore_options_default() {
    let opts = HibouExploreOptions::default();
    assert!(opts.loggers.is_empty());
    assert_eq!(opts.strategy, HibouSearchStrategy::BFS);
    assert_eq!(opts.filters, vec![ExplorationFilter::MaxLoopInstanciation(1)]);
    assert_eq!(
        opts.priorities,
        GenericProcessPriorities::Specific(ExplorationPriorities::default())
    );
}

#[test]
fn explore_options_new_keeps_arguments() {
    let opts = HibouExploreOptions::new(
        vec![ExplorationLoggerKind::GraphicLogger, ExplorationLoggerKind::TracegenLogger],
        HibouSearchStrategy::DFS,
        vec![ExplorationFilter::MaxProcessDepth(9)],
        GenericProcessPriorities::Random,
    );
    assert_eq!(opts.loggers.len(), 2);
    assert_eq!(opts.strategy, HibouSearchStrategy::DFS);
    assert_eq!(opts.filters, vec![ExplorationFilter::MaxProcessDepth(9)]);
    assert_eq!(opts.priorities, GenericProcessPriorities::Random);
}

#[test]
fn exploration_priorities_new() {
    let p = ExplorationPriorities::new(1, -2, 3, -4);
    assert_eq!(p.emission, 1);
    assert_eq!(p.reception, -2);
    assert_eq!(p.multi_rdv, 3);
    assert_eq!(p.in_loop, -4);
    let d = ExplorationPriorities::default();
    assert_eq!((d.emission, d.reception, d.multi_rdv, d.in_loop), (0, 0, 0, 0));
}

#[test]
fn generation_symbols_are_ordered_values() {
    assert_ne!(InteractionGenerationSymbol::Empty, InteractionGenerationSymbol::Action);
    assert!(InteractionGenerationSymbol::Empty < InteractionGenerationSymbol::Action);
    assert_eq!(
        InteractionGenerationSymbol::Broadcast,
        InteractionGenerationSymbol::Broadcast
    );
    assert_ne!(
        InteractionSymbolsProbabilitiesError::SymbolProbabilityMustBeBetweenOAnd1,
        InteractionSymbolsProbabilitiesError::SumOfProbabilitiesMustBe1
    );
}
