use hibou_matching::context::{AnalysisContext, CoLocalizations};
use hibou_matching::flags::{MultiTraceAnalysisFlags, TraceAnalysisFlags};
use hibou_matching::frontier::FrontierElement;
use hibou_matching::param::{
    AnalysisFatalError, AnalysisKind, AnalysisParameterization, SimulationActionCriterion,
    SimulationConfiguration, SimulationLoopCriterion,
};
use hibou_matching::por::DominationOracleAnswers;
use hibou_matching::step::{AnalysisStepKind, SimulationStepKind};
use hibou_matching::trace::{TraceAction, TraceActionKind};

fn emission(lf_id: usize) -> TraceAction {
    TraceAction { lf_id, act_kind: TraceActionKind::Emission }
}

fn flags(consumed: &[usize], rem_act: u32, rem_loop: u32) -> MultiTraceAnalysisFlags {
    MultiTraceAnalysisFlags {
        canals: consumed.iter().map(|&c| TraceAnalysisFlags { consumed: c }).collect(),
        rem_act_in_sim: rem_act,
        rem_loop_in_sim: rem_loop,
    }
}

fn simulate_param(sim_before: bool, act_bound: Option<u32>) -> AnalysisParameterization {
    AnalysisParameterization {
        ana_kind: AnalysisKind::Simulate(SimulationConfiguration {
            sim_before,
            act_crit: match act_bound {
                Some(b) => SimulationActionCriterion::MaxNum(b),
                None => SimulationActionCriterion::NoCriterion,
            },
            loop_crit: SimulationLoopCriterion::NoCriterion,
        }),
    }
}

fn element(lf_ids: &[usize], actions: &[TraceAction], max_loop_depth: u32) -> FrontierElement {
    FrontierElement {
        target_lf_ids: lf_ids.to_vec(),
        target_actions: actions.to_vec(),
        max_loop_depth,
    }
}

fn step_parts(step: &AnalysisStepKind) -> (Vec<usize>, Vec<(usize, SimulationStepKind)>) {
    let AnalysisStepKind::Execute(_, consume, simulate) = step;
    (consume.clone(), simulate.clone())
}

// An exact match on canal 0 while canal 1 (empty) is not targeted: the first
// step consumes canal 0 for real with no simulation and never touches canal 1.
// Because before-start simulation is allowed and the budget is positive, the
// power-set reinterpretation of the matched canal yields one further step that
// reads the coinciding log action as slack instead.
#[test]
fn exact_match_on_targeted_canal_only() {
    let ctx = AnalysisContext {
        co_localizations: CoLocalizations { lf_to_coloc: vec![0, 1] },
        multi_trace: vec![vec![vec![emission(0)]], vec![]],
    };
    let f = flags(&[0, 0], 1, 1);
    let param = simulate_param(true, Some(1));
    let elt = element(&[0], &[emission(0)], 0);
    let steps = param
        .get_simulation_matches_in_analysis(&ctx, &vec![elt], &f)
        .expect("no fatal error");
    assert_eq!(steps.len(), 2);
    let (consume, simulate) = step_parts(&steps[0]);
    assert_eq!(consume, vec![0]);
    assert!(simulate.is_empty());
    let (consume2, simulate2) = step_parts(&steps[1]);
    assert!(consume2.is_empty());
    assert_eq!(simulate2, vec![(0, SimulationStepKind::BeforeStart)]);
    // canal 1 appears in no step
    for step in &steps {
        let (c, s) = step_parts(step);
        assert!(!c.contains(&1));
        assert!(s.iter().all(|(canal, _)| *canal != 1));
    }
}

// A fully consumed canal targeted by the frontier element is simulated after
// its end, with an empty real-consumption set.
#[test]
fn fully_consumed_canal_simulated_after_end() {
    let ctx = AnalysisContext {
        co_localizations: CoLocalizations { lf_to_coloc: vec![0] },
        multi_trace: vec![vec![vec![emission(0)]]],
    };
    let f = flags(&[1], 1, 0);
    let param = simulate_param(false, Some(1));
    let elt = element(&[0], &[emission(0)], 0);
    let steps = param
        .get_simulation_matches_in_analysis(&ctx, &vec![elt], &f)
        .expect("no fatal error");
    assert_eq!(steps.len(), 1);
    let (consume, simulate) = step_parts(&steps[0]);
    assert!(consume.is_empty());
    assert_eq!(simulate, vec![(0, SimulationStepKind::AfterEnd)]);
}

// The same situation with an exhausted action budget yields no step at all.
#[test]
fn exhausted_budget_blocks_simulation() {
    let ctx = AnalysisContext {
        co_localizations: CoLocalizations { lf_to_coloc: vec![0] },
        multi_trace: vec![vec![vec![emission(0)]]],
    };
    let f = flags(&[1], 0, 0);
    let param = simulate_param(false, Some(1));
    let elt = element(&[0], &[emission(0)], 0);
    let steps = param
        .get_simulation_matches_in_analysis(&ctx, &vec![elt], &f)
        .expect("no fatal error");
    assert!(steps.is_empty());
}

// With the budget exhausted, steps that need no simulation are still emitted,
// and none of them simulates anything.
#[test]
fn exhausted_budget_still_allows_pure_matches() {
    let ctx = AnalysisContext {
        co_localizations: CoLocalizations { lf_to_coloc: vec![0] },
        multi_trace: vec![vec![vec![emission(0)]]],
    };
    let f = flags(&[0], 0, 0);
    let param = simulate_param(true, Some(1));
    let elt = element(&[0], &[emission(0)], 0);
    let steps = param
        .get_simulation_matches_in_analysis(&ctx, &vec![elt], &f)
        .expect("no fatal error");
    assert_eq!(steps.len(), 1);
    let (consume, simulate) = step_parts(&steps[0]);
    assert_eq!(consume, vec![0]);
    assert!(simulate.is_empty());
}

// Partition invariant on a concrete run: for every emitted step, the consumed
// and simulated canal sets are disjoint and together cover exactly the canals
// implied by the element's target components (here {0, 1}).
#[test]
fn partition_of_consumed_and_simulated_canals() {
    let ctx = AnalysisContext {
        co_localizations: CoLocalizations { lf_to_coloc: vec![0, 1] },
        multi_trace: vec![vec![vec![emission(0)]], vec![vec![emission(1)]]],
    };
    let f = flags(&[0, 0], 2, 1);
    let param = simulate_param(true, Some(2));
    let elt = element(&[0, 1], &[emission(0), emission(1)], 0);
    let steps = param
        .get_simulation_matches_in_analysis(&ctx, &vec![elt], &f)
        .expect("no fatal error");
    // both canals match exactly; the power set of {0, 1} gives three extra
    // reinterpretations besides the main step
    assert_eq!(steps.len(), 4);
    for step in &steps {
        let (consume, simulate) = step_parts(step);
        let mut all: Vec<usize> = consume.clone();
        for (canal, _) in &simulate {
            assert!(!consume.contains(canal));
            all.push(*canal);
        }
        all.sort();
        assert_eq!(all, vec![0, 1]);
    }
    // the main step first, then the reinterpretations in power-set order
    assert_eq!(step_parts(&steps[0]), (vec![0, 1], vec![]));
    assert_eq!(step_parts(&steps[1]), (vec![1], vec![(0, SimulationStepKind::BeforeStart)]));
    assert_eq!(step_parts(&steps[2]), (vec![0], vec![(1, SimulationStepKind::BeforeStart)]));
    assert_eq!(
        step_parts(&steps[3]),
        (
            vec![],
            vec![(0, SimulationStepKind::BeforeStart), (1, SimulationStepKind::BeforeStart)]
        )
    );
}

// An action left to match on a canal already recorded as an exact match is a
// fatal double-targeting.
#[test]
fn double_targeted_canal_is_fatal() {
    let ctx = AnalysisContext {
        co_localizations: CoLocalizations { lf_to_coloc: vec![0, 0] },
        multi_trace: vec![vec![vec![emission(0)]]],
    };
    let f = flags(&[0], 1, 0);
    let param = simulate_param(true, Some(1));
    let elt = element(
        &[0, 1],
        &[
            emission(0),
            TraceAction { lf_id: 1, act_kind: TraceActionKind::Reception },
        ],
        0,
    );
    let r = param.get_simulation_matches_in_analysis(&ctx, &vec![elt], &f);
    assert_eq!(r, Err(AnalysisFatalError::DoubleTargetedCanal));
}

// Consulting the simulation gate under a non-simulating analysis kind is a
// fatal contract violation.
#[test]
fn simulation_gate_outside_simulate_is_fatal() {
    let param = AnalysisParameterization { ana_kind: AnalysisKind::Accept };
    let f = flags(&[0], 1, 0);
    let elt = element(&[0], &[emission(0)], 0);
    assert_eq!(
        param.is_ok_to_simulate(&elt, &f),
        Err(AnalysisFatalError::SimulationCheckOutsideSimulate)
    );
}

// The simulation predicate's two criteria: the action budget must be positive when the action
// criterion is active, and the element's loop depth must fit the loop budget
// when the loop criterion is active.
#[test]
fn simulation_gate_criteria() {
    let elt_deep = element(&[0], &[emission(0)], 3);
    let param_loop = AnalysisParameterization {
        ana_kind: AnalysisKind::Simulate(SimulationConfiguration {
            sim_before: false,
            act_crit: SimulationActionCriterion::NoCriterion,
            loop_crit: SimulationLoopCriterion::MaxDepth(5),
        }),
    };
    assert_eq!(param_loop.is_ok_to_simulate(&elt_deep, &flags(&[0], 0, 2)), Ok(false));
    assert_eq!(param_loop.is_ok_to_simulate(&elt_deep, &flags(&[0], 0, 3)), Ok(true));
    let param_act = simulate_param(false, Some(4));
    assert_eq!(param_act.is_ok_to_simulate(&elt_deep, &flags(&[0], 0, 0)), Ok(false));
    assert_eq!(param_act.is_ok_to_simulate(&elt_deep, &flags(&[0], 1, 0)), Ok(true));
}

// Partial order reduction: canal 0's head action is univocal and dominates
// canal 1's, so the reduced step set is exactly the full-consumption
// successors of canal 0's frontier elements — the same steps exhaustive
// matching returns for those elements.
#[test]
fn por_dominant_head_reduces_to_its_successors() {
    let ctx = AnalysisContext {
        co_localizations: CoLocalizations { lf_to_coloc: vec![0, 1] },
        multi_trace: vec![vec![vec![emission(0)]], vec![vec![emission(1)]]],
    };
    let f = flags(&[0, 0], 0, 0);
    let param = AnalysisParameterization { ana_kind: AnalysisKind::Accept };
    let elt_a = element(&[0], &[emission(0)], 0);
    let elt_b = element(&[1], &[emission(1)], 0);
    let oracle = DominationOracleAnswers {
        univocal: vec![true, false],
        dominated: vec![vec![1], vec![]],
        head_frontier: vec![vec![elt_a.clone()], vec![]],
    };
    let frontier = vec![elt_a.clone(), elt_b];
    let reduced = param.get_action_matches_in_analysis(true, &ctx, &frontier, &oracle, &f);
    assert_eq!(reduced.len(), 1);
    assert_eq!(step_parts(&reduced[0]), (vec![0], vec![]));
    // exhaustive matching over canal 0's elements alone returns the same set
    let exhaustive = param.get_action_matches_in_analysis(
        false,
        &ctx,
        &vec![elt_a],
        &oracle,
        &f,
    );
    assert_eq!(reduced, exhaustive);
}

// Without a dominant univocal head action the reduction does not apply and
// every frontier element is matched exhaustively.
#[test]
fn por_without_dominant_head_falls_back() {
    let ctx = AnalysisContext {
        co_localizations: CoLocalizations { lf_to_coloc: vec![0, 1] },
        multi_trace: vec![vec![vec![emission(0)]], vec![vec![emission(1)]]],
    };
    let f = flags(&[0, 0], 0, 0);
    let param = AnalysisParameterization { ana_kind: AnalysisKind::Accept };
    let elt_a = element(&[0], &[emission(0)], 0);
    let elt_b = element(&[1], &[emission(1)], 0);
    let oracle = DominationOracleAnswers {
        univocal: vec![true, false],
        dominated: vec![vec![], vec![]],
        head_frontier: vec![vec![elt_a.clone()], vec![elt_b.clone()]],
    };
    let frontier = vec![elt_a, elt_b];
    let steps = param.get_action_matches_in_analysis(true, &ctx, &frontier, &oracle, &f);
    assert_eq!(steps.len(), 2);
    assert_eq!(step_parts(&steps[0]), (vec![0], vec![]));
    assert_eq!(step_parts(&steps[1]), (vec![1], vec![]));
}

// Exhaustive mode emits at most one step per frontier element even when two
// canals share the same (here empty) head multi-action set.
#[test]
fn exhaustive_single_step_per_frontier_element() {
    let ctx = AnalysisContext {
        co_localizations: CoLocalizations { lf_to_coloc: vec![] },
        multi_trace: vec![vec![vec![]], vec![vec![]]],
    };
    let f = flags(&[0, 0], 0, 0);
    let param = AnalysisParameterization { ana_kind: AnalysisKind::Accept };
    let oracle = DominationOracleAnswers {
        univocal: vec![false, false],
        dominated: vec![vec![], vec![]],
        head_frontier: vec![vec![], vec![]],
    };
    let elt = element(&[], &[], 0);
    let steps = param.get_action_matches_in_analysis(false, &ctx, &vec![elt], &oracle, &f);
    assert_eq!(steps.len(), 1);
    assert_eq!(step_parts(&steps[0]), (vec![], vec![]));
}

// A frontier element whose action set matches no canal head contributes
// nothing in exhaustive mode.
#[test]
fn exhaustive_no_match_no_step() {
    let ctx = AnalysisContext {
        co_localizations: CoLocalizations { lf_to_coloc: vec![0] },
        multi_trace: vec![vec![vec![emission(0)]]],
    };
    let f = flags(&[1], 0, 0);
    let param = AnalysisParameterization { ana_kind: AnalysisKind::Accept };
    let oracle = DominationOracleAnswers {
        univocal: vec![false],
        dominated: vec![vec![]],
        head_frontier: vec![vec![]],
    };
    let elt = element(&[0], &[emission(0)], 0);
    let steps = param.get_action_matches_in_analysis(false, &ctx, &vec![elt], &oracle, &f);
    assert!(steps.is_empty());
}

// Applying a step advances the consumed canals by one, spends one budget unit
// per simulated canal, and never moves anything backwards.
#[test]
fn apply_step_is_monotone() {
    let f = flags(&[0, 3], 2, 5);
    let elt = element(&[0, 1], &[emission(0)], 0);
    let step = AnalysisStepKind::Execute(
        elt,
        vec![1],
        vec![(0, SimulationStepKind::BeforeStart)],
    );
    let next = f.apply_step(&step);
    assert_eq!(next.canals[0].consumed, 0);
    assert_eq!(next.canals[1].consumed, 4);
    assert_eq!(next.rem_act_in_sim, 1);
    assert_eq!(next.rem_loop_in_sim, 5);
    for c in 0..f.canals.len() {
        assert!(next.canals[c].consumed >= f.canals[c].consumed);
    }
    assert!(next.rem_act_in_sim <= f.rem_act_in_sim);
    assert!(next.rem_loop_in_sim <= f.rem_loop_in_sim);
    // the action budget saturates at zero
    let deep = next.apply_step(&AnalysisStepKind::Execute(
        element(&[0], &[emission(0)], 0),
        vec![],
        vec![
            (0, SimulationStepKind::AfterEnd),
            (1, SimulationStepKind::AfterEnd),
        ],
    ));
    assert_eq!(deep.rem_act_in_sim, 0);
}

// Root flags: nothing consumed, budgets as configured.
#[test]
fn new_root_flags() {
    let f = MultiTraceAnalysisFlags::new_root(3, 7, 2);
    assert_eq!(f.canals.len(), 3);
    assert!(f.canals.iter().all(|c| c.consumed == 0));
    assert_eq!(f.rem_act_in_sim, 7);
    assert_eq!(f.rem_loop_in_sim, 2);
}

// The co-localization index: canal lookup and the translation of component
// sets to canal sets, without repetition.
#[test]
fn co_localization_lookup() {
    let colocs = CoLocalizations { lf_to_coloc: vec![0, 0, 1] };
    assert_eq!(colocs.get_lf_coloc_id(1), Some(0));
    assert_eq!(colocs.get_lf_coloc_id(2), Some(1));
    assert_eq!(colocs.get_lf_coloc_id(3), None);
    assert_eq!(colocs.get_coloc_ids_from_lf_ids(&vec![0, 1, 2]), vec![0, 1]);
    assert_eq!(colocs.get_coloc_ids_from_lf_ids(&vec![]), Vec::<usize>::new());
}

// One canal matches exactly while another, fully consumed, is simulated after
// its end within the same step; with before-start simulation disabled the
// matched canal cannot be reinterpreted as slack.
#[test]
fn mixed_match_and_simulation() {
    let a0 = emission(0);
    let a1 = emission(1);
    let ctx = AnalysisContext {
        co_localizations: CoLocalizations { lf_to_coloc: vec![0, 1] },
        multi_trace: vec![vec![vec![a0]], vec![vec![a1]]],
    };
    let f = flags(&[0, 1], 2, 0);
    let param = simulate_param(false, Some(2));
    let elt = element(&[0, 1], &[a0, a1], 0);
    let steps = param
        .get_simulation_matches_in_analysis(&ctx, &vec![elt.clone()], &f)
        .expect("no fatal error");
    assert_eq!(steps.len(), 1);
    assert_eq!(step_parts(&steps[0]), (vec![0], vec![(1, SimulationStepKind::AfterEnd)]));
    // with before-start simulation allowed, the matched canal may also be
    // read as slack, on top of the already simulated one
    let param_before = simulate_param(true, Some(2));
    let steps2 = param_before
        .get_simulation_matches_in_analysis(&ctx, &vec![elt], &f)
        .expect("no fatal error");
    assert_eq!(steps2.len(), 2);
    assert_eq!(
        step_parts(&steps2[1]),
        (
            vec![],
            vec![(1, SimulationStepKind::AfterEnd), (0, SimulationStepKind::BeforeStart)]
        )
    );
}

// The loop criterion: a frontier element that would instantiate deeper loops
// than the remaining loop budget cannot be simulated.
#[test]
fn loop_depth_budget_gates_simulation() {
    let ctx = AnalysisContext {
        co_localizations: CoLocalizations { lf_to_coloc: vec![0] },
        multi_trace: vec![vec![vec![emission(0)]]],
    };
    let f = flags(&[1], 5, 1);
    let param = AnalysisParameterization {
        ana_kind: AnalysisKind::Simulate(SimulationConfiguration {
            sim_before: false,
            act_crit: SimulationActionCriterion::NoCriterion,
            loop_crit: SimulationLoopCriterion::MaxDepth(1),
        }),
    };
    let deep = element(&[0], &[emission(0)], 2);
    let steps = param
        .get_simulation_matches_in_analysis(&ctx, &vec![deep], &f)
        .expect("no fatal error");
    assert!(steps.is_empty());
    let shallow = element(&[0], &[emission(0)], 1);
    let steps2 = param
        .get_simulation_matches_in_analysis(&ctx, &vec![shallow], &f)
        .expect("no fatal error");
    assert_eq!(steps2.len(), 1);
}

// Under a non-simulating analysis kind the engine consults the simulation
// predicate as soon as an element has unmatched actions or an exact match to
// reinterpret, and that is a fatal contract violation.
#[test]
fn non_simulate_kind_faults_when_predicate_needed() {
    let ctx = AnalysisContext {
        co_localizations: CoLocalizations { lf_to_coloc: vec![0] },
        multi_trace: vec![vec![vec![emission(0)]]],
    };
    let param = AnalysisParameterization { ana_kind: AnalysisKind::Accept };
    // unmatched action: the predicate decides whether to simulate
    let r = param.get_simulation_matches_in_analysis(
        &ctx,
        &vec![element(&[0], &[emission(0)], 0)],
        &flags(&[1], 0, 0),
    );
    assert_eq!(r, Err(AnalysisFatalError::SimulationCheckOutsideSimulate));
    // an exact match: the predicate decides whether to enumerate slack
    // reinterpretations
    let r2 = param.get_simulation_matches_in_analysis(
        &ctx,
        &vec![element(&[0], &[emission(0)], 0)],
        &flags(&[0], 0, 0),
    );
    assert_eq!(r2, Err(AnalysisFatalError::SimulationCheckOutsideSimulate));
    // an empty frontier never consults it
    let r3 = param.get_simulation_matches_in_analysis(&ctx, &vec![], &flags(&[0], 0, 0));
    assert_eq!(r3, Ok(vec![]));
}

// A frontier element partially overlapping a canal's head multi-action cannot
// match it: all-or-nothing per canal, and with simulation unavailable the
// element is rejected.
#[test]
fn partial_overlap_rejects_element() {
    let a0 = emission(0);
    let a1 = TraceAction { lf_id: 1, act_kind: TraceActionKind::Reception };
    let ctx = AnalysisContext {
        co_localizations: CoLocalizations { lf_to_coloc: vec![0, 0] },
        multi_trace: vec![vec![vec![a0, a1]]],
    };
    let f = flags(&[0], 0, 0);
    let param = simulate_param(false, Some(1));
    // the element wants only one of the two simultaneous actions
    let elt = element(&[0], &[a0], 0);
    let steps = param
        .get_simulation_matches_in_analysis(&ctx, &vec![elt], &f)
        .expect("no fatal error");
    assert!(steps.is_empty());
}
