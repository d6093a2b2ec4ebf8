use vstd::prelude::*;

use crate::context::AnalysisContext;
use crate::flags::MultiTraceAnalysisFlags;
use crate::frontier::FrontierElement;
use crate::param::{
    AnalysisFatalError, AnalysisParameterization, AnalysisKind, SimulationActionCriterion,
    SimulationConfiguration, SimulationLoopCriterion,
};
use crate::sets::seq_remove_all;
use crate::step::{
    pair_keys, pairs_to_map, step_models, AnalysisStepKind, SimulationStepKind, StepModel,
};
use crate::trace::TraceAction;

verus! {

broadcast use vstd::seq_lib::group_seq_properties;

/// Whether the simulation budgets permit simulating this frontier element:
/// the action budget is not exhausted (when that criterion is active) and the
/// element's loop depth does not exceed the loop budget (when that criterion
/// is active).
pub open spec fn spec_sim_allowed(
    config: SimulationConfiguration,
    elt: FrontierElement,
    flags: MultiTraceAnalysisFlags,
) -> bool {
    &&& (config.act_crit is NoCriterion || flags.rem_act_in_sim > 0)
    &&& (config.loop_crit is NoCriterion || elt.max_loop_depth <= flags.rem_loop_in_sim)
}

/// The simulation gate: its verdict under a `Simulate` configuration, and a
/// fatal error under any other analysis kind.
pub open spec fn spec_is_ok_to_simulate(
    param: AnalysisParameterization,
    elt: FrontierElement,
    flags: MultiTraceAnalysisFlags,
) -> Result<bool, AnalysisFatalError> {
    match param.ana_kind {
        AnalysisKind::Simulate(config) => Ok(spec_sim_allowed(config, elt, flags)),
        _ => Err(AnalysisFatalError::SimulationCheckOutsideSimulate),
    }
}

/// Whether canal `c` is an exact-match candidate against the actions still
/// left to match: its next unconsumed multi-action exists, is non-empty, and
/// is entirely contained in `left`.
pub open spec fn spec_canal_matches(
    ctx: AnalysisContext,
    flags: MultiTraceAnalysisFlags,
    c: int,
    left: Seq<TraceAction>,
) -> bool {
    let consumed = flags.canals@[c].consumed as int;
    &&& consumed < ctx.multi_trace@[c]@.len()
    &&& ctx.multi_trace@[c]@[consumed]@.len() > 0
    &&& forall|j: int|
        0 <= j < ctx.multi_trace@[c]@[consumed]@.len() ==> left.contains(
            #[trigger] ctx.multi_trace@[c]@[consumed]@[j],
        )
}

/// State of the exact-match scan after canals `0 .. n` have been examined:
/// the canals recorded as exact matches, in ascending order, and the target
/// actions still left to match, in the order the frontier element lists them.
pub open spec fn spec_match_state(
    ctx: AnalysisContext,
    flags: MultiTraceAnalysisFlags,
    elt: FrontierElement,
    n: int,
) -> (Seq<usize>, Seq<TraceAction>)
    decreases n,
{
    if n <= 0 {
        (Seq::empty(), elt.target_actions@)
    } else {
        let prev = spec_match_state(ctx, flags, elt, n - 1);
        if spec_canal_matches(ctx, flags, n - 1, prev.1) {
            let consumed = flags.canals@[n - 1].consumed as int;
            (prev.0.push((n - 1) as usize), seq_remove_all(prev.1, ctx.multi_trace@[n - 1]@[consumed]@))
        } else {
            prev
        }
    }
}

/// Every action still left to match is one of the element's target actions,
/// and every matched canal index is an existing canal.
pub proof fn lemma_match_state_bounds(
    ctx: AnalysisContext,
    flags: MultiTraceAnalysisFlags,
    elt: FrontierElement,
    n: int,
)
    ensures
        forall|x: TraceAction|
            spec_match_state(ctx, flags, elt, n).1.contains(x) ==> elt.target_actions@.contains(x),
        forall|k: int|
            0 <= k < spec_match_state(ctx, flags, elt, n).0.len() ==> (
            #[trigger] spec_match_state(ctx, flags, elt, n).0[k] as int) < n,
    decreases n,
{
    if n > 0 {
        lemma_match_state_bounds(ctx, flags, elt, n - 1);
        let prev = spec_match_state(ctx, flags, elt, n - 1);
        if spec_canal_matches(ctx, flags, n - 1, prev.1) {
            let consumed = flags.canals@[n - 1].consumed as int;
            crate::sets::lemma_seq_remove_all_subset(prev.1, ctx.multi_trace@[n - 1]@[consumed]@);
        }
    }
}

impl AnalysisParameterization {
    /// Whether the simulation budgets still permit simulating the given
    /// frontier element.  Consulting this predicate under a non-simulating analysis
    /// kind is a contract violation and yields a fatal error.
    pub fn is_ok_to_simulate(
        &self,
        frt_elt: &FrontierElement,
        flags: &MultiTraceAnalysisFlags,
    ) -> (r: Result<bool, AnalysisFatalError>)
        ensures
            r == spec_is_ok_to_simulate(*self, *frt_elt, *flags),
    {
        match &self.ana_kind {
            AnalysisKind::Simulate(config) => {
                let mut ok_to_simulate = true;
                match config.act_crit {
                    SimulationActionCriterion::NoCriterion => {},
                    _ => {
                        if flags.rem_act_in_sim == 0 {
                            ok_to_simulate = false;
                        }
                    },
                }
                match config.loop_crit {
                    SimulationLoopCriterion::NoCriterion => {},
                    _ => {
                        if frt_elt.max_loop_depth > flags.rem_loop_in_sim {
                            ok_to_simulate = false;
                        }
                    },
                }
                Ok(ok_to_simulate)
            },
            _ => Err(AnalysisFatalError::SimulationCheckOutsideSimulate),
        }
    }
}

/// The exact-match scan: examines every canal in ascending order and records
/// those whose head multi-action is non-empty and entirely contained in the
/// actions still left to match, removing the matched actions as it goes.
fn match_scan(
    ctx: &AnalysisContext,
    flags: &MultiTraceAnalysisFlags,
    elt: &FrontierElement,
) -> (r: (Vec<usize>, Vec<TraceAction>))
    requires
        ctx.wf(),
        flags.wf(*ctx),
    ensures
        r.0@ == spec_match_state(*ctx, *flags, *elt, ctx.multi_trace@.len() as int).0,
        r.1@ == spec_match_state(*ctx, *flags, *elt, ctx.multi_trace@.len() as int).1,
{
    let mut matched: Vec<usize> = Vec::new();
    let mut left: Vec<TraceAction> = crate::sets::copy_action_vec(&elt.target_actions);
    let n = ctx.multi_trace.len();
    let mut c: usize = 0;
    while c < n
        invariant
            c <= n,
            n == ctx.multi_trace@.len(),
            ctx.wf(),
            flags.wf(*ctx),
            matched@ == spec_match_state(*ctx, *flags, *elt, c as int).0,
            left@ == spec_match_state(*ctx, *flags, *elt, c as int).1,
        decreases n - c,
    {
        let consumed = flags.canals[c].consumed;
        if consumed < ctx.multi_trace[c].len() {
            let head = &ctx.multi_trace[c][consumed];
            if head.len() > 0 && crate::sets::actions_all_contained(head, &left) {
                assert(spec_canal_matches(*ctx, *flags, c as int, left@));
                matched.push(c);
                left = crate::sets::remove_actions(&left, head);
            } else {
                assert(!spec_canal_matches(*ctx, *flags, c as int, left@));
            }
        } else {
            assert(!spec_canal_matches(*ctx, *flags, c as int, left@));
        }
        c = c + 1;
    }
    (matched, left)
}

/// Resolution of the actions left unmatched, in order: an action whose canal
/// was already recorded as an exact match is a fatal double-targeting; a
/// fully consumed canal is simulated after its end; an untouched canal is
/// simulated before its start when the configuration permits; anything else
/// rejects the whole frontier element (`None`).
pub open spec fn spec_resolve(
    ctx: AnalysisContext,
    sim_before: bool,
    flags: MultiTraceAnalysisFlags,
    matched: Set<usize>,
    left: Seq<TraceAction>,
    acc: Map<usize, SimulationStepKind>,
) -> Result<Option<Map<usize, SimulationStepKind>>, AnalysisFatalError>
    decreases left.len(),
{
    if left.len() == 0 {
        Ok(Some(acc))
    } else {
        let c = ctx.co_localizations.lf_to_coloc@[left[0].lf_id as int];
        if matched.contains(c) {
            Err(AnalysisFatalError::DoubleTargetedCanal)
        } else if flags.canals@[c as int].consumed as int == ctx.multi_trace@[c as int]@.len() {
            spec_resolve(
                ctx,
                sim_before,
                flags,
                matched,
                left.drop_first(),
                acc.insert(c, SimulationStepKind::AfterEnd),
            )
        } else if sim_before && flags.canals@[c as int].consumed == 0 {
            spec_resolve(
                ctx,
                sim_before,
                flags,
                matched,
                left.drop_first(),
                acc.insert(c, SimulationStepKind::BeforeStart),
            )
        } else {
            Ok(None)
        }
    }
}

/// Reclassification of a subset of exactly matched canals as simulated: a
/// fully consumed canal becomes `AfterEnd`, an untouched canal becomes
/// `BeforeStart` when permitted, and any other canal makes the subset
/// infeasible.
pub open spec fn spec_extend_simu(
    ctx: AnalysisContext,
    sim_before: bool,
    flags: MultiTraceAnalysisFlags,
    subset: Seq<usize>,
    acc: Map<usize, SimulationStepKind>,
) -> Option<Map<usize, SimulationStepKind>>
    decreases subset.len(),
{
    if subset.len() == 0 {
        Some(acc)
    } else {
        let c = subset[0];
        if flags.canals@[c as int].consumed as int == ctx.multi_trace@[c as int]@.len() {
            spec_extend_simu(
                ctx,
                sim_before,
                flags,
                subset.drop_first(),
                acc.insert(c, SimulationStepKind::AfterEnd),
            )
        } else if sim_before && flags.canals@[c as int].consumed == 0 {
            spec_extend_simu(
                ctx,
                sim_before,
                flags,
                subset.drop_first(),
                acc.insert(c, SimulationStepKind::BeforeStart),
            )
        } else {
            Option::None
        }
    }
}

/// Executable counterpart of `spec_resolve`, over association vectors.
fn resolve_unmatched(
    ctx: &AnalysisContext,
    sim_before: bool,
    flags: &MultiTraceAnalysisFlags,
    matched: &Vec<usize>,
    left: &Vec<TraceAction>,
) -> (r: Result<Option<Vec<(usize, SimulationStepKind)>>, AnalysisFatalError>)
    requires
        ctx.wf(),
        flags.wf(*ctx),
        forall|j: int|
            0 <= j < left@.len() ==> (#[trigger] left@[j].lf_id as int)
                < ctx.co_localizations.lf_to_coloc@.len(),
    ensures
        match r {
            Ok(o) => match o {
                Some(v) => spec_resolve(
                    *ctx,
                    sim_before,
                    *flags,
                    matched@.to_set(),
                    left@,
                    Map::empty(),
                ) == Ok::<Option<Map<usize, SimulationStepKind>>, AnalysisFatalError>(
                    Some(pairs_to_map(v@)),
                ),
                None => spec_resolve(
                    *ctx,
                    sim_before,
                    *flags,
                    matched@.to_set(),
                    left@,
                    Map::empty(),
                ) == Ok::<Option<Map<usize, SimulationStepKind>>, AnalysisFatalError>(None),
            },
            Err(e) => spec_resolve(*ctx, sim_before, *flags, matched@.to_set(), left@, Map::empty())
                == Err::<Option<Map<usize, SimulationStepKind>>, AnalysisFatalError>(e),
        },
{
    let ghost whole = spec_resolve(*ctx, sim_before, *flags, matched@.to_set(), left@, Map::empty());
    let mut simu: Vec<(usize, SimulationStepKind)> = Vec::new();
    proof {
        assert(simu@ =~= Seq::<(usize, SimulationStepKind)>::empty());
        assert(pairs_to_map(simu@) =~= Map::<usize, SimulationStepKind>::empty());
        assert(left@.subrange(0, left@.len() as int) =~= left@);
    }
    let mut i: usize = 0;
    while i < left.len()
        invariant
            i <= left@.len(),
            ctx.wf(),
            flags.wf(*ctx),
            forall|j: int|
                0 <= j < left@.len() ==> (#[trigger] left@[j].lf_id as int)
                    < ctx.co_localizations.lf_to_coloc@.len(),
            whole == spec_resolve(*ctx, sim_before, *flags, matched@.to_set(), left@, Map::empty()),
            whole == spec_resolve(
                *ctx,
                sim_before,
                *flags,
                matched@.to_set(),
                left@.subrange(i as int, left@.len() as int),
                pairs_to_map(simu@),
            ),
        decreases left@.len() - i,
    {
        let ghost suffix = left@.subrange(i as int, left@.len() as int);
        proof {
            assert(suffix[0] == left@[i as int]);
            assert(suffix.drop_first() =~= left@.subrange(i + 1 as int, left@.len() as int));
        }
        let a = left[i];
        let c = ctx.co_localizations.lf_to_coloc[a.lf_id];
        if crate::sets::contains_usize(matched, c) {
            return Err(AnalysisFatalError::DoubleTargetedCanal);
        }
        let consumed = flags.canals[c].consumed;
        if consumed == ctx.multi_trace[c].len() {
            let ghost before = simu@;
            simu.push((c, SimulationStepKind::AfterEnd));
            proof {
                assert(simu@.drop_last() =~= before);
                assert(pairs_to_map(simu@) == pairs_to_map(before).insert(
                    c,
                    SimulationStepKind::AfterEnd,
                ));
            }
        } else if sim_before && consumed == 0 {
            let ghost before = simu@;
            simu.push((c, SimulationStepKind::BeforeStart));
            proof {
                assert(simu@.drop_last() =~= before);
                assert(pairs_to_map(simu@) == pairs_to_map(before).insert(
                    c,
                    SimulationStepKind::BeforeStart,
                ));
            }
        } else {
            return Ok(None);
        }
        i = i + 1;
    }
    proof {
        assert(left@.subrange(left@.len() as int, left@.len() as int) =~= Seq::<
            TraceAction,
        >::empty());
    }
    Ok(Some(simu))
}

/// Executable counterpart of `spec_extend_simu`: reclassifies one subset of
/// the matched canals, on top of the already resolved simulations.
fn extend_simulation(
    ctx: &AnalysisContext,
    sim_before: bool,
    flags: &MultiTraceAnalysisFlags,
    base: &Vec<(usize, SimulationStepKind)>,
    subset: &Vec<usize>,
) -> (r: Option<Vec<(usize, SimulationStepKind)>>)
    requires
        ctx.wf(),
        flags.wf(*ctx),
        forall|j: int| 0 <= j < subset@.len() ==> (#[trigger] subset@[j] as int) < ctx.multi_trace@.len(),
    ensures
        match r {
            Some(v) => spec_extend_simu(*ctx, sim_before, *flags, subset@, pairs_to_map(base@))
                == Some(pairs_to_map(v@)),
            None => spec_extend_simu(*ctx, sim_before, *flags, subset@, pairs_to_map(base@))
                is None,
        },
{
    let ghost whole = spec_extend_simu(*ctx, sim_before, *flags, subset@, pairs_to_map(base@));
    let mut simu: Vec<(usize, SimulationStepKind)> = copy_simu_vec(base);
    proof {
        assert(subset@.subrange(0, subset@.len() as int) =~= subset@);
    }
    let mut i: usize = 0;
    while i < subset.len()
        invariant
            i <= subset@.len(),
            ctx.wf(),
            flags.wf(*ctx),
            forall|j: int|
                0 <= j < subset@.len() ==> (#[trigger] subset@[j] as int) < ctx.multi_trace@.len(),
            whole == spec_extend_simu(*ctx, sim_before, *flags, subset@, pairs_to_map(base@)),
            whole == spec_extend_simu(
                *ctx,
                sim_before,
                *flags,
                subset@.subrange(i as int, subset@.len() as int),
                pairs_to_map(simu@),
            ),
        decreases subset@.len() - i,
    {
        let ghost suffix = subset@.subrange(i as int, subset@.len() as int);
        proof {
            assert(suffix[0] == subset@[i as int]);
            assert(suffix.drop_first() =~= subset@.subrange(i + 1 as int, subset@.len() as int));
        }
        let c = subset[i];
        let consumed = flags.canals[c].consumed;
        if consumed == ctx.multi_trace[c].len() {
            let ghost before = simu@;
            simu.push((c, SimulationStepKind::AfterEnd));
            proof {
                assert(simu@.drop_last() =~= before);
                assert(pairs_to_map(simu@) == pairs_to_map(before).insert(
                    c,
                    SimulationStepKind::AfterEnd,
                ));
            }
        } else if sim_before && consumed == 0 {
            let ghost before = simu@;
            simu.push((c, SimulationStepKind::BeforeStart));
            proof {
                assert(simu@.drop_last() =~= before);
                assert(pairs_to_map(simu@) == pairs_to_map(before).insert(
                    c,
                    SimulationStepKind::BeforeStart,
                ));
            }
        } else {
            return None;
        }
        i = i + 1;
    }
    proof {
        assert(subset@.subrange(subset@.len() as int, subset@.len() as int) =~= Seq::<
            usize,
        >::empty());
    }
    Some(simu)
}

/// The extra steps of the power-set enumeration: one step per non-empty,
/// feasible subset of the exactly matched canals, reclassifying that subset
/// as simulated on top of the already resolved simulations.
pub open spec fn spec_extra_steps(
    ctx: AnalysisContext,
    sim_before: bool,
    flags: MultiTraceAnalysisFlags,
    eltm: crate::frontier::FrontierElementModel,
    targets: Set<usize>,
    base: Map<usize, SimulationStepKind>,
    subsets: Seq<Seq<usize>>,
) -> Seq<StepModel>
    decreases subsets.len(),
{
    if subsets.len() == 0 {
        Seq::empty()
    } else {
        let rest = spec_extra_steps(ctx, sim_before, flags, eltm, targets, base, subsets.drop_first());
        if subsets[0].len() == 0 {
            rest
        } else {
            match spec_extend_simu(ctx, sim_before, flags, subsets[0], base) {
                Some(m) => seq![
                    StepModel { elt: eltm, consume: targets.difference(m.dom()), simulate: m },
                ] + rest,
                None => rest,
            }
        }
    }
}

/// The steps one frontier element contributes: the exact-match scan, then the
/// resolution of any unmatched actions through simulation, then the main step
/// and, when the budgets permit, the power-set reinterpretations of the
/// matched canals.
pub open spec fn spec_element_steps(
    param: AnalysisParameterization,
    ctx: AnalysisContext,
    flags: MultiTraceAnalysisFlags,
    elt: FrontierElement,
) -> Result<Seq<StepModel>, AnalysisFatalError> {
    let st = spec_match_state(ctx, flags, elt, ctx.multi_trace@.len() as int);
    let matched = st.0;
    let left = st.1;
    let targets = elt.target_coloc_set(ctx);
    let sim_before = param.ana_kind.spec_sim_before();
    if left.len() == 0 {
        let main = StepModel { elt: elt.model(), consume: targets, simulate: Map::empty() };
        if matched.len() > 0 {
            match spec_is_ok_to_simulate(param, elt, flags) {
                Err(e) => Err(e),
                Ok(ok) => if ok {
                    Ok(
                        seq![main] + spec_extra_steps(
                            ctx,
                            sim_before,
                            flags,
                            elt.model(),
                            targets,
                            Map::empty(),
                            crate::sets::spec_powerset(matched),
                        ),
                    )
                } else {
                    Ok(seq![main])
                },
            }
        } else {
            Ok(seq![main])
        }
    } else {
        match spec_is_ok_to_simulate(param, elt, flags) {
            Err(e) => Err(e),
            Ok(ok) => if !ok {
                Ok(Seq::empty())
            } else {
                match spec_resolve(ctx, sim_before, flags, matched.to_set(), left, Map::empty()) {
                    Err(e) => Err(e),
                    Ok(o) => match o {
                        None => Ok(Seq::empty()),
                        Some(simu) => {
                            let main = StepModel {
                                elt: elt.model(),
                                consume: targets.difference(simu.dom()),
                                simulate: simu,
                            };
                            if matched.len() > 0 {
                                Ok(
                                    seq![main] + spec_extra_steps(
                                        ctx,
                                        sim_before,
                                        flags,
                                        elt.model(),
                                        targets,
                                        simu,
                                        crate::sets::spec_powerset(matched),
                                    ),
                                )
                            } else {
                                Ok(seq![main])
                            }
                        },
                    },
                }
            },
        }
    }
}

/// The steps of the whole frontier, element by element, in order; the first
/// fatal error aborts the run.
pub open spec fn spec_simulation_matches(
    param: AnalysisParameterization,
    ctx: AnalysisContext,
    flags: MultiTraceAnalysisFlags,
    frontier: Seq<FrontierElement>,
) -> Result<Seq<StepModel>, AnalysisFatalError>
    decreases frontier.len(),
{
    if frontier.len() == 0 {
        Ok(Seq::empty())
    } else {
        spec_combine(
            spec_element_steps(param, ctx, flags, frontier[0]),
            spec_simulation_matches(param, ctx, flags, frontier.drop_first()),
        )
    }
}

/// Prepends the steps of one element to the outcome of the remaining ones.
pub open spec fn spec_combine(
    first: Result<Seq<StepModel>, AnalysisFatalError>,
    rest: Result<Seq<StepModel>, AnalysisFatalError>,
) -> Result<Seq<StepModel>, AnalysisFatalError> {
    match first {
        Err(e) => Err(e),
        Ok(s) => match rest {
            Err(e) => Err(e),
            Ok(t) => Ok(s + t),
        },
    }
}

/// A fresh association vector with the same entries.
fn copy_simu_vec(v: &Vec<(usize, SimulationStepKind)>) -> (r: Vec<(usize, SimulationStepKind)>)
    ensures
        r@ == v@,
{
    let mut r: Vec<(usize, SimulationStepKind)> = Vec::new();
    let mut i: usize = 0;
    while i < v.len()
        invariant
            i <= v@.len(),
            r@ == v@.subrange(0, i as int),
        decreases v@.len() - i,
    {
        r.push(v[i]);
        proof {
            assert(r@ =~= v@.subrange(0, i + 1 as int));
        }
        i = i + 1;
    }
    proof {
        assert(v@.subrange(0, v@.len() as int) =~= v@);
    }
    r
}

/// The keys of an association vector, as a vector.
fn simu_keys(v: &Vec<(usize, SimulationStepKind)>) -> (r: Vec<usize>)
    ensures
        r@ == pair_keys(v@),
{
    let mut r: Vec<usize> = Vec::new();
    let mut i: usize = 0;
    while i < v.len()
        invariant
            i <= v@.len(),
            r@ == pair_keys(v@.subrange(0, i as int)),
        decreases v@.len() - i,
    {
        r.push(v[i].0);
        proof {
            assert(r@ =~= pair_keys(v@.subrange(0, i + 1 as int)));
        }
        i = i + 1;
    }
    proof {
        assert(v@.subrange(0, v@.len() as int) =~= v@);
        assert(r@ =~= pair_keys(v@));
    }
    r
}

proof fn lemma_step_models_push(steps: Seq<AnalysisStepKind>, s: AnalysisStepKind)
    ensures
        step_models(steps.push(s)) == step_models(steps).push(s.model()),
{
    assert(step_models(steps.push(s)) =~= step_models(steps).push(s.model()));
}

proof fn lemma_step_models_concat(a: Seq<AnalysisStepKind>, b: Seq<AnalysisStepKind>)
    ensures
        step_models(a + b) == step_models(a) + step_models(b),
{
    assert(step_models(a + b) =~= step_models(a) + step_models(b));
}

/// Appends to `steps` the power-set reinterpretations of the matched canals:
/// one `Execute` step per non-empty feasible subset.
fn append_extra_steps(
    ctx: &AnalysisContext,
    sim_before: bool,
    flags: &MultiTraceAnalysisFlags,
    elt: &FrontierElement,
    canal_targets: &Vec<usize>,
    base: &Vec<(usize, SimulationStepKind)>,
    matched: &Vec<usize>,
    steps: &mut Vec<AnalysisStepKind>,
)
    requires
        ctx.wf(),
        flags.wf(*ctx),
        canal_targets@.to_set() == elt.target_coloc_set(*ctx),
        forall|k: int| 0 <= k < matched@.len() ==> (#[trigger] matched@[k] as int) < ctx.multi_trace@.len(),
    ensures
        step_models(final(steps)@) == step_models(old(steps)@) + spec_extra_steps(
            *ctx,
            sim_before,
            *flags,
            elt.model(),
            elt.target_coloc_set(*ctx),
            pairs_to_map(base@),
            crate::sets::spec_powerset(matched@),
        ),
{
    let ghost targets = elt.target_coloc_set(*ctx);
    let ghost basem = pairs_to_map(base@);
    let ghost subsets = crate::sets::spec_powerset(matched@);
    let ghost steps0 = steps@;
    proof {
        crate::sets::lemma_powerset_elements(matched@);
    }
    let ps = crate::sets::powerset(matched);
    let mut k: usize = 0;
    proof {
        assert(subsets.subrange(0, subsets.len() as int) =~= subsets);
        assert(step_models(steps@) + spec_extra_steps(
            *ctx,
            sim_before,
            *flags,
            elt.model(),
            targets,
            basem,
            subsets,
        ) =~= step_models(steps0) + spec_extra_steps(
            *ctx,
            sim_before,
            *flags,
            elt.model(),
            targets,
            basem,
            subsets,
        ));
    }
    while k < ps.len()
        invariant
            k <= ps@.len(),
            ctx.wf(),
            flags.wf(*ctx),
            canal_targets@.to_set() == targets,
            targets == elt.target_coloc_set(*ctx),
            basem == pairs_to_map(base@),
            subsets == crate::sets::spec_powerset(matched@),
            ps@.len() == subsets.len(),
            forall|j: int| 0 <= j < ps@.len() ==> (#[trigger] ps@[j]@) == subsets[j],
            forall|j: int, x: usize|
                0 <= j < subsets.len() && #[trigger] subsets[j].contains(x) ==> matched@.contains(
                    x,
                ),
            forall|j: int|
                0 <= j < matched@.len() ==> (#[trigger] matched@[j] as int)
                    < ctx.multi_trace@.len(),
            step_models(steps@) + spec_extra_steps(
                *ctx,
                sim_before,
                *flags,
                elt.model(),
                targets,
                basem,
                subsets.subrange(k as int, subsets.len() as int),
            ) == step_models(steps0) + spec_extra_steps(
                *ctx,
                sim_before,
                *flags,
                elt.model(),
                targets,
                basem,
                subsets,
            ),
        decreases ps@.len() - k,
    {
        let ghost suffix = subsets.subrange(k as int, subsets.len() as int);
        proof {
            assert(suffix[0] == subsets[k as int]);
            assert(suffix.drop_first() =~= subsets.subrange(k + 1 as int, subsets.len() as int));
        }
        let subset = &ps[k];
        if subset.len() > 0 {
            proof {
                assert forall|j: int| 0 <= j < subset@.len() implies (#[trigger] subset@[j] as int)
                    < ctx.multi_trace@.len() by {
                    assert(subsets[k as int].contains(subset@[j]));
                    let m = choose|m: int| 0 <= m < matched@.len() && matched@[m] == subset@[j];
                }
            }
            match extend_simulation(ctx, sim_before, flags, base, subset) {
                Some(v) => {
                    let keys = simu_keys(&v);
                    let consu = crate::sets::usize_vec_difference(canal_targets, &keys);
                    proof {
                        crate::step::lemma_pairs_to_map_dom(v@);
                    }
                    let step = AnalysisStepKind::Execute(elt.duplicate(), consu, v);
                    let ghost before = steps@;
                    steps.push(step);
                    proof {
                        lemma_step_models_push(before, step);
                        let m = spec_extend_simu(*ctx, sim_before, *flags, subsets[k as int], basem)
                            ->Some_0;
                        assert(step.model().simulate == m);
                        assert(step.model().consume =~= targets.difference(m.dom()));
                        assert(step.model() == StepModel {
                            elt: elt.model(),
                            consume: targets.difference(m.dom()),
                            simulate: m,
                        });
                        assert(step_models(before).push(step.model()) =~= step_models(before)
                            + seq![step.model()]);
                        assert(step_models(steps@) + spec_extra_steps(
                            *ctx,
                            sim_before,
                            *flags,
                            elt.model(),
                            targets,
                            basem,
                            suffix.drop_first(),
                        ) =~= step_models(before) + spec_extra_steps(
                            *ctx,
                            sim_before,
                            *flags,
                            elt.model(),
                            targets,
                            basem,
                            suffix,
                        ));
                    }
                },
                None => {},
            }
        }
        k = k + 1;
    }
    proof {
        assert(subsets.subrange(subsets.len() as int, subsets.len() as int) =~= Seq::<
            Seq<usize>,
        >::empty());
        assert(step_models(steps@) + Seq::<StepModel>::empty() =~= step_models(steps@));
        assert(step_models(steps0) + spec_extra_steps(
            *ctx,
            sim_before,
            *flags,
            elt.model(),
            targets,
            basem,
            subsets,
        ) == step_models(steps@));
    }
}

/// The steps one frontier element contributes, executably.
fn simulation_steps_for_element(
    param: &AnalysisParameterization,
    ctx: &AnalysisContext,
    flags: &MultiTraceAnalysisFlags,
    elt: &FrontierElement,
) -> (r: Result<Vec<AnalysisStepKind>, AnalysisFatalError>)
    requires
        ctx.wf(),
        flags.wf(*ctx),
        elt.wf(*ctx),
    ensures
        match r {
            Ok(v) => spec_element_steps(*param, *ctx, *flags, *elt) == Ok::<
                Seq<StepModel>,
                AnalysisFatalError,
            >(step_models(v@)),
            Err(e) => spec_element_steps(*param, *ctx, *flags, *elt) == Err::<
                Seq<StepModel>,
                AnalysisFatalError,
            >(e),
        },
{
    let ghost targets = elt.target_coloc_set(*ctx);
    let (matched, left) = match_scan(ctx, flags, elt);
    proof {
        lemma_match_state_bounds(*ctx, *flags, *elt, ctx.multi_trace@.len() as int);
    }
    let canal_targets = ctx.co_localizations.get_coloc_ids_from_lf_ids(&elt.target_lf_ids);
    let sim_before = param.ana_kind.sim_before();
    if left.len() == 0 {
        let mut steps: Vec<AnalysisStepKind> = Vec::new();
        let main = AnalysisStepKind::Execute(
            elt.duplicate(),
            crate::sets::copy_usize_vec(&canal_targets),
            Vec::new(),
        );
        proof {
            assert(main.model().simulate =~= Map::<usize, SimulationStepKind>::empty());
            assert(main.model() == StepModel {
                elt: elt.model(),
                consume: targets,
                simulate: Map::empty(),
            });
        }
        let ghost empty_steps = steps@;
        steps.push(main);
        proof {
            lemma_step_models_push(empty_steps, main);
            assert(step_models(steps@) =~= seq![main.model()]);
        }
        if matched.len() > 0 {
            match param.is_ok_to_simulate(elt, flags) {
                Err(e) => {
                    return Err(e);
                },
                Ok(ok) => {
                    if ok {
                        let base: Vec<(usize, SimulationStepKind)> = Vec::new();
                        proof {
                            assert(pairs_to_map(base@) =~= Map::<usize, SimulationStepKind>::empty());
                        }
                        append_extra_steps(
                            ctx,
                            sim_before,
                            flags,
                            elt,
                            &canal_targets,
                            &base,
                            &matched,
                            &mut steps,
                        );
                    }
                },
            }
        }
        Ok(steps)
    } else {
        match param.is_ok_to_simulate(elt, flags) {
            Err(e) => Err(e),
            Ok(ok) => {
                if !ok {
                    proof {
                        assert(step_models(Seq::<AnalysisStepKind>::empty()) =~= Seq::<
                            StepModel,
                        >::empty());
                    }
                    Ok(Vec::new())
                } else {
                    proof {
                        assert forall|j: int| 0 <= j < left@.len() implies (
                        #[trigger] left@[j].lf_id as int)
                            < ctx.co_localizations.lf_to_coloc@.len() by {
                            assert(left@.contains(left@[j]));
                            assert(elt.target_actions@.contains(left@[j]));
                            let m = choose|m: int|
                                0 <= m < elt.target_actions@.len() && elt.target_actions@[m]
                                    == left@[j];
                        }
                    }
                    match resolve_unmatched(ctx, sim_before, flags, &matched, &left) {
                        Err(e) => Err(e),
                        Ok(o) => match o {
                            None => {
                                proof {
                                    assert(step_models(Seq::<AnalysisStepKind>::empty()) =~= Seq::<
                                        StepModel,
                                    >::empty());
                                }
                                Ok(Vec::new())
                            },
                            Some(simu) => {
                                let ghost simu_m = pairs_to_map(simu@);
                                let keys = simu_keys(&simu);
                                let consu = crate::sets::usize_vec_difference(
                                    &canal_targets,
                                    &keys,
                                );
                                proof {
                                    crate::step::lemma_pairs_to_map_dom(simu@);
                                }
                                let mut steps: Vec<AnalysisStepKind> = Vec::new();
                                let main = AnalysisStepKind::Execute(
                                    elt.duplicate(),
                                    consu,
                                    copy_simu_vec(&simu),
                                );
                                proof {
                                    assert(main.model().consume =~= targets.difference(
                                        simu_m.dom(),
                                    ));
                                    assert(main.model() == StepModel {
                                        elt: elt.model(),
                                        consume: targets.difference(simu_m.dom()),
                                        simulate: simu_m,
                                    });
                                }
                                let ghost empty_steps = steps@;
                                steps.push(main);
                                proof {
                                    lemma_step_models_push(empty_steps, main);
                                    assert(step_models(steps@) =~= seq![main.model()]);
                                }
                                if matched.len() > 0 {
                                    append_extra_steps(
                                        ctx,
                                        sim_before,
                                        flags,
                                        elt,
                                        &canal_targets,
                                        &simu,
                                        &matched,
                                        &mut steps,
                                    );
                                }
                                Ok(steps)
                            },
                        },
                    }
                }
            },
        }
    }
}

impl AnalysisParameterization {
    /// All sound `Execute` steps for the given frontier: per frontier
    /// element, the exact matches against the log extended, where the budgets
    /// permit, by bounded simulation of the missing parts, and every
    /// power-set reinterpretation of the exactly matched canals as slack.
    ///
    /// A frontier element with no sound resolution contributes nothing; an
    /// inconsistency between the frontier and the co-localization index is a
    /// fatal error.
    ///
    /// The power-set enumeration is exponential in the number of canals that
    /// match one frontier element simultaneously.  That cost is inherent:
    /// each subset is an independent, equally valid reading of the log, and
    /// pruning it would change the analysis semantics.
    pub fn get_simulation_matches_in_analysis(
        &self,
        context: &AnalysisContext,
        frontier: &Vec<FrontierElement>,
        flags: &MultiTraceAnalysisFlags,
    ) -> (r: Result<Vec<AnalysisStepKind>, AnalysisFatalError>)
        requires
            context.wf(),
            flags.wf(*context),
            forall|i: int| 0 <= i < frontier@.len() ==> (#[trigger] frontier@[i]).wf(*context),
        ensures
            match r {
                Ok(v) => spec_simulation_matches(*self, *context, *flags, frontier@) == Ok::<
                    Seq<StepModel>,
                    AnalysisFatalError,
                >(step_models(v@)),
                Err(e) => spec_simulation_matches(*self, *context, *flags, frontier@) == Err::<
                    Seq<StepModel>,
                    AnalysisFatalError,
                >(e),
            },
    {
        let ghost whole = spec_simulation_matches(*self, *context, *flags, frontier@);
        let mut next_steps: Vec<AnalysisStepKind> = Vec::new();
        proof {
            assert(frontier@.subrange(0, frontier@.len() as int) =~= frontier@);
            assert(step_models(next_steps@) =~= Seq::<StepModel>::empty());
        }
        let mut i: usize = 0;
        while i < frontier.len()
            invariant
                i <= frontier@.len(),
                context.wf(),
                flags.wf(*context),
                forall|k: int| 0 <= k < frontier@.len() ==> (#[trigger] frontier@[k]).wf(*context),
                whole == spec_simulation_matches(*self, *context, *flags, frontier@),
                whole == spec_combine(
                    Ok(step_models(next_steps@)),
                    spec_simulation_matches(
                        *self,
                        *context,
                        *flags,
                        frontier@.subrange(i as int, frontier@.len() as int),
                    ),
                ),
            decreases frontier@.len() - i,
        {
            let ghost suffix = frontier@.subrange(i as int, frontier@.len() as int);
            proof {
                assert(suffix[0] == frontier@[i as int]);
                assert(suffix.drop_first() =~= frontier@.subrange(
                    i + 1 as int,
                    frontier@.len() as int,
                ));
            }
            match simulation_steps_for_element(self, context, flags, &frontier[i]) {
                Err(e) => {
                    return Err(e);
                },
                Ok(mut v) => {
                    let ghost acc = next_steps@;
                    let ghost got = v@;
                    next_steps.append(&mut v);
                    proof {
                        lemma_step_models_concat(acc, got);
                        match spec_simulation_matches(*self, *context, *flags, suffix.drop_first()) {
                            Ok(rest) => {
                                assert(step_models(acc) + (step_models(got) + rest) =~= (
                                step_models(acc) + step_models(got)) + rest);
                            },
                            Err(_) => {},
                        }
                    }
                },
            }
            i = i + 1;
        }
        proof {
            assert(frontier@.subrange(frontier@.len() as int, frontier@.len() as int) =~= Seq::<
                FrontierElement,
            >::empty());
            assert(step_models(next_steps@) + Seq::<StepModel>::empty() =~= step_models(
                next_steps@,
            ));
        }
        Ok(next_steps)
    }
}

} // verus!
