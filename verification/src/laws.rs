use vstd::prelude::*;

use crate::context::AnalysisContext;
use crate::flags::MultiTraceAnalysisFlags;
use crate::frontier::{FrontierElement, FrontierElementModel};
use crate::matches::{
    spec_canal_matches, spec_element_steps, spec_extend_simu, spec_extra_steps,
    spec_is_ok_to_simulate, spec_match_state, spec_resolve, spec_sim_allowed,
    spec_simulation_matches,
};
use crate::param::{AnalysisKind, AnalysisParameterization};
use crate::por::{
    lemma_head_canals_props, spec_action_matches, spec_dominates_all, spec_exhaustive_step,
    spec_exhaustive_steps, spec_full_consume_step, spec_full_consume_steps, spec_head,
    spec_head_canals, spec_por_winner, DominationOracleAnswers,
};
use crate::sets::{lemma_powerset_elements, spec_powerset};
use crate::step::{SimulationStepKind, StepModel};
use crate::trace::TraceAction;

verus! {

broadcast use vstd::seq_lib::group_seq_properties;

/// Every canal the resolution simulates is either already simulated or the
/// canal of one of the unmatched actions.
proof fn lemma_resolve_dom(
    ctx: AnalysisContext,
    sim_before: bool,
    flags: MultiTraceAnalysisFlags,
    matched: Set<usize>,
    left: Seq<TraceAction>,
    acc: Map<usize, SimulationStepKind>,
)
    ensures
        spec_resolve(ctx, sim_before, flags, matched, left, acc) matches Ok(o) ==> (o matches Some(
            m,
        ) ==> forall|c: usize|
            m.dom().contains(c) ==> acc.dom().contains(c) || exists|j: int|
                0 <= j < left.len()
                    && ctx.co_localizations.lf_to_coloc@[#[trigger] left[j].lf_id as int] == c),
    decreases left.len(),
{
    if left.len() > 0 {
        let c0 = ctx.co_localizations.lf_to_coloc@[left[0].lf_id as int];
        let fin = spec_resolve(ctx, sim_before, flags, matched, left, acc);
        if !matched.contains(c0) {
            let after_end = flags.canals@[c0 as int].consumed as int == ctx.multi_trace@[c0
                as int]@.len();
            let before_start = sim_before && flags.canals@[c0 as int].consumed == 0;
            if after_end || before_start {
                let kind = if after_end {
                    SimulationStepKind::AfterEnd
                } else {
                    SimulationStepKind::BeforeStart
                };
                let acc2 = acc.insert(c0, kind);
                lemma_resolve_dom(ctx, sim_before, flags, matched, left.drop_first(), acc2);
                assert(fin == spec_resolve(ctx, sim_before, flags, matched, left.drop_first(), acc2));
                match fin {
                    Ok(o) => match o {
                        Some(m) => {
                            assert forall|c: usize|
                                m.dom().contains(c) implies acc.dom().contains(c) || exists|j: int|
                                0 <= j < left.len() && ctx.co_localizations.lf_to_coloc@[
                                #[trigger] left[j].lf_id as int] == c by {
                                if !acc.dom().contains(c) {
                                    assert(acc2.dom().contains(c) || exists|j: int|
                                        0 <= j < left.drop_first().len()
                                            && ctx.co_localizations.lf_to_coloc@[
                                        #[trigger] left.drop_first()[j].lf_id as int] == c);
                                    if acc2.dom().contains(c) {
                                        assert(c == c0);
                                        assert(ctx.co_localizations.lf_to_coloc@[
                                        left[0].lf_id as int] == c);
                                    } else {
                                        let j = choose|j: int|
                                            0 <= j < left.drop_first().len()
                                                && ctx.co_localizations.lf_to_coloc@[
                                            #[trigger] left.drop_first()[j].lf_id as int] == c;
                                        assert(left[j + 1] == left.drop_first()[j]);
                                        assert(ctx.co_localizations.lf_to_coloc@[
                                        left[j + 1].lf_id as int] == c);
                                    }
                                }
                            }
                        },
                        None => {},
                    },
                    Err(_) => {},
                }
            }
        }
    }
}

/// Every canal a subset reclassification simulates is either already
/// simulated or a member of the subset.
proof fn lemma_extend_dom(
    ctx: AnalysisContext,
    sim_before: bool,
    flags: MultiTraceAnalysisFlags,
    subset: Seq<usize>,
    acc: Map<usize, SimulationStepKind>,
)
    ensures
        spec_extend_simu(ctx, sim_before, flags, subset, acc) matches Some(m) ==> forall|c: usize|
            m.dom().contains(c) ==> acc.dom().contains(c) || subset.contains(c),
    decreases subset.len(),
{
    if subset.len() > 0 {
        let c0 = subset[0];
        let fin = spec_extend_simu(ctx, sim_before, flags, subset, acc);
        let after_end = flags.canals@[c0 as int].consumed as int == ctx.multi_trace@[c0
            as int]@.len();
        let before_start = sim_before && flags.canals@[c0 as int].consumed == 0;
        if after_end || before_start {
            let kind = if after_end {
                SimulationStepKind::AfterEnd
            } else {
                SimulationStepKind::BeforeStart
            };
            let acc2 = acc.insert(c0, kind);
            lemma_extend_dom(ctx, sim_before, flags, subset.drop_first(), acc2);
            assert(fin == spec_extend_simu(ctx, sim_before, flags, subset.drop_first(), acc2));
            match fin {
                Some(m) => {
                    assert forall|c: usize| m.dom().contains(c) implies acc.dom().contains(c)
                        || subset.contains(c) by {
                        if !acc.dom().contains(c) {
                            assert(acc2.dom().contains(c) || subset.drop_first().contains(c));
                            if acc2.dom().contains(c) {
                                assert(c == c0);
                                assert(subset[0] == c);
                            } else {
                                let j = choose|j: int|
                                    0 <= j < subset.drop_first().len() && subset.drop_first()[j]
                                        == c;
                                assert(subset[j + 1] == subset.drop_first()[j]);
                            }
                        }
                    }
                },
                None => {},
            }
        }
    }
}

/// Every canal recorded as an exact match belongs to the canal set implied by
/// the frontier element's target components.
proof fn lemma_matched_in_targets(
    ctx: AnalysisContext,
    flags: MultiTraceAnalysisFlags,
    elt: FrontierElement,
    n: int,
)
    requires
        ctx.wf(),
        elt.wf(ctx),
        n <= ctx.multi_trace@.len(),
    ensures
        forall|k: int|
            0 <= k < spec_match_state(ctx, flags, elt, n).0.len() ==> elt.target_coloc_set(
                ctx,
            ).contains(#[trigger] spec_match_state(ctx, flags, elt, n).0[k]),
    decreases n,
{
    if n > 0 {
        lemma_matched_in_targets(ctx, flags, elt, n - 1);
        crate::matches::lemma_match_state_bounds(ctx, flags, elt, n - 1);
        let prev = spec_match_state(ctx, flags, elt, n - 1);
        let cur = spec_match_state(ctx, flags, elt, n);
        if spec_canal_matches(ctx, flags, n - 1, prev.1) {
            let consumed = flags.canals@[n - 1].consumed as int;
            let head = ctx.multi_trace@[n - 1]@[consumed]@;
            let a = head[0];
            assert(prev.1.contains(a));
            assert(elt.target_actions@.contains(a));
            let m = choose|m: int|
                0 <= m < elt.target_actions@.len() && elt.target_actions@[m] == a;
            assert(ctx.co_localizations.lf_to_coloc@[a.lf_id as int] == n - 1);
            assert(elt.target_lf_ids@.contains(a.lf_id));
            assert(elt.target_lf_ids@.to_set().contains(a.lf_id));
            assert(elt.target_coloc_set(ctx).contains((n - 1) as usize));
            assert forall|k: int| 0 <= k < cur.0.len() implies elt.target_coloc_set(ctx).contains(
                #[trigger] cur.0[k],
            ) by {
                if k < prev.0.len() {
                    assert(cur.0[k] == prev.0[k]);
                } else {
                    assert(cur.0[k] == (n - 1) as usize);
                }
            }
        }
    }
}

/// Partition invariant for the power-set reinterpretations.
proof fn lemma_extra_steps_partition(
    ctx: AnalysisContext,
    sim_before: bool,
    flags: MultiTraceAnalysisFlags,
    eltm: FrontierElementModel,
    targets: Set<usize>,
    base: Map<usize, SimulationStepKind>,
    subsets: Seq<Seq<usize>>,
)
    requires
        forall|c: usize| base.dom().contains(c) ==> targets.contains(c),
        forall|k: int, x: usize|
            0 <= k < subsets.len() && #[trigger] subsets[k].contains(x) ==> targets.contains(x),
        targets == ctx.co_localizations.coloc_set_of_lfs(eltm.target_lf_ids),
    ensures
        forall|i: int|
            0 <= i < spec_extra_steps(ctx, sim_before, flags, eltm, targets, base, subsets).len()
                ==> (#[trigger] spec_extra_steps(
                ctx,
                sim_before,
                flags,
                eltm,
                targets,
                base,
                subsets,
            )[i]).partition_ok(ctx),
    decreases subsets.len(),
{
    if subsets.len() > 0 {
        lemma_extra_steps_partition(
            ctx,
            sim_before,
            flags,
            eltm,
            targets,
            base,
            subsets.drop_first(),
        );
        let whole = spec_extra_steps(ctx, sim_before, flags, eltm, targets, base, subsets);
        let rest = spec_extra_steps(
            ctx,
            sim_before,
            flags,
            eltm,
            targets,
            base,
            subsets.drop_first(),
        );
        if subsets[0].len() > 0 {
            match spec_extend_simu(ctx, sim_before, flags, subsets[0], base) {
                Some(m) => {
                    lemma_extend_dom(ctx, sim_before, flags, subsets[0], base);
                    let step = StepModel {
                        elt: eltm,
                        consume: targets.difference(m.dom()),
                        simulate: m,
                    };
                    assert forall|c: usize| m.dom().contains(c) implies targets.contains(c) by {
                        if !base.dom().contains(c) {
                            assert(subsets[0].contains(c));
                        }
                    }
                    assert(step.consume.union(step.simulate.dom()) =~= targets);
                    assert(step.partition_ok(ctx));
                    assert forall|i: int| 0 <= i < whole.len() implies (
                    #[trigger] whole[i]).partition_ok(ctx) by {
                        if i == 0 {
                            assert(whole[0] == step);
                        } else {
                            assert(whole[i] == rest[i - 1]);
                        }
                    }
                },
                None => {},
            }
        }
    }
}

/// Partition invariant for the steps of one frontier element.
proof fn lemma_element_steps_partition(
    param: AnalysisParameterization,
    ctx: AnalysisContext,
    flags: MultiTraceAnalysisFlags,
    elt: FrontierElement,
)
    requires
        ctx.wf(),
        elt.wf(ctx),
    ensures
        spec_element_steps(param, ctx, flags, elt) matches Ok(steps) ==> forall|i: int|
            0 <= i < steps.len() ==> (#[trigger] steps[i]).partition_ok(ctx),
{
    let n = ctx.multi_trace@.len() as int;
    let st = spec_match_state(ctx, flags, elt, n);
    let matched = st.0;
    let left = st.1;
    let targets = elt.target_coloc_set(ctx);
    let sim_before = param.ana_kind.spec_sim_before();
    crate::matches::lemma_match_state_bounds(ctx, flags, elt, n);
    lemma_matched_in_targets(ctx, flags, elt, n);
    lemma_powerset_elements(matched);
    assert(elt.model().target_lf_ids == elt.target_lf_ids@.to_set());
    assert forall|k: int, x: usize|
        0 <= k < spec_powerset(matched).len() && #[trigger] spec_powerset(matched)[k].contains(
            x,
        ) implies targets.contains(x) by {
        assert(matched.contains(x));
        let j = choose|j: int| 0 <= j < matched.len() && matched[j] == x;
    }
    if left.len() == 0 {
        let main = StepModel { elt: elt.model(), consume: targets, simulate: Map::empty() };
        assert(main.consume.union(main.simulate.dom()) =~= targets);
        assert(main.partition_ok(ctx));
        match spec_is_ok_to_simulate(param, elt, flags) {
            Err(_) => {},
            Ok(ok) => {
                if matched.len() > 0 && ok {
                    assert forall|c: usize|
                        Map::<usize, SimulationStepKind>::empty().dom().contains(
                            c,
                        ) implies targets.contains(c) by {}
                    lemma_extra_steps_partition(
                        ctx,
                        sim_before,
                        flags,
                        elt.model(),
                        targets,
                        Map::empty(),
                        spec_powerset(matched),
                    );
                    let extras = spec_extra_steps(
                        ctx,
                        sim_before,
                        flags,
                        elt.model(),
                        targets,
                        Map::empty(),
                        spec_powerset(matched),
                    );
                    let steps = seq![main] + extras;
                    assert forall|i: int| 0 <= i < steps.len() implies (
                    #[trigger] steps[i]).partition_ok(ctx) by {
                        if i > 0 {
                            assert(steps[i] == extras[i - 1]);
                        } else {
                            assert(steps[0] == main);
                        }
                    }
                }
            },
        }
    } else {
        match spec_is_ok_to_simulate(param, elt, flags) {
            Err(_) => {},
            Ok(ok) => {
                if ok {
                    match spec_resolve(ctx, sim_before, flags, matched.to_set(), left, Map::empty()) {
                        Err(_) => {},
                        Ok(o) => match o {
                            None => {},
                            Some(simu) => {
                                lemma_resolve_dom(
                                    ctx,
                                    sim_before,
                                    flags,
                                    matched.to_set(),
                                    left,
                                    Map::empty(),
                                );
                                assert forall|c: usize|
                                    simu.dom().contains(c) implies targets.contains(c) by {
                                    let j = choose|j: int|
                                        0 <= j < left.len() && ctx.co_localizations.lf_to_coloc@[
                                        #[trigger] left[j].lf_id as int] == c;
                                    assert(left.contains(left[j]));
                                    assert(elt.target_actions@.contains(left[j]));
                                    let m = choose|m: int|
                                        0 <= m < elt.target_actions@.len()
                                            && elt.target_actions@[m] == left[j];
                                    assert(elt.target_lf_ids@.contains(left[j].lf_id));
                                    assert(elt.target_lf_ids@.to_set().contains(left[j].lf_id));
                                }
                                let main = StepModel {
                                    elt: elt.model(),
                                    consume: targets.difference(simu.dom()),
                                    simulate: simu,
                                };
                                assert(main.consume.union(main.simulate.dom()) =~= targets);
                                assert(main.partition_ok(ctx));
                                if matched.len() > 0 {
                                    lemma_extra_steps_partition(
                                        ctx,
                                        sim_before,
                                        flags,
                                        elt.model(),
                                        targets,
                                        simu,
                                        spec_powerset(matched),
                                    );
                                    let extras = spec_extra_steps(
                                        ctx,
                                        sim_before,
                                        flags,
                                        elt.model(),
                                        targets,
                                        simu,
                                        spec_powerset(matched),
                                    );
                                    let steps = seq![main] + extras;
                                    assert forall|i: int| 0 <= i < steps.len() implies (
                                    #[trigger] steps[i]).partition_ok(ctx) by {
                                        if i > 0 {
                                            assert(steps[i] == extras[i - 1]);
                                        } else {
                                            assert(steps[0] == main);
                                        }
                                    }
                                }
                            },
                        },
                    }
                }
            },
        }
    }
}

/// Partition invariant: every step the simulation engine emits consumes and
/// simulates disjoint canal sets whose union is exactly the canal set implied
/// by its frontier element's target components.
pub proof fn lemma_simulation_steps_partition(
    param: AnalysisParameterization,
    ctx: AnalysisContext,
    flags: MultiTraceAnalysisFlags,
    frontier: Seq<FrontierElement>,
)
    requires
        ctx.wf(),
        forall|i: int| 0 <= i < frontier.len() ==> (#[trigger] frontier[i]).wf(ctx),
    ensures
        spec_simulation_matches(param, ctx, flags, frontier) matches Ok(steps) ==> forall|i: int|
            0 <= i < steps.len() ==> (#[trigger] steps[i]).partition_ok(ctx),
    decreases frontier.len(),
{
    if frontier.len() > 0 {
        assert(frontier[0].wf(ctx));
        lemma_element_steps_partition(param, ctx, flags, frontier[0]);
        assert forall|i: int|
            0 <= i < frontier.drop_first().len() implies (#[trigger] frontier.drop_first()[i]).wf(
            ctx,
        ) by {
            assert(frontier.drop_first()[i] == frontier[i + 1]);
        }
        lemma_simulation_steps_partition(param, ctx, flags, frontier.drop_first());
        match spec_element_steps(param, ctx, flags, frontier[0]) {
            Err(_) => {},
            Ok(s0) => {
                match spec_simulation_matches(param, ctx, flags, frontier.drop_first()) {
                    Err(_) => {},
                    Ok(rest) => {
                        let steps = s0 + rest;
                        assert forall|i: int| 0 <= i < steps.len() implies (
                        #[trigger] steps[i]).partition_ok(ctx) by {
                            if i < s0.len() {
                                assert(steps[i] == s0[i]);
                            } else {
                                assert(steps[i] == rest[i - s0.len()]);
                            }
                        }
                    },
                }
            },
        }
    }
}

/// Budget gating: with the action criterion active and the simulated-action
/// budget exhausted, the simulation engine succeeds and no emitted step
/// simulates anything.
pub proof fn lemma_budget_gating(
    param: AnalysisParameterization,
    ctx: AnalysisContext,
    flags: MultiTraceAnalysisFlags,
    frontier: Seq<FrontierElement>,
)
    requires
        param.ana_kind matches AnalysisKind::Simulate(config) && !(config.act_crit
            is NoCriterion),
        flags.rem_act_in_sim == 0,
    ensures
        spec_simulation_matches(param, ctx, flags, frontier) matches Ok(steps) && forall|i: int|
            0 <= i < steps.len() ==> (#[trigger] steps[i]).simulate == Map::<
                usize,
                SimulationStepKind,
            >::empty(),
    decreases frontier.len(),
{
    if frontier.len() > 0 {
        let elt = frontier[0];
        assert(!spec_sim_allowed(param.ana_kind->Simulate_0, elt, flags));
        lemma_budget_gating(param, ctx, flags, frontier.drop_first());
        let s0 = spec_element_steps(param, ctx, flags, elt)->Ok_0;
        let rest = spec_simulation_matches(param, ctx, flags, frontier.drop_first())->Ok_0;
        let steps = s0 + rest;
        assert forall|i: int| 0 <= i < steps.len() implies (#[trigger] steps[i]).simulate == Map::<
            usize,
            SimulationStepKind,
        >::empty() by {
            if i < s0.len() {
                assert(steps[i] == s0[i]);
            } else {
                assert(steps[i] == rest[i - s0.len()]);
            }
        }
    }
}

/// With the reduction disabled, the exhaustive fallback emits at most one
/// step per frontier element.
pub proof fn lemma_exhaustive_single_step_per_frontier(
    oracle: DominationOracleAnswers,
    ctx: AnalysisContext,
    flags: MultiTraceAnalysisFlags,
    frontier: Seq<FrontierElement>,
)
    ensures
        spec_action_matches(false, oracle, ctx, flags, frontier).len() <= frontier.len(),
{
    lemma_exhaustive_len(
        ctx,
        flags,
        spec_head_canals(ctx, flags, ctx.multi_trace@.len() as int),
        frontier,
    );
}

proof fn lemma_exhaustive_len(
    ctx: AnalysisContext,
    flags: MultiTraceAnalysisFlags,
    heads: Seq<usize>,
    frontier: Seq<FrontierElement>,
)
    ensures
        spec_exhaustive_steps(ctx, flags, heads, frontier).len() <= frontier.len(),
    decreases frontier.len(),
{
    if frontier.len() > 0 {
        lemma_exhaustive_len(ctx, flags, heads, frontier.drop_first());
    }
}

/// The scan for a dominant univocal head action lands on `a` when `a` is the
/// only univocal head action and dominates all the others.
proof fn lemma_winner_scan(
    oracle: DominationOracleAnswers,
    heads: Seq<usize>,
    a: usize,
    idx: int,
    i: int,
)
    requires
        0 <= i <= idx < heads.len(),
        heads[idx] == a,
        oracle.univocal@[a as int],
        spec_dominates_all(oracle, heads, a),
        forall|k: int|
            0 <= k < heads.len() && heads[k] != a ==> !oracle.univocal@[#[trigger] heads[k] as int],
        forall|k: int| 0 <= k < heads.len() && k != idx ==> heads[k] != a,
    ensures
        spec_por_winner(oracle, heads, i) == Some(a),
    decreases idx - i,
{
    if i < idx {
        assert(heads[i] != a);
        lemma_winner_scan(oracle, heads, a, idx, i + 1);
    }
}

/// Exhaustive matching, applied to frontier elements whose target action set
/// equals the head multi-action of some head canal, emits exactly the
/// full-consumption step of every element.
proof fn lemma_exhaustive_equals_full(
    ctx: AnalysisContext,
    flags: MultiTraceAnalysisFlags,
    heads: Seq<usize>,
    elts: Seq<FrontierElement>,
    idx: int,
)
    requires
        0 <= idx < heads.len(),
        forall|k: int|
            0 <= k < elts.len() ==> (#[trigger] elts[k]).target_actions@.to_set() == spec_head(
                ctx,
                flags,
                heads[idx] as int,
            ).to_set(),
    ensures
        spec_exhaustive_steps(ctx, flags, heads, elts) == spec_full_consume_steps(ctx, elts),
    decreases elts.len(),
{
    if elts.len() == 0 {
        assert(spec_exhaustive_steps(ctx, flags, heads, elts) =~= spec_full_consume_steps(
            ctx,
            elts,
        ));
    } else {
        assert(elts[0].target_actions@.to_set() == spec_head(ctx, flags, heads[idx] as int).to_set());
        assert(spec_exhaustive_step(ctx, flags, heads, elts[0]) == Some(
            spec_full_consume_step(ctx, elts[0]),
        ));
        assert forall|k: int|
            0 <= k < elts.drop_first().len() implies (
        #[trigger] elts.drop_first()[k]).target_actions@.to_set() == spec_head(
            ctx,
            flags,
            heads[idx] as int,
        ).to_set() by {
            assert(elts.drop_first()[k] == elts[k + 1]);
        }
        lemma_exhaustive_equals_full(ctx, flags, heads, elts.drop_first(), idx);
        assert(spec_exhaustive_steps(ctx, flags, heads, elts) =~= spec_full_consume_steps(
            ctx,
            elts,
        ));
    }
}

/// Soundness sample of the partial order reduction: when canal `a`'s head
/// action is the only univocal head action, dominates every other head
/// action, and the oracle's successors for it all execute exactly that head
/// multi-action, the reduced step set equals the full-consumption successors
/// of `a`'s frontier elements — which is exactly (hence in particular a
/// subset of) what exhaustive matching returns for those same elements.
pub proof fn lemma_por_reduction_sound(
    oracle: DominationOracleAnswers,
    ctx: AnalysisContext,
    flags: MultiTraceAnalysisFlags,
    frontier: Seq<FrontierElement>,
    a: usize,
    idx: int,
)
    requires
        ctx.multi_trace@.len() <= usize::MAX,
        0 <= idx < spec_head_canals(ctx, flags, ctx.multi_trace@.len() as int).len(),
        spec_head_canals(ctx, flags, ctx.multi_trace@.len() as int)[idx] == a,
        oracle.univocal@[a as int],
        spec_dominates_all(oracle, spec_head_canals(ctx, flags, ctx.multi_trace@.len() as int), a),
        forall|k: int|
            0 <= k < spec_head_canals(ctx, flags, ctx.multi_trace@.len() as int).len()
                && spec_head_canals(ctx, flags, ctx.multi_trace@.len() as int)[k] != a
                ==> !oracle.univocal@[#[trigger] spec_head_canals(
                ctx,
                flags,
                ctx.multi_trace@.len() as int,
            )[k] as int],
        forall|k: int|
            0 <= k < oracle.head_frontier@[a as int]@.len() ==> (
            #[trigger] oracle.head_frontier@[a as int]@[k]).target_actions@.to_set() == spec_head(
                ctx,
                flags,
                a as int,
            ).to_set(),
    ensures
        spec_action_matches(true, oracle, ctx, flags, frontier) == spec_full_consume_steps(
            ctx,
            oracle.head_frontier@[a as int]@,
        ),
        spec_action_matches(true, oracle, ctx, flags, frontier) == spec_exhaustive_steps(
            ctx,
            flags,
            spec_head_canals(ctx, flags, ctx.multi_trace@.len() as int),
            oracle.head_frontier@[a as int]@,
        ),
{
    let n = ctx.multi_trace@.len() as int;
    let heads = spec_head_canals(ctx, flags, n);
    lemma_head_canals_ascending(ctx, flags, n);
    assert forall|k: int| 0 <= k < heads.len() && k != idx implies heads[k] != a by {
        if k < idx {
            assert(heads[k] < heads[idx]);
        } else {
            assert(heads[idx] < heads[k]);
        }
    }
    lemma_winner_scan(oracle, heads, a, idx, 0);
    lemma_exhaustive_equals_full(ctx, flags, heads, oracle.head_frontier@[a as int]@, idx);
}

/// The head canals are listed in strictly ascending order.
proof fn lemma_head_canals_ascending(ctx: AnalysisContext, flags: MultiTraceAnalysisFlags, n: int)
    requires
        n <= usize::MAX,
    ensures
        forall|k1: int, k2: int|
            0 <= k1 < k2 < spec_head_canals(ctx, flags, n).len() ==> #[trigger] spec_head_canals(
                ctx,
                flags,
                n,
            )[k1] < #[trigger] spec_head_canals(ctx, flags, n)[k2],
    decreases n,
{
    if n > 0 {
        lemma_head_canals_ascending(ctx, flags, n - 1);
        lemma_head_canals_props(ctx, flags, n - 1);
        let prev = spec_head_canals(ctx, flags, n - 1);
        let cur = spec_head_canals(ctx, flags, n);
        assert forall|k1: int, k2: int|
            0 <= k1 < k2 < cur.len() implies #[trigger] cur[k1] < #[trigger] cur[k2] by {
            if crate::por::spec_has_head(ctx, flags, n - 1) {
                if k2 < prev.len() {
                    assert(cur[k1] == prev[k1] && cur[k2] == prev[k2]);
                } else {
                    assert(cur[k2] == (n - 1) as usize);
                    assert(cur[k1] == prev[k1]);
                    assert((prev[k1] as int) < n - 1);
                }
            } else {
                assert(cur[k1] == prev[k1] && cur[k2] == prev[k2]);
            }
        }
    }
}

} // verus!
