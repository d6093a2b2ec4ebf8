use vstd::prelude::*;

use crate::context::AnalysisContext;
use crate::flags::MultiTraceAnalysisFlags;
use crate::frontier::FrontierElement;
use crate::param::AnalysisParameterization;
use crate::step::{step_models, AnalysisStepKind, SimulationStepKind, StepModel};
use crate::trace::TraceAction;

verus! {

broadcast use vstd::seq_lib::group_seq_properties;

/// The Domination and Frontier Oracles' verdicts about the current
/// specification term, one entry per canal, supplied by the caller.  For a
/// canal `c` whose head multi-action exists: whether that head action is
/// univocal, which other canals' head actions it dominates, and the frontier
/// elements that execute it.  Entries of canals without a head are ignored.
#[derive(Clone, Debug)]
pub struct DominationOracleAnswers {
    pub univocal: Vec<bool>,
    pub dominated: Vec<Vec<usize>>,
    pub head_frontier: Vec<Vec<FrontierElement>>,
}

impl DominationOracleAnswers {
    pub open spec fn wf(self, ctx: AnalysisContext) -> bool {
        &&& self.univocal@.len() == ctx.multi_trace@.len()
        &&& self.dominated@.len() == ctx.multi_trace@.len()
        &&& self.head_frontier@.len() == ctx.multi_trace@.len()
        &&& forall|c: int, k: int|
            0 <= c < self.head_frontier@.len() && 0 <= k < self.head_frontier@[c]@.len() ==> (
            #[trigger] self.head_frontier@[c]@[k]).wf(ctx)
    }
}

/// Whether canal `c` still has an unconsumed multi-action.
pub open spec fn spec_has_head(ctx: AnalysisContext, flags: MultiTraceAnalysisFlags, c: int) -> bool {
    (flags.canals@[c].consumed as int) < ctx.multi_trace@[c]@.len()
}

/// The head (next unconsumed) multi-action of canal `c`.
pub open spec fn spec_head(ctx: AnalysisContext, flags: MultiTraceAnalysisFlags, c: int) -> Seq<
    TraceAction,
> {
    ctx.multi_trace@[c]@[flags.canals@[c].consumed as int]@
}

/// The canals with a head multi-action among `0 .. n`, ascending.
pub open spec fn spec_head_canals(
    ctx: AnalysisContext,
    flags: MultiTraceAnalysisFlags,
    n: int,
) -> Seq<usize>
    decreases n,
{
    if n <= 0 {
        Seq::empty()
    } else {
        let prev = spec_head_canals(ctx, flags, n - 1);
        if spec_has_head(ctx, flags, n - 1) {
            prev.push((n - 1) as usize)
        } else {
            prev
        }
    }
}

/// The head canals are exactly the canals below `n` that still have an
/// unconsumed multi-action.
pub proof fn lemma_head_canals_props(ctx: AnalysisContext, flags: MultiTraceAnalysisFlags, n: int)
    requires
        n <= usize::MAX,
    ensures
        forall|k: int|
            0 <= k < spec_head_canals(ctx, flags, n).len() ==> (#[trigger] spec_head_canals(
                ctx,
                flags,
                n,
            )[k] as int) < n && spec_has_head(ctx, flags, spec_head_canals(ctx, flags, n)[k] as int),
        forall|c: usize|
            0 <= (c as int) < n && spec_has_head(ctx, flags, c as int) ==> spec_head_canals(
                ctx,
                flags,
                n,
            ).contains(c),
    decreases n,
{
    if n > 0 {
        lemma_head_canals_props(ctx, flags, n - 1);
        let prev = spec_head_canals(ctx, flags, n - 1);
        let cur = spec_head_canals(ctx, flags, n);
        assert forall|k: int| 0 <= k < cur.len() implies (#[trigger] cur[k] as int) < n
            && spec_has_head(ctx, flags, cur[k] as int) by {
            if spec_has_head(ctx, flags, n - 1) {
                if k < prev.len() {
                    assert(cur[k] == prev[k]);
                } else {
                    assert(cur[k] == (n - 1) as usize);
                }
            } else {
                assert(cur[k] == prev[k]);
            }
        }
        assert forall|c: usize|
            0 <= (c as int) < n && spec_has_head(ctx, flags, c as int) implies spec_head_canals(
            ctx,
            flags,
            n,
        ).contains(c) by {
            if (c as int) < n - 1 {
                let k = choose|k: int| 0 <= k < prev.len() && prev[k] == c;
                assert(spec_head_canals(ctx, flags, n)[k] == c);
            } else {
                assert(spec_head_canals(ctx, flags, n)[prev.len() as int] == c);
            }
        }
    }
}

/// Whether the head action of canal `c` dominates the head action of every
/// other head canal, according to the oracle.
pub open spec fn spec_dominates_all(
    oracle: DominationOracleAnswers,
    heads: Seq<usize>,
    c: usize,
) -> bool {
    forall|j: int|
        0 <= j < heads.len() && heads[j] != c ==> oracle.dominated@[c as int]@.contains(
            #[trigger] heads[j],
        )
}

/// The first head canal, from position `i` on, whose head action the oracle
/// reports univocal and which dominates every other head action.
pub open spec fn spec_por_winner(
    oracle: DominationOracleAnswers,
    heads: Seq<usize>,
    i: int,
) -> Option<usize>
    decreases heads.len() - i,
{
    if i < 0 || i >= heads.len() {
        Option::None
    } else {
        let c = heads[i];
        if oracle.univocal@[c as int] && spec_dominates_all(oracle, heads, c) {
            Some(c)
        } else {
            spec_por_winner(oracle, heads, i + 1)
        }
    }
}

/// The step that executes a frontier element purely from the log: every
/// implied canal is consumed for real and nothing is simulated.
pub open spec fn spec_full_consume_step(ctx: AnalysisContext, elt: FrontierElement) -> StepModel {
    StepModel {
        elt: elt.model(),
        consume: elt.target_coloc_set(ctx),
        simulate: Map::empty(),
    }
}

/// One full-consumption step per frontier element, in order.
pub open spec fn spec_full_consume_steps(ctx: AnalysisContext, elts: Seq<FrontierElement>) -> Seq<
    StepModel,
> {
    elts.map_values(|e: FrontierElement| spec_full_consume_step(ctx, e))
}

/// The exhaustive fallback for one frontier element: one full-consumption
/// step when some canal's head multi-action equals the element's target
/// action set exactly, and nothing otherwise.
pub open spec fn spec_exhaustive_step(
    ctx: AnalysisContext,
    flags: MultiTraceAnalysisFlags,
    heads: Seq<usize>,
    elt: FrontierElement,
) -> Option<StepModel> {
    if exists|j: int|
        0 <= j < heads.len() && spec_head(ctx, flags, #[trigger] heads[j] as int).to_set()
            == elt.target_actions@.to_set() {
        Some(spec_full_consume_step(ctx, elt))
    } else {
        Option::None
    }
}

/// The exhaustive fallback over the whole frontier: at most one step per
/// frontier element, in frontier order.
pub open spec fn spec_exhaustive_steps(
    ctx: AnalysisContext,
    flags: MultiTraceAnalysisFlags,
    heads: Seq<usize>,
    frontier: Seq<FrontierElement>,
) -> Seq<StepModel>
    decreases frontier.len(),
{
    if frontier.len() == 0 {
        Seq::empty()
    } else {
        let rest = spec_exhaustive_steps(ctx, flags, heads, frontier.drop_first());
        match spec_exhaustive_step(ctx, flags, heads, frontier[0]) {
            Some(m) => seq![m] + rest,
            None => rest,
        }
    }
}

/// The step set of pure trace-driven analysis: the reduced successors of the
/// first dominant univocal head action when the reduction applies, and the
/// exhaustive fallback otherwise.
pub open spec fn spec_action_matches(
    use_por: bool,
    oracle: DominationOracleAnswers,
    ctx: AnalysisContext,
    flags: MultiTraceAnalysisFlags,
    frontier: Seq<FrontierElement>,
) -> Seq<StepModel> {
    let heads = spec_head_canals(ctx, flags, ctx.multi_trace@.len() as int);
    if use_por {
        match spec_por_winner(oracle, heads, 0) {
            Some(c) => spec_full_consume_steps(ctx, oracle.head_frontier@[c as int]@),
            None => spec_exhaustive_steps(ctx, flags, heads, frontier),
        }
    } else {
        spec_exhaustive_steps(ctx, flags, heads, frontier)
    }
}

/// One full-consumption step per element of `elts`.
fn full_consume_steps(ctx: &AnalysisContext, elts: &Vec<FrontierElement>) -> (r: Vec<
    AnalysisStepKind,
>)
    requires
        ctx.wf(),
        forall|k: int| 0 <= k < elts@.len() ==> (#[trigger] elts@[k]).wf(*ctx),
    ensures
        step_models(r@) == spec_full_consume_steps(*ctx, elts@),
{
    let mut steps: Vec<AnalysisStepKind> = Vec::new();
    proof {
        assert(step_models(steps@) =~= spec_full_consume_steps(*ctx, elts@.subrange(0, 0)));
    }
    let mut i: usize = 0;
    while i < elts.len()
        invariant
            i <= elts@.len(),
            ctx.wf(),
            forall|k: int| 0 <= k < elts@.len() ==> (#[trigger] elts@[k]).wf(*ctx),
            step_models(steps@) == spec_full_consume_steps(*ctx, elts@.subrange(0, i as int)),
        decreases elts@.len() - i,
    {
        let elt = &elts[i];
        let consu = ctx.co_localizations.get_coloc_ids_from_lf_ids(&elt.target_lf_ids);
        let step = AnalysisStepKind::Execute(elt.duplicate(), consu, Vec::new());
        proof {
            assert(step.model().simulate =~= Map::<usize, SimulationStepKind>::empty());
            assert(step.model() == spec_full_consume_step(*ctx, elts@[i as int]));
        }
        let ghost before = steps@;
        steps.push(step);
        proof {
            assert(step_models(steps@) =~= step_models(before).push(step.model()));
            assert(step_models(steps@) =~= spec_full_consume_steps(
                *ctx,
                elts@.subrange(0, i + 1 as int),
            ));
        }
        i = i + 1;
    }
    proof {
        assert(elts@.subrange(0, elts@.len() as int) =~= elts@);
    }
    steps
}

impl AnalysisParameterization {
    /// The step set for pure trace-driven (non-simulated) analysis.  With the
    /// reduction enabled, the oracle's verdicts are scanned in head order;
    /// the first univocal head action that dominates every other head action
    /// alone determines the successors (one full-consumption step per
    /// frontier element the oracle associates with it).  Otherwise every
    /// frontier element is matched exhaustively against the canal heads, with
    /// at most one step per element.
    pub fn get_action_matches_in_analysis(
        &self,
        use_partial_order_reduction: bool,
        context: &AnalysisContext,
        frontier: &Vec<FrontierElement>,
        oracle: &DominationOracleAnswers,
        flags: &MultiTraceAnalysisFlags,
    ) -> (r: Vec<AnalysisStepKind>)
        requires
            context.wf(),
            flags.wf(*context),
            oracle.wf(*context),
            forall|i: int| 0 <= i < frontier@.len() ==> (#[trigger] frontier@[i]).wf(*context),
        ensures
            step_models(r@) == spec_action_matches(
                use_partial_order_reduction,
                *oracle,
                *context,
                *flags,
                frontier@,
            ),
    {
        let n = context.multi_trace.len();
        let ghost heads_spec = spec_head_canals(*context, *flags, n as int);
        proof {
            lemma_head_canals_props(*context, *flags, n as int);
        }
        // collect the canals that still have a head multi-action
        let mut heads: Vec<usize> = Vec::new();
        let mut c: usize = 0;
        while c < n
            invariant
                c <= n,
                n == context.multi_trace@.len(),
                flags.wf(*context),
                heads@ == spec_head_canals(*context, *flags, c as int),
            decreases n - c,
        {
            if flags.canals[c].consumed < context.multi_trace[c].len() {
                heads.push(c);
            }
            c = c + 1;
        }
        if use_partial_order_reduction {
            let mut i: usize = 0;
            while i < heads.len()
                invariant
                    use_partial_order_reduction,
                    i <= heads@.len(),
                    context.wf(),
                    flags.wf(*context),
                    oracle.wf(*context),
                    n == context.multi_trace@.len(),
                    heads@ == heads_spec,
                    heads_spec == spec_head_canals(*context, *flags, n as int),
                    forall|k: int|
                        0 <= k < heads@.len() ==> (#[trigger] heads@[k] as int) < n,
                    spec_por_winner(*oracle, heads@, 0) == spec_por_winner(
                        *oracle,
                        heads@,
                        i as int,
                    ),
                decreases heads@.len() - i,
            {
                let hc = heads[i];
                if oracle.univocal[hc] {
                    // does this head action dominate every other head action?
                    let mut all_dominated = true;
                    let mut j: usize = 0;
                    while j < heads.len()
                        invariant
                            j <= heads@.len(),
                            oracle.wf(*context),
                            n == context.multi_trace@.len(),
                            (hc as int) < n,
                            forall|k: int|
                                0 <= k < heads@.len() ==> (#[trigger] heads@[k] as int) < n,
                            all_dominated ==> forall|k: int|
                                0 <= k < j && heads@[k] != hc ==> oracle.dominated@[hc as int]@.contains(
                                    #[trigger] heads@[k],
                                ),
                            !all_dominated ==> !spec_dominates_all(*oracle, heads@, hc),
                        decreases heads@.len() - j,
                    {
                        if all_dominated && heads[j] != hc {
                            if !crate::sets::contains_usize(&oracle.dominated[hc], heads[j]) {
                                all_dominated = false;
                            }
                        }
                        j = j + 1;
                    }
                    if all_dominated {
                        // a dominant univocal head action: reduce to its own
                        // successors and stop
                        assert(spec_dominates_all(*oracle, heads@, hc));
                        assert(spec_por_winner(*oracle, heads@, i as int) == Some(hc));
                        return full_consume_steps(context, &oracle.head_frontier[hc]);
                    }
                }
                proof {
                    assert(spec_por_winner(*oracle, heads@, i as int) == spec_por_winner(
                        *oracle,
                        heads@,
                        i + 1 as int,
                    ));
                }
                i = i + 1;
            }
            assert(spec_por_winner(*oracle, heads@, heads@.len() as int) is None);
        }
        // exhaustive fallback: scan the canal heads for an exact multi-action
        // match, at most one step per frontier element
        let mut steps: Vec<AnalysisStepKind> = Vec::new();
        proof {
            assert(frontier@.subrange(0, frontier@.len() as int) =~= frontier@);
            assert(step_models(steps@) + spec_exhaustive_steps(
                *context,
                *flags,
                heads@,
                frontier@,
            ) =~= spec_exhaustive_steps(*context, *flags, heads@, frontier@));
        }
        let mut i: usize = 0;
        while i < frontier.len()
            invariant
                i <= frontier@.len(),
                context.wf(),
                flags.wf(*context),
                n == context.multi_trace@.len(),
                heads@ == heads_spec,
                heads_spec == spec_head_canals(*context, *flags, n as int),
                forall|k: int|
                    0 <= k < heads@.len() ==> (#[trigger] heads@[k] as int) < n && spec_has_head(
                        *context,
                        *flags,
                        heads@[k] as int,
                    ),
                forall|k: int| 0 <= k < frontier@.len() ==> (#[trigger] frontier@[k]).wf(*context),
                step_models(steps@) + spec_exhaustive_steps(
                    *context,
                    *flags,
                    heads@,
                    frontier@.subrange(i as int, frontier@.len() as int),
                ) == spec_exhaustive_steps(*context, *flags, heads@, frontier@),
            decreases frontier@.len() - i,
        {
            let ghost suffix = frontier@.subrange(i as int, frontier@.len() as int);
            proof {
                assert(suffix[0] == frontier@[i as int]);
                assert(suffix.drop_first() =~= frontier@.subrange(
                    i + 1 as int,
                    frontier@.len() as int,
                ));
            }
            let elt = &frontier[i];
            let mut j: usize = 0;
            let mut found = false;
            while j < heads.len()
                invariant_except_break
                    !found,
                    forall|k: int|
                        0 <= k < j ==> spec_head(*context, *flags, #[trigger] heads@[k] as int).to_set()
                            != elt.target_actions@.to_set(),
                invariant
                    j <= heads@.len(),
                    context.wf(),
                    flags.wf(*context),
                    n == context.multi_trace@.len(),
                    elt == frontier@[i as int],
                    0 <= i < frontier@.len(),
                    forall|k: int|
                        0 <= k < heads@.len() ==> (#[trigger] heads@[k] as int) < n
                            && spec_has_head(*context, *flags, heads@[k] as int),
                ensures
                    found ==> exists|k: int|
                        0 <= k < heads@.len() && spec_head(
                            *context,
                            *flags,
                            #[trigger] heads@[k] as int,
                        ).to_set() == elt.target_actions@.to_set(),
                    !found ==> forall|k: int|
                        0 <= k < heads@.len() ==> spec_head(
                            *context,
                            *flags,
                            #[trigger] heads@[k] as int,
                        ).to_set() != elt.target_actions@.to_set(),
                decreases heads@.len() - j,
            {
                let hc = heads[j];
                let consumed = flags.canals[hc].consumed;
                if crate::sets::same_action_set(&context.multi_trace[hc][consumed], &elt.target_actions) {
                    found = true;
                    break;
                }
                j = j + 1;
            }
            if found {
                let consu = context.co_localizations.get_coloc_ids_from_lf_ids(&elt.target_lf_ids);
                let step = AnalysisStepKind::Execute(elt.duplicate(), consu, Vec::new());
                proof {
                    assert(step.model().simulate =~= Map::<usize, SimulationStepKind>::empty());
                    assert(step.model() == spec_full_consume_step(*context, frontier@[i as int]));
                }
                let ghost before = steps@;
                steps.push(step);
                proof {
                    assert(step_models(steps@) =~= step_models(before).push(step.model()));
                    assert(step_models(before).push(step.model()) =~= step_models(before) + seq![
                        step.model(),
                    ]);
                    assert(step_models(steps@) + spec_exhaustive_steps(
                        *context,
                        *flags,
                        heads@,
                        suffix.drop_first(),
                    ) =~= step_models(before) + spec_exhaustive_steps(
                        *context,
                        *flags,
                        heads@,
                        suffix,
                    ));
                }
            } else {
                proof {
                    assert(spec_exhaustive_step(*context, *flags, heads@, frontier@[i as int])
                        is None);
                }
            }
            i = i + 1;
        }
        proof {
            assert(frontier@.subrange(frontier@.len() as int, frontier@.len() as int) =~= Seq::<
                FrontierElement,
            >::empty());
            assert(step_models(steps@) + Seq::<StepModel>::empty() =~= step_models(steps@));
        }
        steps
    }
}

} // verus!
