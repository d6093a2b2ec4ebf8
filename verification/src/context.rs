use vstd::prelude::*;

use crate::trace::{Trace, TraceAction};

verus! {

broadcast use vstd::seq_lib::group_seq_properties;

/// The fixed mapping from component (lifeline) identifiers to canal lane
/// indices: component `lf` is observed on canal `lf_to_coloc[lf]`.
#[derive(Clone, Debug)]
pub struct CoLocalizations {
    pub lf_to_coloc: Vec<usize>,
}

impl CoLocalizations {
    /// Number of component identifiers the mapping covers.
    pub open spec fn num_lfs(self) -> nat {
        self.lf_to_coloc@.len()
    }

    /// The canal of component `lf`, as a spec-level value.
    pub open spec fn spec_coloc_of(self, lf: usize) -> usize {
        self.lf_to_coloc@[lf as int]
    }

    /// The set of canals implied by a set of component identifiers.
    pub open spec fn coloc_set_of_lfs(self, lfs: Set<usize>) -> Set<usize> {
        Set::new(
            |c: usize|
                exists|lf: usize|
                    lfs.contains(lf) && (lf as int) < self.lf_to_coloc@.len()
                        && self.spec_coloc_of(lf) == c,
        )
    }

    /// The canal that observes component `lf_id`, or nothing when the
    /// identifier is not covered by the mapping.
    pub fn get_lf_coloc_id(&self, lf_id: usize) -> (r: Option<usize>)
        ensures
            r == if (lf_id as int) < self.lf_to_coloc@.len() {
                Some(self.spec_coloc_of(lf_id))
            } else {
                Option::<usize>::None
            },
    {
        if lf_id < self.lf_to_coloc.len() {
            Some(self.lf_to_coloc[lf_id])
        } else {
            None
        }
    }

    /// The canals implied by the given components, each canal listed once.
    pub fn get_coloc_ids_from_lf_ids(&self, lf_ids: &Vec<usize>) -> (r: Vec<usize>)
        requires
            forall|i: int|
                0 <= i < lf_ids@.len() ==> (#[trigger] lf_ids@[i] as int) < self.lf_to_coloc@.len(),
        ensures
            r@.to_set() == self.coloc_set_of_lfs(lf_ids@.to_set()),
            r@.no_duplicates(),
    {
        let mut r: Vec<usize> = Vec::new();
        let mut i: usize = 0;
        while i < lf_ids.len()
            invariant
                i <= lf_ids@.len(),
                forall|k: int|
                    0 <= k < lf_ids@.len() ==> (#[trigger] lf_ids@[k] as int)
                        < self.lf_to_coloc@.len(),
                forall|k: int|
                    0 <= k < r@.len() ==> exists|j: int|
                        0 <= j < i && self.spec_coloc_of(lf_ids@[j]) == #[trigger] r@[k],
                forall|j: int|
                    0 <= j < i ==> r@.contains(#[trigger] self.spec_coloc_of(lf_ids@[j])),
                r@.no_duplicates(),
            decreases lf_ids@.len() - i,
        {
            let c = self.lf_to_coloc[lf_ids[i]];
            if !crate::sets::contains_usize(&r, c) {
                r.push(c);
            }
            i = i + 1;
        }
        proof {
            assert forall|c: usize| r@.to_set().contains(c) implies self.coloc_set_of_lfs(
                lf_ids@.to_set(),
            ).contains(c) by {
                let k = choose|k: int| 0 <= k < r@.len() && r@[k] == c;
                let j = choose|j: int|
                    0 <= j < lf_ids@.len() && self.spec_coloc_of(lf_ids@[j]) == r@[k];
                assert(lf_ids@.contains(lf_ids@[j]));
                assert(lf_ids@.to_set().contains(lf_ids@[j]));
            }
            assert forall|c: usize|
                self.coloc_set_of_lfs(lf_ids@.to_set()).contains(c) implies r@.to_set().contains(
                c,
            ) by {
                let lf = choose|lf: usize|
                    lf_ids@.to_set().contains(lf) && (lf as int) < self.lf_to_coloc@.len()
                        && self.spec_coloc_of(lf) == c;
                let j = choose|j: int| 0 <= j < lf_ids@.len() && lf_ids@[j] == lf;
                assert(r@.contains(self.spec_coloc_of(lf_ids@[j])));
            }
            assert(r@.to_set() =~= self.coloc_set_of_lfs(lf_ids@.to_set()));
        }
        r
    }
}

/// The read-only inputs of an analysis run: the co-localization index and the
/// observed multi-trace, one canal of ordered multi-actions per lane.
#[derive(Clone, Debug)]
pub struct AnalysisContext {
    pub co_localizations: CoLocalizations,
    pub multi_trace: Vec<Trace>,
}

impl AnalysisContext {
    pub open spec fn num_canals(self) -> nat {
        self.multi_trace@.len()
    }

    /// The multi-action logged on canal `c` at position `k`.
    pub open spec fn spec_multi_action(self, c: int, k: int) -> Seq<TraceAction> {
        self.multi_trace@[c]@[k]@
    }

    /// Well-formedness: every component maps to an existing canal, every
    /// logged action sits on the canal of its own component, and each logged
    /// multi-action is a set (no repeated action).
    pub open spec fn wf(self) -> bool {
        &&& forall|lf: int|
            0 <= lf < self.co_localizations.lf_to_coloc@.len() ==> (
            #[trigger] self.co_localizations.lf_to_coloc@[lf] as int) < self.multi_trace@.len()
        &&& forall|c: int, k: int, j: int|
            0 <= c < self.multi_trace@.len() && 0 <= k < self.multi_trace@[c]@.len() && 0 <= j
                < self.multi_trace@[c]@[k]@.len() ==> {
                let a = #[trigger] self.multi_trace@[c]@[k]@[j];
                &&& (a.lf_id as int) < self.co_localizations.lf_to_coloc@.len()
                &&& self.co_localizations.lf_to_coloc@[a.lf_id as int] == c
            }
        &&& forall|c: int, k: int|
            0 <= c < self.multi_trace@.len() && 0 <= k < self.multi_trace@[c]@.len()
                ==> (#[trigger] self.multi_trace@[c]@[k]@).no_duplicates()
    }
}

} // verus!
