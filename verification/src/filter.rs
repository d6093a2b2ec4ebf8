use vstd::prelude::*;
use vstd::string::StringExecFns;

use crate::decimal::spec_dec_chars;

verus! {

/// Why the outer search driver eliminated a node.
#[derive(Clone, Copy, PartialEq, Eq, Structural, Debug)]
pub enum FilterEliminationKind {
    MaxLoopInstanciation,
    MaxProcessDepth,
    MaxNodeNumber,
}

/// The measure a filter judges a candidate node by: how many loop
/// instantiations the path to it has accumulated.
#[derive(Clone, Copy, PartialEq, Eq, Structural, Debug)]
pub struct AnalysisFilterCriterion {
    pub loop_depth: u32,
}

/// A stateless bound the outer search driver applies to prune the steps the
/// engine proposes.
#[derive(Clone, Copy, PartialEq, Eq, Structural, Debug)]
pub enum AnalysisFilter {
    MaxLoopInstanciation(u32),
    MaxProcessDepth(u32),
    MaxNodeNumber(u32),
}

impl AnalysisFilter {
    /// The verdict of this filter: the elimination it demands, or nothing.
    pub open spec fn spec_apply_filter(
        self,
        depth: u32,
        node_counter: u32,
        criterion: AnalysisFilterCriterion,
    ) -> Option<FilterEliminationKind> {
        match self {
            AnalysisFilter::MaxProcessDepth(max_depth) => if depth > max_depth {
                Some(FilterEliminationKind::MaxProcessDepth)
            } else {
                Option::None
            },
            AnalysisFilter::MaxLoopInstanciation(loop_num) => if criterion.loop_depth > loop_num {
                Some(FilterEliminationKind::MaxLoopInstanciation)
            } else {
                Option::None
            },
            AnalysisFilter::MaxNodeNumber(max_node_number) => if node_counter >= max_node_number {
                Some(FilterEliminationKind::MaxNodeNumber)
            } else {
                Option::None
            },
        }
    }

    /// Judges a candidate node of the given depth, node count and criterion.
    pub fn apply_filter(
        &self,
        depth: u32,
        node_counter: u32,
        criterion: &AnalysisFilterCriterion,
    ) -> (r: Option<FilterEliminationKind>)
        ensures
            r == self.spec_apply_filter(depth, node_counter, *criterion),
    {
        match self {
            AnalysisFilter::MaxProcessDepth(max_depth) => {
                if depth > *max_depth {
                    return Some(FilterEliminationKind::MaxProcessDepth);
                }
            },
            AnalysisFilter::MaxLoopInstanciation(loop_num) => {
                if criterion.loop_depth > *loop_num {
                    return Some(FilterEliminationKind::MaxLoopInstanciation);
                }
            },
            AnalysisFilter::MaxNodeNumber(max_node_number) => {
                if node_counter >= *max_node_number {
                    return Some(FilterEliminationKind::MaxNodeNumber);
                }
            },
        }
        None
    }

    /// The textual form of this filter: its label and its bound in decimal.
    pub open spec fn spec_label(self) -> Seq<char> {
        match self {
            AnalysisFilter::MaxLoopInstanciation(num) => "MaxLoop="@ + spec_dec_chars(num as nat),
            AnalysisFilter::MaxProcessDepth(num) => "MaxDepth="@ + spec_dec_chars(num as nat),
            AnalysisFilter::MaxNodeNumber(num) => "MaxNum="@ + spec_dec_chars(num as nat),
        }
    }

    /// Renders this filter as text.
    pub fn to_string(&self) -> (r: String)
        ensures
            r@ == self.spec_label(),
    {
        match self {
            AnalysisFilter::MaxLoopInstanciation(num) => {
                let mut s = "MaxLoop=".to_owned();
                s.append(crate::decimal::u32_dec_string(*num).as_str());
                s
            },
            AnalysisFilter::MaxProcessDepth(num) => {
                let mut s = "MaxDepth=".to_owned();
                s.append(crate::decimal::u32_dec_string(*num).as_str());
                s
            },
            AnalysisFilter::MaxNodeNumber(num) => {
                let mut s = "MaxNum=".to_owned();
                s.append(crate::decimal::u32_dec_string(*num).as_str());
                s
            },
        }
    }
}

} // verus!
