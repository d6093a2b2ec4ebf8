//! Conformance-analysis engine for multi-component execution logs.
//!
//! A behavioural specification permits, at every point, a set of candidate
//! next multi-actions (its *frontier*).  An observed log is split into
//! *canals*, one ordered lane of multi-actions per group of co-located
//! components.  This crate decides which analysis steps are sound from a
//! given consumption state: exact matches of frontier elements against the
//! log, bounded *simulation* of missing prefixes or suffixes, and a partial
//! order reduction that commits to a dominant univocal head action.
//!
//! The frontier of a specification term, and the univocality and domination
//! verdicts used by the reduction, are computed by the term semantics outside
//! this crate; the engine consumes them as plain values.

pub mod context;
pub mod decimal;
pub mod explore;
pub mod filter;
pub mod flags;
pub mod frontier;
pub mod laws;
pub mod matches;
pub mod param;
pub mod por;
pub mod random_gen;
pub mod sets;
pub mod step;
pub mod trace;
