use vstd::prelude::*;

verus! {

/// A construct of the interaction language that the random generator of test
/// specifications can draw.
#[derive(Clone, Copy, PartialEq, Eq, PartialOrd, Ord, Structural, Hash, Debug)]
pub enum InteractionGenerationSymbol {
    Empty,
    Action,
    Strict,
    Sequencing,
    Coreg,
    Par,
    LoopS,
    LoopW,
    LoopP,
    Alt,
    Basic,
    Transmission,
    Broadcast,
}

/// Why a table of symbol probabilities is rejected.
#[derive(Clone, Copy, PartialEq, Eq, PartialOrd, Ord, Structural, Hash, Debug)]
pub enum InteractionSymbolsProbabilitiesError {
    SymbolProbabilityMustBeBetweenOAnd1,
    SumOfProbabilitiesMustBe1,
}

} // verus!
