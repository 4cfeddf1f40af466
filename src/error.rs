use vstd::prelude::*;

verus! {

/// Why no aggregate could be computed.
#[derive(Clone, Copy, Debug, PartialEq, Eq, Structural)]
pub enum AggregationError {
    /// No snapshot holds a reading of the requested process.
    EmptyMatchSet,
    /// A figure does not fit the number types: a product or a scale out of
    /// range, or timestamps that run backwards.
    InvalidMeasurement,
}

} // verus!
