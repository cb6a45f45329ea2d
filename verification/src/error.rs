use vstd::prelude::*;

verus! {

/// Terminal failures of a single analyze run.  Each analyze invocation either
/// returns a complete, valid curve or one of these errors; there is no
/// partial output.
#[derive(Clone, Copy, Debug, PartialEq, Eq, Structural)]
pub enum AnalyzeError {
    /// The grid locator could not find enough grid structure in the scan.
    GridNotFound,
    /// The sample set handed to the normalizer holds no samples.
    EmptySampleSet,
    /// Sample maximum equals sample minimum: no range to normalize over.
    DegenerateRange,
    /// The inversion search found no usable bound for a target tone.
    ToneOutOfRange,
}

} // verus!
