use vstd::prelude::*;

verus! {

/// The error taxonomy of the pipeline.
///
/// Configuration errors arise while analyzer definitions are decoded,
/// constructed and registered at startup; analyzer errors arise while a
/// result document is dispatched. Every variant is tied by the contracts of
/// this crate to exactly the inputs that produce it.
#[derive(Clone, Copy, Debug, PartialEq, Eq, Structural)]
pub enum TipupError {
    /// An analyzer definition record has no `name` field holding text.
    AnalyzerNameField,
    /// An analyzer definition record has no `class` field holding text.
    AnalyzerClassField,
    /// An analyzer definition record has no `measurement` field holding text.
    AnalyzerMeasurementField,
    /// An analyzer definition record has no `parameters` field holding a list.
    AnalyzerParametersField,
    /// A result record has no `hostname` field holding text.
    ResultHostnameField,
    /// A result record has no `measurement` field holding text.
    ResultMeasurementField,
    /// A result record has no `timestamp` field holding an integer.
    ResultTimestampField,
    /// The `class` of an analyzer definition names no known analyzer kind.
    UnknownAnalyzerClass,
    /// The parameter list handed to an analyzer constructor is malformed.
    MalformedParameters,
    /// The same `(name, measurement)` pair was registered twice.
    DuplicateRegistration,
    /// A registration was attempted under an empty measurement name.
    EmptyMeasurement,
    /// The payload field an analyzer watches is absent from a document.
    MissingPayloadField,
    /// The payload field an analyzer watches does not hold an integer.
    NonIntegerPayloadField,
}

/// Two outcomes that agree case by case are equal. Stating whole-value
/// equality of outcomes in contracts sometimes needs this nudge.
pub(crate) proof fn lemma_outcome_eq(a: Result<(), TipupError>, b: Result<(), TipupError>)
    requires
        match (a, b) {
            (Ok(_), Ok(_)) => true,
            (Err(x), Err(y)) => x == y,
            _ => false,
        },
    ensures
        a == b,
{
    match (a, b) {
        (Ok(x), Ok(y)) => {
            assert(a == Ok::<(), TipupError>(x));
            assert(b == Ok::<(), TipupError>(y));
        },
        (Err(x), Err(y)) => {
            assert(a == Err::<(), TipupError>(x));
            assert(b == Err::<(), TipupError>(y));
        },
        _ => {
        },
    }
}

} // verus!
