use vstd::prelude::*;

verus! {

/// Version tag of the fixed age-equation constants written into every run fingerprint.
pub const EQUATION_VERSION: &'static str = "upb-wetherill-tw-constants-v1";

/// Coordinate convention in which a measured point is reported.
#[derive(Debug, Clone, Copy, PartialEq, Eq, Structural)]
pub enum Convention {
    /// `x = 207Pb/235U`, `y = 206Pb/238U`.
    Wetherill,
    /// `x = 238U/206Pb`, `y = 207Pb/206Pb`.
    TeraWasserburg,
}

/// Source of the common-lead correction applied to a point.
#[derive(Debug, Clone, Copy, PartialEq, Eq, Structural)]
pub enum LeadSource {
    /// No common-lead correction recorded.
    NoSource,
    Measured204,
    StaceyKramers1975,
    ProceduralBlank,
    ModelCommonLead,
    UncorrectedCommonLead,
}

/// Common-lead provenance of a point. The optional 207Pb/206Pb ratio is carried
/// unchanged as the bit pattern of its IEEE-754 double value.
#[derive(Debug)]
pub struct CommonLead {
    pub source: LeadSource,
    pub reference: String,
    pub pb207_pb206_bits: Option<u64>,
}

} // verus!
