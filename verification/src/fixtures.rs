use vstd::prelude::*;
use crate::model::{CommonLead, LeadSource};

verus! {

/// Common-lead record of a fixture point: the given source and reference, no ratio.
pub fn common_lead(source: LeadSource, reference: &str) -> (lead: CommonLead)
    ensures
        lead.source == source,
        lead.reference@ == reference@,
        lead.pb207_pb206_bits is None,
{
    CommonLead { source, pb207_pb206_bits: None, reference: String::from_str(reference) }
}

} // verus!
