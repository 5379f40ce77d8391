use vstd::prelude::*;
use crate::model::{CommonLead, Convention, LeadSource};
use crate::text::string_views;

verus! {

/// Lead source assumed for a point that names none.
pub open spec fn default_lead_source(convention: Convention) -> LeadSource {
    match convention {
        Convention::Wetherill => LeadSource::NoSource,
        Convention::TeraWasserburg => LeadSource::UncorrectedCommonLead,
    }
}

/// Provenance given to a point that carries no common-lead record: a Wetherill
/// input records no correction source, a Tera-Wasserburg input keeps its
/// uncorrected common lead.
pub fn default_common_lead(convention: Convention) -> (lead: CommonLead)
    ensures
        lead.source == default_lead_source(convention),
        lead.reference@ == "fixture-or-input"@,
        lead.pb207_pb206_bits is None,
{
    let source = match convention {
        Convention::Wetherill => LeadSource::NoSource,
        Convention::TeraWasserburg => LeadSource::UncorrectedCommonLead,
    };
    CommonLead { source, reference: String::from_str("fixture-or-input"), pb207_pb206_bits: None }
}

/// Provenance shown for a point: its own record, or the default for its convention.
pub fn resolve_common_lead(given: Option<CommonLead>, convention: Convention) -> (lead: CommonLead)
    ensures
        given is Some ==> lead == given->0,
        given is None ==> lead.source == default_lead_source(convention) && lead.reference@
            == "fixture-or-input"@ && lead.pb207_pb206_bits is None,
{
    match given {
        Some(lead) => lead,
        None => default_common_lead(convention),
    }
}

/// Label shown for a point: its own label, or its identifier.
pub fn point_label(id: &String, label: Option<String>) -> (shown: String)
    ensures
        shown@ == (match label {
            Some(l) => l@,
            None => id@,
        }),
{
    match label {
        Some(l) => l,
        None => id.clone(),
    }
}

pub open spec fn round_trip_error() -> Seq<char> {
    "坐标或协方差无法在两套口径之间回转"@
}

pub open spec fn return_conversion_error() -> Seq<char> {
    "Wetherill 回转 Tera-Wasserburg 后协方差非正定"@
}

pub open spec fn forward_conversion_error() -> Seq<char> {
    "Tera-Wasserburg 转 Wetherill 失败，停止生成椭圆"@
}

pub open spec fn non_finite_error() -> Seq<char> {
    "点坐标必须为有限值"@
}

/// Errors recorded for a point, in order: the covariance error, then the
/// conversion error of its convention, then the finiteness error.
///
/// `first_conversion_ok` says whether the conversion out of the point's own
/// convention (Wetherill to Tera-Wasserburg, or Tera-Wasserburg to Wetherill)
/// succeeded on its covariance; `return_conversion_ok` says, for a
/// Tera-Wasserburg point, whether converting the Wetherill result back succeeded.
pub open spec fn point_errors_spec(
    convention: Convention,
    covariance_error: Option<Seq<char>>,
    first_conversion_ok: bool,
    return_conversion_ok: bool,
    coordinates_finite: bool,
) -> Seq<Seq<char>> {
    let covariance_part = match covariance_error {
        Some(e) => seq![e],
        None => Seq::empty(),
    };
    let converted = covariance_error is None && first_conversion_ok;
    let conversion_part = match convention {
        Convention::Wetherill => if converted {
            Seq::empty()
        } else {
            seq![round_trip_error()]
        },
        Convention::TeraWasserburg => if !converted {
            seq![forward_conversion_error()]
        } else if !return_conversion_ok {
            seq![return_conversion_error()]
        } else {
            Seq::empty()
        },
    };
    let finite_part = if coordinates_finite {
        Seq::empty()
    } else {
        seq![non_finite_error()]
    };
    covariance_part + conversion_part + finite_part
}

/// Validation outcome of a point. A point is valid exactly when no error was
/// recorded; only valid points are included in fits and get an error ellipse.
pub struct PointStatus {
    pub errors: Vec<String>,
    pub valid: bool,
}

/// Decides the errors and validity of a measured point from the outcome of its
/// covariance check and coordinate conversions.
pub fn point_status(
    convention: Convention,
    covariance_error: Option<String>,
    first_conversion_ok: bool,
    return_conversion_ok: bool,
    coordinates_finite: bool,
) -> (status: PointStatus)
    ensures
        string_views(status.errors@) == point_errors_spec(
            convention,
            match covariance_error {
                Some(e) => Some(e@),
                None => None,
            },
            first_conversion_ok,
            return_conversion_ok,
            coordinates_finite,
        ),
        status.valid <==> status.errors@.len() == 0,
        status.valid <==> (covariance_error is None && first_conversion_ok && (convention
            == Convention::TeraWasserburg ==> return_conversion_ok) && coordinates_finite),
        covariance_error is Some ==> status.errors@.len() >= 1 && status.errors@[0]
            == covariance_error->0,
        !status.valid ==> status.errors@.len() >= 1,
{
    let ghost cov_view: Option<Seq<char>> = match &covariance_error {
        Some(e) => Some(e@),
        None => None,
    };
    let mut errors: Vec<String> = Vec::new();
    let covariance_ok = covariance_error.is_none();
    match covariance_error {
        Some(e) => errors.push(e),
        None => {},
    }
    let converted = covariance_ok && first_conversion_ok;
    match convention {
        Convention::Wetherill => {
            if !converted {
                errors.push(String::from_str("坐标或协方差无法在两套口径之间回转"));
            }
        },
        Convention::TeraWasserburg => {
            if !converted {
                errors.push(String::from_str("Tera-Wasserburg 转 Wetherill 失败，停止生成椭圆"));
            } else if !return_conversion_ok {
                errors.push(String::from_str("Wetherill 回转 Tera-Wasserburg 后协方差非正定"));
            }
        },
    }
    if !coordinates_finite {
        errors.push(String::from_str("点坐标必须为有限值"));
    }
    assert(string_views(errors@) =~= point_errors_spec(
        convention,
        cov_view,
        first_conversion_ok,
        return_conversion_ok,
        coordinates_finite,
    ));
    let valid = errors.len() == 0;
    PointStatus { errors, valid }
}

} // verus!
