use vstd::prelude::*;

verus! {

/// Kind of the single solution reported when the line touches the concordia.
pub const TANGENT_KIND: &'static str = "tangent_double_root";

/// Kind of the younger of two ordinary intersections.
pub const LOWER_KIND: &'static str = "lower_intersection";

/// Kind of the older of two ordinary intersections.
pub const UPPER_KIND: &'static str = "upper_intersection";

/// Label of the single tangent solution.
pub const TANGENT_LABEL: &'static str = "切触点（单重不稳定解）";

/// Multiplicity of the tangent solution: the lower and upper crossings merge.
pub const TANGENT_MULTIPLICITY: usize = 2;

/// Label and kind of the `index`-th ordinary intersection, youngest first.
pub fn ordinary_root_label(index: usize) -> (named: (String, String))
    ensures
        index == 0 ==> named.0@ == "下交点年龄"@ && named.1@ == LOWER_KIND@,
        index != 0 ==> named.0@ == "上交点年龄"@ && named.1@ == UPPER_KIND@,
{
    if index == 0 {
        (String::from_str("下交点年龄"), String::from_str(LOWER_KIND))
    } else {
        (String::from_str("上交点年龄"), String::from_str(UPPER_KIND))
    }
}

/// How the crossings of a fitted line with the concordia are reported.
#[derive(Debug, Clone, Copy, PartialEq, Eq, Structural)]
pub enum RootPlan {
    /// One tangent double root, located at the given stationary point.
    Tangent(usize),
    /// The sign-change roots, each as an ordinary intersection.
    Ordinary,
}

/// Chooses between a tangent report and ordinary roots.
///
/// `exact_tangent` is the first stationary point of the residual whose value is
/// within the tangent tolerance; `near_tangent` the first within the wider
/// near-tangent tolerance; `root_count` the number of sign-change roots and
/// `close_pair` whether two such roots lie closer than the tangent age gap.
/// A touching line is reported once, never as two nearby crossings.
pub fn plan_roots(
    exact_tangent: Option<usize>,
    root_count: usize,
    close_pair: bool,
    near_tangent: Option<usize>,
) -> (plan: RootPlan)
    ensures
        exact_tangent is Some ==> plan == RootPlan::Tangent(exact_tangent->0),
        exact_tangent is None && root_count == 2 && close_pair && near_tangent is Some ==> plan
            == RootPlan::Tangent(near_tangent->0),
        exact_tangent is None && !(root_count == 2 && close_pair && near_tangent is Some) ==> plan
            == RootPlan::Ordinary,
{
    match exact_tangent {
        Some(k) => RootPlan::Tangent(k),
        None => {
            if root_count == 2 && close_pair {
                match near_tangent {
                    Some(k) => RootPlan::Tangent(k),
                    None => RootPlan::Ordinary,
                }
            } else {
                RootPlan::Ordinary
            }
        },
    }
}

} // verus!
