use concordia_crossing::analysis::{comparison_index, leave_one_out, plan_branch, tangent_warning};
use concordia_crossing::fixtures::common_lead;
use concordia_crossing::geometry::{default_common_lead, point_label, point_status, resolve_common_lead};
use concordia_crossing::intersection::{count_kind, intersection_diagnostic, IntersectionKind};
use concordia_crossing::model::{Convention, LeadSource};
use concordia_crossing::solve::{ordinary_root_label, plan_roots, RootPlan, TANGENT_KIND};

fn strings(items: &[&str]) -> Vec<String> {
    items.iter().map(|s| s.to_string()).collect()
}

#[test]
fn plan_includes_valid_points_in_order() {
    let plan = plan_branch(
        &strings(&["N-01", "N-02", "N-03", "N-04"]),
        &vec![true, true, true, true],
        &vec![],
    );
    assert_eq!(plan.included, vec![0, 1, 2, 3]);
    assert!(plan.warnings.is_empty());
}

#[test]
fn plan_warns_for_invalid_points_and_too_few_points() {
    let plan = plan_branch(&strings(&["BAD-RHO"]), &vec![false], &vec![]);
    assert!(plan.included.is_empty());
    assert_eq!(
        plan.warnings,
        strings(&[
            "点 BAD-RHO 未通过校验，不参与回归且不生成椭圆",
            "有效点不足两个，无法拟合 Wetherill 不一致线"
        ])
    );
}

#[test]
fn plan_skips_excluded_points_silently() {
    let plan = plan_branch(
        &strings(&["T-01", "T-02", "T-03", "X"]),
        &vec![true, true, true, false],
        &strings(&["T-01", "X"]),
    );
    assert_eq!(plan.included, vec![1, 2]);
    assert!(plan.warnings.is_empty());
}

#[test]
fn leave_one_out_appends_the_point() {
    assert_eq!(leave_one_out(&strings(&["a"]), &"b".to_string()), strings(&["a", "b"]));
    assert_eq!(leave_one_out(&vec![], &"b".to_string()), strings(&["b"]));
}

#[test]
fn tangent_warning_only_for_single_tangent_solution() {
    assert_eq!(
        tangent_warning(&strings(&[TANGENT_KIND])),
        Some("检测到协和曲线切触点：报告一个双重、不稳定解，不拆成上下两个交点".to_string())
    );
    assert_eq!(tangent_warning(&strings(&["lower_intersection", "upper_intersection"])), None);
    assert_eq!(tangent_warning(&vec![]), None);
}

#[test]
fn comparison_reads_tangent_or_matching_kind() {
    let tangent = strings(&["tangent_double_root"]);
    assert_eq!(comparison_index(&tangent, "upper_intersection", "tangent_double_root"), Some(0));
    let pair = strings(&["lower_intersection", "upper_intersection"]);
    assert_eq!(comparison_index(&pair, "upper_intersection", "tangent_double_root"), Some(1));
    assert_eq!(comparison_index(&pair, "lower_intersection", "tangent_double_root"), Some(0));
    let one = strings(&["lower_intersection"]);
    assert_eq!(comparison_index(&one, "upper_intersection", "tangent_double_root"), None);
}

#[test]
fn root_plan_reports_touching_line_once() {
    assert_eq!(plan_roots(Some(4), 2, true, Some(4)), RootPlan::Tangent(4));
    assert_eq!(plan_roots(None, 2, true, Some(7)), RootPlan::Tangent(7));
    assert_eq!(plan_roots(None, 2, false, Some(7)), RootPlan::Ordinary);
    assert_eq!(plan_roots(None, 3, true, Some(7)), RootPlan::Ordinary);
    assert_eq!(plan_roots(None, 2, true, None), RootPlan::Ordinary);
}

#[test]
fn ordinary_roots_are_labelled_lower_then_upper() {
    let (label, kind) = ordinary_root_label(0);
    assert_eq!((label.as_str(), kind.as_str()), ("下交点年龄", "lower_intersection"));
    let (label, kind) = ordinary_root_label(1);
    assert_eq!((label.as_str(), kind.as_str()), ("上交点年龄", "upper_intersection"));
}

#[test]
fn diagnostic_sentences() {
    let stable = IntersectionKind::Stable;
    let tangent = IntersectionKind::TangentUnstable;
    assert_eq!(intersection_diagnostic(&vec![stable, stable]), "检测到上下两个稳定交点。");
    assert_eq!(
        intersection_diagnostic(&vec![tangent]),
        "检测到 1 个退化切点；切点只作为单重不稳定解，不拆成两个人造交点。另有 0 个稳定交点。"
    );
    assert_eq!(
        intersection_diagnostic(&vec![stable]),
        "仅检测到 1 个稳定交点；请检查年龄范围或数据是否在直线模型内。"
    );
    assert_eq!(
        intersection_diagnostic(&vec![stable; 12]),
        "检测到 12 个数值交点；该口径下结果超过标准上下交点模型。"
    );
    assert_eq!(count_kind(&vec![stable, tangent, stable], stable), 2);
}

#[test]
fn default_common_lead_depends_on_convention() {
    let w = default_common_lead(Convention::Wetherill);
    assert_eq!(w.source, LeadSource::NoSource);
    assert_eq!(w.reference, "fixture-or-input");
    assert_eq!(w.pb207_pb206_bits, None);
    let tw = default_common_lead(Convention::TeraWasserburg);
    assert_eq!(tw.source, LeadSource::UncorrectedCommonLead);
}

#[test]
fn given_common_lead_is_kept() {
    let given = common_lead(LeadSource::Measured204, "204Pb measured");
    let lead = resolve_common_lead(Some(given), Convention::TeraWasserburg);
    assert_eq!(lead.source, LeadSource::Measured204);
    assert_eq!(lead.reference, "204Pb measured");
    let fallback = resolve_common_lead(None, Convention::TeraWasserburg);
    assert_eq!(fallback.source, LeadSource::UncorrectedCommonLead);
}

#[test]
fn label_falls_back_to_id() {
    assert_eq!(point_label(&"N-01".to_string(), None), "N-01");
    assert_eq!(point_label(&"N-01".to_string(), Some("正常椭圆 A".to_string())), "正常椭圆 A");
}

#[test]
fn out_of_range_correlation_blocks_the_point() {
    let status = point_status(
        Convention::TeraWasserburg,
        Some("相关系数 1.0001 不在闭区间 [-1, 1]".to_string()),
        false,
        false,
        true,
    );
    assert!(!status.valid);
    assert!(status.errors[0].contains("闭区间"));
    assert_eq!(status.errors[1], "Tera-Wasserburg 转 Wetherill 失败，停止生成椭圆");
    assert_eq!(status.errors.len(), 2);
}

#[test]
fn singular_wetherill_covariance_reports_round_trip_failure() {
    let status = point_status(
        Convention::Wetherill,
        Some("输入协方差非正定矩阵".to_string()),
        true,
        true,
        true,
    );
    assert!(!status.valid);
    assert!(status.errors.iter().any(|error| error.contains("非正定")));
    assert_eq!(status.errors[1], "坐标或协方差无法在两套口径之间回转");
}

#[test]
fn return_conversion_and_finiteness_errors() {
    let status = point_status(Convention::TeraWasserburg, None, true, false, false);
    assert_eq!(
        status.errors,
        strings(&["Wetherill 回转 Tera-Wasserburg 后协方差非正定", "点坐标必须为有限值"])
    );
    let ok = point_status(Convention::Wetherill, None, true, false, true);
    assert!(ok.valid);
    assert!(ok.errors.is_empty());
}

#[test]
fn leave_one_out_branch_drops_only_that_point() {
    let ids = strings(&["T-01", "T-02", "T-03"]);
    let valid = vec![true, true, true];
    let parent = plan_branch(&ids, &valid, &vec![]);
    let child = plan_branch(&ids, &valid, &leave_one_out(&vec![], &"T-01".to_string()));
    assert_eq!(parent.included, vec![0, 1, 2]);
    assert_eq!(child.included, vec![1, 2]);
    let grandchild = plan_branch(&ids, &valid, &leave_one_out(&strings(&["T-01"]), &"T-03".to_string()));
    assert_eq!(grandchild.included, vec![1]);
    assert_eq!(grandchild.warnings, strings(&["有效点不足两个，无法拟合 Wetherill 不一致线"]));
}
