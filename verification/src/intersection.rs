use vstd::prelude::*;
use crate::text::{decimal, decimal_text};

verus! {

/// Classification of a line–concordia crossing.
#[derive(Debug, Clone, Copy, PartialEq, Eq, Structural)]
pub enum IntersectionKind {
    /// A transversal crossing with a finite age uncertainty.
    Stable,
    /// A tangent point: the time derivative vanishes and no finite 1σ exists.
    TangentUnstable,
    Unresolved,
}

/// Number of crossings of kind `kind` among `kinds`.
pub open spec fn kind_count(kinds: Seq<IntersectionKind>, kind: IntersectionKind) -> nat
    decreases kinds.len(),
{
    if kinds.len() == 0 {
        0
    } else {
        kind_count(kinds.drop_last(), kind) + if kinds.last() == kind {
            1nat
        } else {
            0nat
        }
    }
}

/// Counts the crossings of one kind.
pub fn count_kind(kinds: &Vec<IntersectionKind>, kind: IntersectionKind) -> (count: usize)
    ensures
        count == kind_count(kinds@, kind),
{
    let mut count: usize = 0;
    let mut i: usize = 0;
    while i < kinds.len()
        invariant
            i <= kinds.len(),
            count == kind_count(kinds@.take(i as int), kind),
            count <= i,
        decreases kinds.len() - i,
    {
        assert(kinds@.take(i + 1).drop_last() =~= kinds@.take(i as int));
        if kinds[i] == kind {
            count = count + 1;
        }
        i = i + 1;
    }
    assert(kinds@.take(kinds.len() as int) =~= kinds@);
    count
}

/// Summary sentence for a set of crossings: tangent points are reported as
/// single unstable solutions; otherwise the number of stable crossings is
/// compared with the two of the standard lower/upper model.
pub open spec fn diagnostic_text(kinds: Seq<IntersectionKind>) -> Seq<char> {
    let tangent_count = kind_count(kinds, IntersectionKind::TangentUnstable);
    let stable_count = kind_count(kinds, IntersectionKind::Stable);
    if tangent_count > 0 {
        "检测到 "@ + decimal(tangent_count) + " 个退化切点；切点只作为单重不稳定解，不拆成两个人造交点。另有 "@
            + decimal(stable_count) + " 个稳定交点。"@
    } else if kinds.len() == 2 {
        "检测到上下两个稳定交点。"@
    } else if kinds.len() < 2 {
        "仅检测到 "@ + decimal(stable_count) + " 个稳定交点；请检查年龄范围或数据是否在直线模型内。"@
    } else {
        "检测到 "@ + decimal(stable_count) + " 个数值交点；该口径下结果超过标准上下交点模型。"@
    }
}

/// Builds the summary sentence of a set of crossings (see `diagnostic_text`).
pub fn intersection_diagnostic(kinds: &Vec<IntersectionKind>) -> (text: String)
    ensures
        text@ == diagnostic_text(kinds@),
{
    let tangent_count = count_kind(kinds, IntersectionKind::TangentUnstable);
    let stable_count = count_kind(kinds, IntersectionKind::Stable);
    if tangent_count > 0 {
        let mut text = String::from_str("检测到 ");
        text.append(decimal_text(tangent_count).as_str());
        text.append(" 个退化切点；切点只作为单重不稳定解，不拆成两个人造交点。另有 ");
        text.append(decimal_text(stable_count).as_str());
        text.append(" 个稳定交点。");
        text
    } else if kinds.len() == 2 {
        String::from_str("检测到上下两个稳定交点。")
    } else if kinds.len() < 2 {
        let mut text = String::from_str("仅检测到 ");
        text.append(decimal_text(stable_count).as_str());
        text.append(" 个稳定交点；请检查年龄范围或数据是否在直线模型内。");
        text
    } else {
        let mut text = String::from_str("检测到 ");
        text.append(decimal_text(stable_count).as_str());
        text.append(" 个数值交点；该口径下结果超过标准上下交点模型。");
        text
    }
}

/// `kind_count` counts exactly the crossings of that kind.
pub proof fn lemma_kind_count_is_filter_len(kinds: Seq<IntersectionKind>, kind: IntersectionKind)
    ensures
        kind_count(kinds, kind) == kinds.filter(|k: IntersectionKind| k == kind).len(),
    decreases kinds.len(),
{
    reveal_with_fuel(Seq::<_>::filter, 1);
    if kinds.len() > 0 {
        lemma_kind_count_is_filter_len(kinds.drop_last(), kind);
    }
}

proof fn lemma_no_kind_count_zero(kinds: Seq<IntersectionKind>, kind: IntersectionKind)
    requires
        forall|i: int| 0 <= i < kinds.len() ==> kinds[i] != kind,
    ensures
        kind_count(kinds, kind) == 0,
    decreases kinds.len(),
{
    if kinds.len() > 0 {
        lemma_no_kind_count_zero(kinds.drop_last(), kind);
    }
}

proof fn lemma_some_kind_count_positive(kinds: Seq<IntersectionKind>, kind: IntersectionKind, i: int)
    requires
        0 <= i < kinds.len(),
        kinds[i] == kind,
    ensures
        kind_count(kinds, kind) > 0,
    decreases kinds.len(),
{
    if i < kinds.len() - 1 {
        lemma_some_kind_count_positive(kinds.drop_last(), kind, i);
    }
}

/// The summary sentence by case, with `s` the number of stable crossings and
/// `t` the number of tangent ones: any tangent crossing gives the tangent
/// sentence; otherwise fewer than two crossings (none included) give the
/// "only s stable crossings" sentence, exactly two the lower/upper sentence,
/// and more than two the sentence that the results exceed that model.
pub proof fn lemma_diagnostic_cases(kinds: Seq<IntersectionKind>)
    ensures
        ({
            let s = kinds.filter(|k: IntersectionKind| k == IntersectionKind::Stable).len();
            let t = kinds.filter(|k: IntersectionKind| k == IntersectionKind::TangentUnstable).len();
            let no_tangent = forall|i: int|
                0 <= i < kinds.len() ==> kinds[i] != IntersectionKind::TangentUnstable;
            &&& !no_tangent ==> diagnostic_text(kinds) == "检测到 "@ + decimal(t)
                + " 个退化切点；切点只作为单重不稳定解，不拆成两个人造交点。另有 "@ + decimal(s)
                + " 个稳定交点。"@
            &&& no_tangent && kinds.len() < 2 ==> diagnostic_text(kinds) == "仅检测到 "@ + decimal(
                s,
            ) + " 个稳定交点；请检查年龄范围或数据是否在直线模型内。"@
            &&& no_tangent && kinds.len() == 2 ==> diagnostic_text(kinds) == "检测到上下两个稳定交点。"@
            &&& no_tangent && kinds.len() > 2 ==> diagnostic_text(kinds) == "检测到 "@ + decimal(s)
                + " 个数值交点；该口径下结果超过标准上下交点模型。"@
        }),
{
    lemma_kind_count_is_filter_len(kinds, IntersectionKind::Stable);
    lemma_kind_count_is_filter_len(kinds, IntersectionKind::TangentUnstable);
    if forall|i: int| 0 <= i < kinds.len() ==> kinds[i] != IntersectionKind::TangentUnstable {
        lemma_no_kind_count_zero(kinds, IntersectionKind::TangentUnstable);
    } else {
        let i = choose|i: int|
            0 <= i < kinds.len() && !(kinds[i] != IntersectionKind::TangentUnstable);
        lemma_some_kind_count_positive(kinds, IntersectionKind::TangentUnstable, i);
    }
}

} // verus!
