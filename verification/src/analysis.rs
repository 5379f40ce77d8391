use vstd::prelude::*;
use crate::json::{canonical_fingerprint, run_fingerprint, JsonValue};
use crate::solve::TANGENT_KIND;
use crate::text::{contains_string, string_views};

verus! {

/// Name of the branch fitted on every valid point.
pub const BASELINE_BRANCH_NAME: &'static str = "全有效点基线";

/// Warning for an invalid point that was not explicitly excluded.
pub open spec fn invalid_point_warning(id: Seq<char>) -> Seq<char> {
    "点 "@ + id + " 未通过校验，不参与回归且不生成椭圆"@
}

/// Warning for a branch left with fewer than two points.
pub open spec fn insufficient_points_warning() -> Seq<char> {
    "有效点不足两个，无法拟合 Wetherill 不一致线"@
}

/// Warning for a branch whose solution is a tangent double root.
pub open spec fn tangent_point_warning() -> Seq<char> {
    "检测到协和曲线切触点：报告一个双重、不稳定解，不拆成上下两个交点"@
}

/// Point `i` takes part in a branch fit: it is valid and not excluded.
pub open spec fn takes_part(ids: Seq<Seq<char>>, valid: Seq<bool>, excluded: Seq<Seq<char>>, i: int) -> bool {
    valid[i] && !excluded.contains(ids[i])
}

/// Warnings for the invalid, non-excluded points among the first `n`, in order.
pub open spec fn skipped_point_warnings(
    ids: Seq<Seq<char>>,
    valid: Seq<bool>,
    excluded: Seq<Seq<char>>,
    n: int,
) -> Seq<Seq<char>>
    decreases n,
{
    if n <= 0 {
        Seq::empty()
    } else {
        skipped_point_warnings(ids, valid, excluded, n - 1) + if !valid[n - 1] && !excluded.contains(
            ids[n - 1],
        ) {
            seq![invalid_point_warning(ids[n - 1])]
        } else {
            Seq::empty()
        }
    }
}

/// The skipped-point warnings among the first `n` points name exactly the
/// invalid, non-excluded points, in input order: the returned indices are
/// increasing, each is such a point, every such point is among them, and the
/// `k`-th warning names the `k`-th of them.
pub proof fn lemma_skipped_point_warnings(
    ids: Seq<Seq<char>>,
    valid: Seq<bool>,
    excluded: Seq<Seq<char>>,
    n: int,
) -> (skipped: Seq<int>)
    requires
        0 <= n <= ids.len(),
        ids.len() == valid.len(),
    ensures
        forall|k1: int, k2: int| 0 <= k1 < k2 < skipped.len() ==> skipped[k1] < skipped[k2],
        forall|k: int|
            0 <= k < skipped.len() ==> 0 <= #[trigger] skipped[k] < n && !valid[skipped[k]]
                && !excluded.contains(ids[skipped[k]]),
        forall|i: int|
            0 <= i < n && !valid[i] && !excluded.contains(ids[i]) ==> skipped.contains(i),
        skipped_point_warnings(ids, valid, excluded, n).len() == skipped.len(),
        forall|k: int|
            0 <= k < skipped.len() ==> #[trigger] skipped_point_warnings(ids, valid, excluded, n)[k]
                == "点 "@ + ids[skipped[k]] + " 未通过校验，不参与回归且不生成椭圆"@,
    decreases n,
{
    if n == 0 {
        Seq::empty()
    } else {
        let prev = lemma_skipped_point_warnings(ids, valid, excluded, n - 1);
        let w_prev = skipped_point_warnings(ids, valid, excluded, n - 1);
        let w = skipped_point_warnings(ids, valid, excluded, n);
        if !valid[n - 1] && !excluded.contains(ids[n - 1]) {
            let skipped = prev.push(n - 1);
            assert(w == w_prev + seq![invalid_point_warning(ids[n - 1])]);
            assert forall|k: int| 0 <= k < skipped.len() implies #[trigger] w[k] == "点 "@
                + ids[skipped[k]] + " 未通过校验，不参与回归且不生成椭圆"@ by {
                if k < prev.len() {
                    assert(w[k] == w_prev[k]);
                    assert(skipped[k] == prev[k]);
                }
            }
            assert forall|i: int|
                0 <= i < n && !valid[i] && !excluded.contains(ids[i]) implies skipped.contains(i) by {
                if i < n - 1 {
                    let k = choose|k: int| 0 <= k < prev.len() && prev[k] == i;
                    assert(skipped[k] == i);
                } else {
                    assert(skipped[prev.len() as int] == i);
                }
            }
            assert forall|k: int| 0 <= k < skipped.len() implies 0 <= #[trigger] skipped[k] < n
                && !valid[skipped[k]] && !excluded.contains(ids[skipped[k]]) by {
                if k < prev.len() {
                    assert(skipped[k] == prev[k]);
                }
            }
            skipped
        } else {
            assert(w =~= w_prev);
            prev
        }
    }
}

/// Which points a branch fits, and the warnings raised before fitting.
pub struct BranchPlan {
    /// Indices of the points that take part, in input order.
    pub included: Vec<usize>,
    pub warnings: Vec<String>,
}

/// Plans a branch: every valid point that is not excluded takes part, in input
/// order; each invalid point that is not excluded gets a warning, and a branch
/// left with fewer than two points gets the insufficient-points warning.
pub fn plan_branch(point_ids: &Vec<String>, valid: &Vec<bool>, excluded: &Vec<String>) -> (plan:
    BranchPlan)
    requires
        point_ids.len() == valid.len(),
    ensures
        forall|k: int|
            0 <= k < plan.included.len() ==> #[trigger] plan.included@[k] < point_ids.len()
                && takes_part(
                string_views(point_ids@),
                valid@,
                string_views(excluded@),
                plan.included@[k] as int,
            ),
        forall|k1: int, k2: int|
            0 <= k1 < k2 < plan.included.len() ==> plan.included@[k1] < plan.included@[k2],
        forall|i: int|
            0 <= i < point_ids.len() && takes_part(
                string_views(point_ids@),
                valid@,
                string_views(excluded@),
                i,
            ) ==> plan.included@.contains(i as usize),
        string_views(plan.warnings@) == skipped_point_warnings(
            string_views(point_ids@),
            valid@,
            string_views(excluded@),
            point_ids.len() as int,
        ) + if plan.included.len() < 2 {
            seq![insufficient_points_warning()]
        } else {
            Seq::empty()
        },
{
    let ghost ids = string_views(point_ids@);
    let ghost ex = string_views(excluded@);
    let mut included: Vec<usize> = Vec::new();
    let mut warnings: Vec<String> = Vec::new();
    let mut i: usize = 0;
    while i < point_ids.len()
        invariant
            i <= point_ids.len(),
            point_ids.len() == valid.len(),
            ids == string_views(point_ids@),
            ex == string_views(excluded@),
            forall|k: int|
                0 <= k < included.len() ==> #[trigger] included@[k] < i && takes_part(
                    ids,
                    valid@,
                    ex,
                    included@[k] as int,
                ),
            forall|k1: int, k2: int| 0 <= k1 < k2 < included.len() ==> included@[k1] < included@[k2],
            forall|j: int| 0 <= j < i && takes_part(ids, valid@, ex, j) ==> included@.contains(j as usize),
            string_views(warnings@) == skipped_point_warnings(ids, valid@, ex, i as int),
        decreases point_ids.len() - i,
    {
        let is_excluded = contains_string(excluded, &point_ids[i]);
        let ghost before = included@;
        if valid[i] && !is_excluded {
            included.push(i);
            assert(included@[included.len() - 1] == i);
        }
        assert forall|j: int| 0 <= j < i + 1 && takes_part(ids, valid@, ex, j) implies included@.contains(
            j as usize,
        ) by {
            if j < i {
                let k = choose|k: int| 0 <= k < before.len() && before[k] == j as usize;
                assert(included@[k] == j as usize);
            } else {
                assert(included@[included.len() - 1] == i);
            }
        }
        if !valid[i] && !is_excluded {
            let mut w = String::from_str("点 ");
            w.append(point_ids[i].as_str());
            w.append(" 未通过校验，不参与回归且不生成椭圆");
            warnings.push(w);
        }
        assert(string_views(warnings@) =~= skipped_point_warnings(ids, valid@, ex, i + 1));
        i = i + 1;
    }
    if included.len() < 2 {
        warnings.push(String::from_str("有效点不足两个，无法拟合 Wetherill 不一致线"));
    }
    assert(string_views(warnings@) =~= skipped_point_warnings(ids, valid@, ex, point_ids.len() as int)
        + if included.len() < 2 {
        seq![insufficient_points_warning()]
    } else {
        Seq::empty()
    });
    BranchPlan { included, warnings }
}

/// Exclusion list of a leave-one-out branch: the current exclusions and `id`.
pub fn leave_one_out(excluded: &Vec<String>, id: &String) -> (list: Vec<String>)
    ensures
        string_views(list@) == string_views(excluded@).push(id@),
{
    let mut list: Vec<String> = Vec::new();
    let mut i: usize = 0;
    while i < excluded.len()
        invariant
            i <= excluded.len(),
            list@.len() == i,
            forall|k: int| 0 <= k < i ==> (#[trigger] list@[k])@ == excluded@[k]@,
        decreases excluded.len() - i,
    {
        list.push(excluded[i].clone());
        i = i + 1;
    }
    list.push(id.clone());
    assert(list@[excluded.len() as int]@ == id@);
    assert(string_views(list@) =~= string_views(excluded@).push(id@));
    list
}

/// A leave-one-out branch differs from its parent only by the left-out point:
/// a point takes part in it exactly when it takes part in the parent and does
/// not carry the left-out identifier.
pub proof fn lemma_leave_one_out_drops_only_that_point(
    ids: Seq<Seq<char>>,
    valid: Seq<bool>,
    excluded: Seq<Seq<char>>,
    id: Seq<char>,
    i: int,
)
    requires
        0 <= i < ids.len(),
        ids.len() == valid.len(),
    ensures
        takes_part(ids, valid, excluded.push(id), i) == (takes_part(ids, valid, excluded, i)
            && ids[i] != id),
{
    if excluded.contains(ids[i]) {
        let k = choose|k: int| 0 <= k < excluded.len() && excluded[k] == ids[i];
        assert(excluded.push(id)[k] == ids[i]);
    }
    if ids[i] == id {
        assert(excluded.push(id)[excluded.len() as int] == ids[i]);
    }
    if excluded.push(id).contains(ids[i]) {
        let k = choose|k: int| 0 <= k < excluded.push(id).len() && excluded.push(id)[k] == ids[i];
        if k < excluded.len() {
            assert(excluded[k] == ids[i]);
        }
    }
}

/// The tangent warning, raised when the only solution is a tangent double root.
pub fn tangent_warning(kinds: &Vec<String>) -> (warning: Option<String>)
    ensures
        warning is Some <==> (kinds.len() == 1 && kinds@[0]@ == TANGENT_KIND@),
        warning is Some ==> warning->0@ == tangent_point_warning(),
{
    let tangent = String::from_str(TANGENT_KIND);
    if kinds.len() == 1 && kinds[0] == tangent {
        Some(String::from_str("检测到协和曲线切触点：报告一个双重、不稳定解，不拆成上下两个交点"))
    } else {
        None
    }
}

/// Which solution an age comparison reads: the single tangent solution when
/// that is all there is, otherwise the first solution of the ordinary kind.
pub fn comparison_index(kinds: &Vec<String>, ordinary_kind: &str, tangent_kind: &str) -> (index:
    Option<usize>)
    ensures
        kinds.len() == 1 && kinds@[0]@ == tangent_kind@ ==> index == Some(0usize),
        !(kinds.len() == 1 && kinds@[0]@ == tangent_kind@) ==> match index {
            Some(i) => i < kinds.len() && kinds@[i as int]@ == ordinary_kind@ && forall|j: int|
                0 <= j < i ==> kinds@[j]@ != ordinary_kind@,
            None => forall|j: int| 0 <= j < kinds.len() ==> kinds@[j]@ != ordinary_kind@,
        },
{
    let tangent = String::from_str(tangent_kind);
    if kinds.len() == 1 && kinds[0] == tangent {
        return Some(0);
    }
    let ordinary = String::from_str(ordinary_kind);
    let mut i: usize = 0;
    while i < kinds.len()
        invariant
            i <= kinds.len(),
            ordinary@ == ordinary_kind@,
            forall|j: int| 0 <= j < i ==> kinds@[j]@ != ordinary_kind@,
        decreases kinds.len() - i,
    {
        if kinds[i] == ordinary {
            return Some(i);
        }
        i = i + 1;
    }
    None
}

/// Identifier and fingerprint of an analysed run.
pub struct RunIdentity {
    pub id: String,
    pub fingerprint: String,
}

/// A run keeps its own identifier; one without gets the first 16 digits of its
/// fingerprint. The fingerprint does not depend on the identifier.
pub fn run_identity(run: JsonValue, constants: JsonValue, given_id: Option<String>) -> (identity:
    RunIdentity)
    ensures
        identity.fingerprint@ == run_fingerprint(run@, constants@),
        identity.id@ == match given_id {
            Some(id) => id@,
            None => run_fingerprint(run@, constants@).take(16),
        },
{
    let fingerprint = canonical_fingerprint(run, constants);
    let id = match given_id {
        Some(id) => id,
        None => String::from_str(fingerprint.as_str().substring_char(0, 16)),
    };
    RunIdentity { id, fingerprint }
}

} // verus!
