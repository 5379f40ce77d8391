use vstd::prelude::*;
use crate::analysis::BASELINE_BRANCH_NAME;
use crate::model::EQUATION_VERSION;
use crate::text::{is_blank, is_blank_text, join, join_strings, string_views};

verus! {

/// Body of a branch request: the identifiers of the points to leave out.
pub struct BranchRequest {
    pub excluded_point_ids: Vec<String>,
}

/// Name of a requested branch: the baseline name when nothing is excluded,
/// otherwise `排除：` followed by the excluded identifiers joined with `, `.
pub open spec fn branch_name_spec(excluded: Seq<Seq<char>>) -> Seq<char> {
    if excluded.len() == 0 {
        BASELINE_BRANCH_NAME@
    } else {
        "排除："@ + join(excluded, ", "@)
    }
}

pub fn branch_name(excluded: &Vec<String>) -> (name: String)
    ensures
        name@ == branch_name_spec(string_views(excluded@)),
{
    if excluded.len() == 0 {
        String::from_str(BASELINE_BRANCH_NAME)
    } else {
        let joined = join_strings(excluded, ", ");
        let mut name = String::from_str("排除：");
        name.append(joined.as_str());
        name
    }
}

/// The text of an error message returned to a client.
pub fn anyhow_like(message: &str) -> (text: String)
    ensures
        text@ == message@,
{
    String::from_str(message)
}

pub open spec fn blank_name_error() -> Seq<char> {
    "运行名称不能为空"@
}

pub open spec fn no_points_error() -> Seq<char> {
    "至少需要一个点；越界点也必须保留在输入中"@
}

pub open spec fn version_mismatch_error() -> Seq<char> {
    "导入文件的年龄方程常数版本与本服务不一致"@
}

/// Outcome of validating a run with the given name and number of points.
pub open spec fn input_check(name: Seq<char>, point_count: nat) -> Result<(), Seq<char>> {
    if is_blank_text(name) {
        Err(blank_name_error())
    } else if point_count == 0 {
        Err(no_points_error())
    } else {
        Ok(())
    }
}

/// A run is accepted when its name is not blank and it has at least one point
/// (points that fail validation stay in the input).
pub fn validate_input(name: &str, point_count: usize) -> (result: Result<(), String>)
    ensures
        match result {
            Ok(()) => input_check(name@, point_count as nat) is Ok,
            Err(e) => input_check(name@, point_count as nat) == Err::<(), Seq<char>>(e@),
        },
        result is Ok <==> (!is_blank_text(name@) && point_count > 0),
{
    proof {
        lemma_input_check_meaning(name@, point_count as nat);
    }
    if is_blank(name) {
        return Err(String::from_str("运行名称不能为空"));
    }
    if point_count == 0 {
        return Err(String::from_str("至少需要一个点；越界点也必须保留在输入中"));
    }
    Ok(())
}

/// Outcome of validating an import: the equation version must match, then each
/// run is checked in order and the first rejection is reported.
pub open spec fn import_check(equation_version: Seq<char>, runs: Seq<(Seq<char>, nat)>) -> Result<
    (),
    Seq<char>,
> {
    if equation_version != EQUATION_VERSION@ {
        Err(version_mismatch_error())
    } else {
        runs_check(runs)
    }
}

pub open spec fn runs_check(runs: Seq<(Seq<char>, nat)>) -> Result<(), Seq<char>>
    decreases runs.len(),
{
    if runs.len() == 0 {
        Ok(())
    } else {
        match input_check(runs[0].0, runs[0].1) {
            Err(e) => Err(e),
            Ok(()) => runs_check(runs.drop_first()),
        }
    }
}

/// Name and point count of each run of an import.
pub open spec fn run_summaries(runs: Seq<(String, usize)>) -> Seq<(Seq<char>, nat)> {
    runs.map_values(|r: (String, usize)| (r.0@, r.1 as nat))
}

/// Checks an import before anything is stored.
pub fn validate_import(equation_version: &str, runs: &Vec<(String, usize)>) -> (result: Result<
    (),
    String,
>)
    ensures
        match result {
            Ok(()) => import_check(equation_version@, run_summaries(runs@)) is Ok,
            Err(e) => import_check(equation_version@, run_summaries(runs@)) == Err::<(), Seq<char>>(e@),
        },
        result is Ok <==> (equation_version@ == EQUATION_VERSION@ && forall|k: int|
            0 <= k < runs.len() ==> !is_blank_text(#[trigger] runs@[k].0@) && runs@[k].1 > 0),
{
    proof {
        let all = run_summaries(runs@);
        lemma_import_check_meaning(equation_version@, all);
        assert forall|k: int| 0 <= k < runs.len() implies #[trigger] all[k] == (
            runs@[k].0@,
            runs@[k].1 as nat,
        ) by {}
        if import_check(equation_version@, all) is Ok {
            assert forall|k: int| 0 <= k < runs.len() implies !is_blank_text(
                #[trigger] runs@[k].0@,
            ) && runs@[k].1 > 0 by {
                assert(all[k] == (runs@[k].0@, runs@[k].1 as nat));
                assert(!is_blank_text(all[k].0));
            }
        } else if equation_version@ == EQUATION_VERSION@ {
            let e = import_check(equation_version@, all)->Err_0;
            let k = choose|k: int|
                0 <= k < all.len() && (forall|j: int|
                    0 <= j < k ==> !is_blank_text(#[trigger] all[j].0) && all[j].1 > 0) && !(
                !is_blank_text(all[k].0) && all[k].1 > 0) && e == if is_blank_text(all[k].0) {
                    "运行名称不能为空"@
                } else {
                    "至少需要一个点；越界点也必须保留在输入中"@
                };
            assert(all[k] == (runs@[k].0@, runs@[k].1 as nat));
        }
    }
    let expected = String::from_str(EQUATION_VERSION);
    let given = String::from_str(equation_version);
    if given != expected {
        return Err(anyhow_like("导入文件的年龄方程常数版本与本服务不一致"));
    }
    let ghost all = run_summaries(runs@);
    let mut i: usize = 0;
    assert(all.skip(0) =~= all);
    while i < runs.len()
        invariant
            i <= runs.len(),
            all == run_summaries(runs@),
            equation_version@ == EQUATION_VERSION@,
            runs_check(all) == runs_check(all.skip(i as int)),
        decreases runs.len() - i,
    {
        assert(all.skip(i as int)[0] == all[i as int]);
        assert(all[i as int] == (runs@[i as int].0@, runs@[i as int].1 as nat));
        assert(all.skip(i as int).drop_first() =~= all.skip(i + 1));
        match validate_input(runs[i].0.as_str(), runs[i].1) {
            Err(e) => {
                return Err(e);
            },
            Ok(()) => {},
        }
        i = i + 1;
    }
    assert(all.skip(runs.len() as int).len() == 0);
    Ok(())
}

/// A run is accepted exactly when its name is not blank and it has at least
/// one point; a blank name is reported before a missing point.
pub proof fn lemma_input_check_meaning(name: Seq<char>, point_count: nat)
    ensures
        input_check(name, point_count) is Ok <==> (!is_blank_text(name) && point_count > 0),
        input_check(name, point_count) matches Err(e) ==> e == if is_blank_text(name) {
            "运行名称不能为空"@
        } else {
            "至少需要一个点；越界点也必须保留在输入中"@
        },
{
}

proof fn lemma_runs_check_meaning(runs: Seq<(Seq<char>, nat)>)
    ensures
        runs_check(runs) is Ok <==> forall|k: int|
            0 <= k < runs.len() ==> !is_blank_text(#[trigger] runs[k].0) && runs[k].1 > 0,
        runs_check(runs) matches Err(e) ==> exists|k: int|
            0 <= k < runs.len() && (forall|j: int|
                0 <= j < k ==> !is_blank_text(#[trigger] runs[j].0) && runs[j].1 > 0) && !(
            !is_blank_text(runs[k].0) && runs[k].1 > 0) && e == if is_blank_text(runs[k].0) {
                "运行名称不能为空"@
            } else {
                "至少需要一个点；越界点也必须保留在输入中"@
            },
    decreases runs.len(),
{
    if runs.len() > 0 {
        let rest = runs.drop_first();
        lemma_runs_check_meaning(rest);
        lemma_input_check_meaning(runs[0].0, runs[0].1);
        assert forall|k: int| 0 < k < runs.len() implies runs[k] == rest[k - 1] by {}
        if runs_check(runs) is Ok {
            assert(input_check(runs[0].0, runs[0].1) is Ok);
            assert(runs_check(rest) is Ok);
            assert forall|k: int| 0 <= k < runs.len() implies !is_blank_text(
                #[trigger] runs[k].0,
            ) && runs[k].1 > 0 by {
                if k > 0 {
                    assert(runs[k] == rest[k - 1]);
                    assert(0 <= k - 1 < rest.len());
                    assert(!is_blank_text(rest[k - 1].0));
                    assert(rest[k - 1].1 > 0);
                }
            }
        } else {
            if input_check(runs[0].0, runs[0].1) is Ok {
                let e = runs_check(runs)->Err_0;
                let k = choose|k: int|
                    0 <= k < rest.len() && (forall|j: int|
                        0 <= j < k ==> !is_blank_text(#[trigger] rest[j].0) && rest[j].1 > 0) && !(
                    !is_blank_text(rest[k].0) && rest[k].1 > 0) && e == if is_blank_text(rest[k].0) {
                        "运行名称不能为空"@
                    } else {
                        "至少需要一个点；越界点也必须保留在输入中"@
                    };
                assert(runs[k + 1] == rest[k]);
                assert forall|j: int| 0 <= j < k + 1 implies !is_blank_text(#[trigger] runs[j].0)
                    && runs[j].1 > 0 by {
                    if j > 0 {
                        assert(runs[j] == rest[j - 1]);
                    }
                }
            }
        }
    }
}

/// An import is accepted exactly when its equation version matches and every
/// run has a non-blank name and at least one point. A rejection reports the
/// version mismatch, or else the problem of the first unacceptable run.
pub proof fn lemma_import_check_meaning(equation_version: Seq<char>, runs: Seq<(Seq<char>, nat)>)
    ensures
        import_check(equation_version, runs) is Ok <==> (equation_version == EQUATION_VERSION@
            && forall|k: int|
            0 <= k < runs.len() ==> !is_blank_text(#[trigger] runs[k].0) && runs[k].1 > 0),
        import_check(equation_version, runs) matches Err(e) ==> (equation_version
            != EQUATION_VERSION@ && e == "导入文件的年龄方程常数版本与本服务不一致"@) || (
        equation_version == EQUATION_VERSION@ && exists|k: int|
            0 <= k < runs.len() && (forall|j: int|
                0 <= j < k ==> !is_blank_text(#[trigger] runs[j].0) && runs[j].1 > 0) && !(
            !is_blank_text(runs[k].0) && runs[k].1 > 0) && e == if is_blank_text(runs[k].0) {
                "运行名称不能为空"@
            } else {
                "至少需要一个点；越界点也必须保留在输入中"@
            }),
{
    lemma_runs_check_meaning(runs);
}

} // verus!
