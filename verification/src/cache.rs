//! Where a project keeps its work: `.cutline/` beside the project file, the
//! rendered clips under `.cutline/cache/`.
use vstd::prelude::*;

use crate::model::NormalizedProject;
use crate::paths::{join_path, path_join};

verus! {

pub open spec fn work_dir_of(project_dir: Seq<char>) -> Seq<char> {
    path_join(project_dir, ".cutline"@)
}

pub open spec fn cache_dir_of(project_dir: Seq<char>) -> Seq<char> {
    path_join(work_dir_of(project_dir), "cache"@)
}

/// `.cutline` in the project's directory.
pub fn work_dir(project: &NormalizedProject) -> (r: String)
    ensures
        r@ == work_dir_of(project.project_dir@),
{
    join_path(project.project_dir.as_str(), ".cutline")
}

/// `.cutline/cache` in the project's directory.
pub fn cache_dir(project: &NormalizedProject) -> (r: String)
    ensures
        r@ == cache_dir_of(project.project_dir@),
{
    let work = work_dir(project);
    join_path(work.as_str(), "cache")
}

/// `.cutline/concat.txt`: the list of clips to join.
pub fn concat_list_path(project: &NormalizedProject) -> (r: String)
    ensures
        r@ == path_join(work_dir_of(project.project_dir@), "concat.txt"@),
{
    let work = work_dir(project);
    join_path(work.as_str(), "concat.txt")
}

/// `.cutline/plan.json`: the plan of the last render.
pub fn plan_json_path(project: &NormalizedProject) -> (r: String)
    ensures
        r@ == path_join(work_dir_of(project.project_dir@), "plan.json"@),
{
    let work = work_dir(project);
    join_path(work.as_str(), "plan.json")
}

} // verus!
