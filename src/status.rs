use vstd::prelude::*;
use crate::rentman::{Status, SubprojectData};

verus! {

/// The status of a subproject when it belongs to project `pid`.
pub open spec fn status_in(pid: i64) -> spec_fn(SubprojectData) -> Option<Status> {
    |s: SubprojectData|
        if s.project_id == pid {
            Some(s.status)
        } else {
            None
        }
}

/// The statuses of the subprojects of project `pid`, in order.
pub open spec fn group_statuses(subs: Seq<SubprojectData>, pid: i64) -> Seq<Status> {
    subs.filter_map(status_in(pid))
}

/// A project is active unless all of its subprojects share one status and that
/// status is inactive; a project without subprojects is active.
pub open spec fn aggregate_active(subs: Seq<SubprojectData>, pid: i64) -> bool {
    let g = group_statuses(subs, pid);
    if g.len() > 0 && (forall|k: int| 0 <= k < g.len() ==> #[trigger] g[k] == g[0]) {
        !g[0].is_inactive()
    } else {
        true
    }
}

/// Some subproject of project `pid` is a template.
pub open spec fn any_template(subs: Seq<SubprojectData>, pid: i64) -> bool {
    exists|i: int| 0 <= i < subs.len() && #[trigger] subs[i].project_id == pid && subs[i].is_template
}

/// The active flag of project `pid`, aggregated over its subprojects.
pub fn is_project_active(subprojects: &Vec<SubprojectData>, pid: i64) -> (r: bool)
    ensures
        r == aggregate_active(subprojects@, pid),
{
    let mut first: Option<Status> = None;
    let mut unanimous = true;
    let mut i: usize = 0;
    while i < subprojects.len()
        invariant
            0 <= i <= subprojects.len(),
            ({
                let g = group_statuses(subprojects@.take(i as int), pid);
                &&& first is None <==> g.len() == 0
                &&& g.len() == 0 ==> unanimous
                &&& g.len() > 0 ==> first == Some(g[0])
                &&& g.len() > 0 ==> (unanimous <==> forall|k: int| 0 <= k < g.len() ==> #[trigger] g[k] == g[0])
            }),
        decreases subprojects.len() - i,
    {
        let ghost prev = group_statuses(subprojects@.take(i as int), pid);
        let s = &subprojects[i];
        assert(subprojects@.take(i + 1).drop_last() =~= subprojects@.take(i as int));
        if s.project_id == pid {
            let ghost g = group_statuses(subprojects@.take(i + 1), pid);
            assert(g =~= prev + seq![s.status]);
            match first {
                None => {
                    first = Some(s.status);
                },
                Some(f) => {
                    if s.status != f {
                        unanimous = false;
                    }
                    assert(g[g.len() - 1] == s.status);
                    assert(forall|k: int| 0 <= k < prev.len() ==> g[k] == prev[k]);
                    assert(g[0] == f);
                    proof {
                        if unanimous {
                            assert forall|k: int| 0 <= k < g.len() implies #[trigger] g[k] == g[0] by {
                                if k < prev.len() {
                                    assert(prev[k] == prev[0]);
                                }
                            }
                        } else {
                            if s.status == f {
                                let w = choose|k: int| 0 <= k < prev.len() && #[trigger] prev[k] != prev[0];
                                assert(g[w] != g[0]);
                            } else {
                                assert(g[g.len() - 1] != g[0]);
                            }
                        }
                    }
                },
            }
        } else {
            assert(group_statuses(subprojects@.take(i + 1), pid) == prev);
        }
        i += 1;
    }
    assert(subprojects@.take(i as int) =~= subprojects@);
    match first {
        None => true,
        Some(f) => {
            if unanimous {
                !(f == Status::Geannuleerd || f == Status::Retour)
            } else {
                true
            }
        },
    }
}

/// Whether some subproject of project `pid` is a template.
pub fn is_template_project(subprojects: &Vec<SubprojectData>, pid: i64) -> (r: bool)
    ensures
        r == any_template(subprojects@, pid),
{
    let mut i: usize = 0;
    while i < subprojects.len()
        invariant
            0 <= i <= subprojects.len(),
            forall|j: int| 0 <= j < i ==> !(#[trigger] subprojects@[j].project_id == pid && subprojects@[j].is_template),
        decreases subprojects.len() - i,
    {
        if subprojects[i].project_id == pid && subprojects[i].is_template {
            return true;
        }
        i += 1;
    }
    false
}

} // verus!
