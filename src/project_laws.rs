use vstd::prelude::*;
use crate::clients::{distinct_client_ids, lemma_filter_map_none, lemma_filter_member, linked_client, linked_to};
use crate::harvest::{ProjectView, UpdateProjectView};
use crate::projects::{
    active_patch, all_updates, client_patch, client_with_id, code_patch, create_step, has_id,
    has_infix, is_excluded, lower_of, matched_project, name_patch, noted_as, project_create,
    project_plan, project_updates, resolve_client, unchanged, ProjectActionView, Snapshot,
};
use crate::rentman::ProjectsData;
use crate::status::aggregate_active;
use crate::xref::{
    first_index, int_text, is_first, lemma_first_index_is, lemma_first_index_none,
    lemma_first_index_some, lemma_parse_int_text, links_to,
};

verus! {

/// The name of a source project does not mention a template, in any case.
pub open spec fn not_template_named() -> spec_fn(ProjectsData) -> bool {
    |p: ProjectsData| !has_infix(lower_of(p.name@), "template"@)
}

/// A source project whose name mentions a template, in any case, is never
/// matched, created or updated: it adds nothing to the plan, which is the same
/// as the plan of the source projects without it.
pub proof fn lemma_template_names_excluded(ps: Seq<ProjectsData>, snap: Snapshot)
    ensures
        forall|i: int|
            0 <= i < ps.len() && has_infix(lower_of(#[trigger] ps[i].name@), "template"@) ==> {
                &&& project_updates(ps[i], snap) == Seq::<ProjectActionView>::empty()
                &&& project_create(ps[i], snap) is None
            },
        all_updates(ps, snap) == all_updates(ps.filter(not_template_named()), snap),
        ps.filter_map(create_step(snap)) == ps.filter(not_template_named()).filter_map(create_step(snap)),
        project_plan(ps, snap) == project_plan(ps.filter(not_template_named()), snap),
    decreases ps.len(),
{
    if ps.len() > 0 {
        let rest = ps.drop_last();
        let p = ps.last();
        lemma_template_names_excluded(rest, snap);
        reveal(Seq::filter);
        let f = not_template_named();
        let rf = rest.filter(f);
        assert(ps.filter(f) == if f(p) { rf.push(p) } else { rf });
        assert(rf.push(p).drop_last() =~= rf);
        if f(p) {
            assert(all_updates(ps.filter(f), snap) == all_updates(rf, snap) + project_updates(p, snap));
        } else {
            assert(is_excluded(p, snap));
            assert(all_updates(ps, snap) =~= all_updates(rest, snap));
            assert(ps.filter_map(create_step(snap)) =~= rest.filter_map(create_step(snap)));
        }
        assert forall|i: int|
            0 <= i < ps.len() && has_infix(lower_of(#[trigger] ps[i].name@), "template"@) implies {
                &&& project_updates(ps[i], snap) == Seq::<ProjectActionView>::empty()
                &&& project_create(ps[i], snap) is None
            } by {
            assert(is_excluded(ps[i], snap));
        }
    }
}

/// A source project without a customer is always created under the fallback
/// client, and is never moved when its matched project already sits under the
/// fallback client, whatever the fallback client's cross-reference reads as.
pub proof fn lemma_fallback_routing(p: ProjectsData, snap: Snapshot)
    requires
        p.customer_id == 0,
    ensures
        resolve_client(snap.clients, p.customer_id, snap.fallback_client) == Some(snap.fallback_client),
        !is_excluded(p, snap) && matched_project(snap.projects, p.id) is None ==> (project_create(p, snap)
            matches Some(ProjectActionView::Create(c)) && c.client_id == snap.fallback_client),
        forall|k: int|
            matched_project(snap.projects, p.id) == Some(k) && snap.projects[k].client_id == snap.fallback_client
                ==> #[trigger] client_patch(p, snap.projects[k], snap) == Seq::<ProjectActionView>::empty(),
{
}

/// A matched project whose name and code both differ from the source project's
/// gets two separate updates: the first sets only the name, the second only the code.
pub proof fn lemma_field_independence(p: ProjectsData, snap: Snapshot, k: int)
    requires
        !is_excluded(p, snap),
        matched_project(snap.projects, p.id) == Some(k),
        snap.projects[k].name != p.name@,
        snap.projects[k].code matches Some(c) && c != int_text(p.number as int),
    ensures
        project_updates(p, snap).len() >= 2,
        project_updates(p, snap)[0] == ProjectActionView::Update(
            snap.projects[k].id,
            UpdateProjectView { name: Some(p.name@), ..unchanged() },
        ),
        project_updates(p, snap)[1] == ProjectActionView::Update(
            snap.projects[k].id,
            UpdateProjectView { code: Some(int_text(p.number as int)), ..unchanged() },
        ),
{
    let t = snap.projects[k];
    let rest = client_patch(p, t, snap) + active_patch(t, aggregate_active(snap.subprojects, p.id));
    assert(project_updates(p, snap) =~= name_patch(p, t) + code_patch(p, t) + rest);
}

/// A target project after a patch: the fields present in `u` are replaced.
pub open spec fn patched(t: ProjectView, u: UpdateProjectView) -> ProjectView {
    ProjectView {
        id: t.id,
        name: match u.name {
            Some(n) => n,
            None => t.name,
        },
        code: match u.code {
            Some(c) => Some(c),
            None => t.code,
        },
        is_active: match u.is_active {
            Some(a) => a,
            None => t.is_active,
        },
        notes: match u.notes {
            Some(n) => Some(n),
            None => t.notes,
        },
        client_id: match u.client_id {
            Some(c) => c,
            None => t.client_id,
        },
    }
}

/// The target projects after one write: a patch changes every project with the
/// given id; a new project, with the id that the billing system gave it, comes last.
pub open spec fn apply_project_action(ts: Seq<ProjectView>, a: ProjectActionView, new_id: i64) -> Seq<ProjectView> {
    match a {
        ProjectActionView::Create(c) => ts.push(ProjectView {
            id: new_id,
            name: c.name,
            code: Some(c.code),
            is_active: c.is_active,
            notes: Some(c.notes),
            client_id: c.client_id,
        }),
        ProjectActionView::Update(id, u) => ts.map_values(
            |t: ProjectView|
                if t.id == id {
                    patched(t, u)
                } else {
                    t
                },
        ),
    }
}

/// The target projects after the writes `actions`, in order; the `i`-th write,
/// if it creates, gets the id `new_ids[i]`.
pub open spec fn apply_project_actions(
    ts: Seq<ProjectView>,
    actions: Seq<ProjectActionView>,
    new_ids: spec_fn(int) -> i64,
) -> Seq<ProjectView>
    decreases actions.len(),
{
    if actions.len() == 0 {
        ts
    } else {
        apply_project_action(
            apply_project_actions(ts, actions.drop_last(), new_ids),
            actions.last(),
            new_ids(actions.len() - 1),
        )
    }
}

/// The ids that the writes after the first `n` get.
pub open spec fn shift(new_ids: spec_fn(int) -> i64, n: int) -> spec_fn(int) -> i64 {
    |i: int| new_ids(i + n)
}

proof fn lemma_apply_concat(ts: Seq<ProjectView>, xs: Seq<ProjectActionView>, ys: Seq<ProjectActionView>, new_ids: spec_fn(int) -> i64)
    ensures
        apply_project_actions(ts, xs + ys, new_ids)
            == apply_project_actions(apply_project_actions(ts, xs, new_ids), ys, shift(new_ids, xs.len() as int)),
    decreases ys.len(),
{
    if ys.len() == 0 {
        assert(xs + ys =~= xs);
    } else {
        lemma_apply_concat(ts, xs, ys.drop_last(), new_ids);
        assert((xs + ys).drop_last() =~= xs + ys.drop_last());
    }
}

/// Applying at most one patch of the project with id `id`.
proof fn lemma_apply_single(ts: Seq<ProjectView>, ys: Seq<ProjectActionView>, new_ids: spec_fn(int) -> i64)
    requires
        ys.len() <= 1,
    ensures
        ys.len() == 0 ==> apply_project_actions(ts, ys, new_ids) == ts,
        ys.len() == 1 ==> apply_project_actions(ts, ys, new_ids) == apply_project_action(ts, ys[0], new_ids(0)),
{
    if ys.len() == 1 {
        assert(ys.drop_last() =~= Seq::<ProjectActionView>::empty());
        assert(apply_project_actions(ts, ys.drop_last(), new_ids) == ts);
    }
}

pub open spec fn distinct_ids(ts: Seq<ProjectView>) -> bool {
    forall|i: int, j: int| 0 <= i < ts.len() && 0 <= j < ts.len() && i != j
        ==> #[trigger] ts[i].id != #[trigger] ts[j].id
}

pub open spec fn distinct_source_ids(ps: Seq<ProjectsData>) -> bool {
    forall|i: int, j: int| 0 <= i < ps.len() && 0 <= j < ps.len() && i != j
        ==> #[trigger] ps[i].id != #[trigger] ps[j].id
}

/// A target project needs no patch for the source project `p`.
pub open spec fn settled(p: ProjectsData, t: ProjectView, snap: Snapshot) -> bool {
    &&& name_patch(p, t) == Seq::<ProjectActionView>::empty()
    &&& code_patch(p, t) == Seq::<ProjectActionView>::empty()
    &&& client_patch(p, t, snap) == Seq::<ProjectActionView>::empty()
    &&& active_patch(t, aggregate_active(snap.subprojects, p.id)) == Seq::<ProjectActionView>::empty()
}

/// A project under the resolved client of `p` needs no move.
proof fn lemma_resolved_client_settles(p: ProjectsData, t: ProjectView, snap: Snapshot)
    requires
        distinct_client_ids(snap.clients),
        resolve_client(snap.clients, p.customer_id, snap.fallback_client) == Some(t.client_id),
    ensures
        client_patch(p, t, snap) == Seq::<ProjectActionView>::empty(),
{
    let cl = snap.clients;
    if let Some(j) = client_with_id(cl, t.client_id) {
        assert(is_first(cl.len() as int, has_id(cl, t.client_id), j));
        if p.customer_id != 0 {
            let kc = linked_client(cl, p.customer_id)->Some_0;
            assert(is_first(cl.len() as int, linked_to(cl, p.customer_id), kc));
            assert(cl[kc].id == t.client_id);
            assert(j == kc);
        }
    }
}

/// Applying the patches of `p` to its matched target project `k` settles it and
/// leaves every other target project as it was.
proof fn lemma_patches_settle(p: ProjectsData, g: Seq<ProjectView>, k: int, snap: Snapshot, new_ids: spec_fn(int) -> i64)
    requires
        0 <= k < g.len(),
        forall|k2: int| 0 <= k2 < g.len() && k2 != k ==> #[trigger] g[k2].id != g[k].id,
        distinct_client_ids(snap.clients),
    ensures
        ({
            let t = g[k];
            let active = aggregate_active(snap.subprojects, p.id);
            let ys = name_patch(p, t) + code_patch(p, t) + client_patch(p, t, snap) + active_patch(t, active);
            let g2 = apply_project_actions(g, ys, new_ids);
            &&& g2.len() == g.len()
            &&& forall|k2: int| 0 <= k2 < g.len() && k2 != k ==> #[trigger] g2[k2] == g[k2]
            &&& g2[k].id == t.id && g2[k].notes == t.notes
            &&& settled(p, g2[k], snap)
        }),
{
    let t = g[k];
    let active = aggregate_active(snap.subprojects, p.id);
    let a1 = name_patch(p, t);
    let a2 = code_patch(p, t);
    let a3 = client_patch(p, t, snap);
    let a4 = active_patch(t, active);
    lemma_apply_concat(g, a1 + a2 + a3, a4, new_ids);
    lemma_apply_concat(g, a1 + a2, a3, new_ids);
    lemma_apply_concat(g, a1, a2, new_ids);
    let ids1 = shift(new_ids, a1.len() as int);
    let ids2 = shift(new_ids, (a1 + a2).len() as int);
    let ids3 = shift(new_ids, (a1 + a2 + a3).len() as int);
    lemma_apply_single(g, a1, new_ids);
    let g1 = apply_project_actions(g, a1, new_ids);
    lemma_apply_single(g1, a2, ids1);
    let g2 = apply_project_actions(g1, a2, ids1);
    lemma_apply_single(g2, a3, ids2);
    let g3 = apply_project_actions(g2, a3, ids2);
    lemma_apply_single(g3, a4, ids3);
    let g4 = apply_project_actions(g3, a4, ids3);
    assert(forall|k2: int| 0 <= k2 < g.len() && k2 != k ==> #[trigger] g1[k2] == g[k2]);
    assert(forall|k2: int| 0 <= k2 < g.len() && k2 != k ==> #[trigger] g2[k2] == g[k2]);
    assert(forall|k2: int| 0 <= k2 < g.len() && k2 != k ==> #[trigger] g3[k2] == g[k2]);
    assert(forall|k2: int| 0 <= k2 < g.len() && k2 != k ==> #[trigger] g4[k2] == g[k2]);
    assert(g1[k].name == p.name@);
    assert(g3[k].client_id == t.client_id || resolve_client(snap.clients, p.customer_id, snap.fallback_client) == Some(g3[k].client_id));
    if a3.len() == 0 {
        assert(client_patch(p, g4[k], snap) == a3);
    } else {
        lemma_resolved_client_settles(p, g4[k], snap);
    }
}

proof fn lemma_matched(ts: Seq<ProjectView>, id: i64)
    ensures
        matched_project(ts, id) matches Some(k) ==> is_first(ts.len() as int, noted_as(ts, id), k),
{
}

/// After the updates of the first `i` source projects, each matched target
/// project is settled; the others have not changed, and no id or notes has.
proof fn lemma_updates_settle(ps: Seq<ProjectsData>, snap: Snapshot, new_ids: spec_fn(int) -> i64, i: int)
    requires
        distinct_source_ids(ps),
        distinct_ids(snap.projects),
        distinct_client_ids(snap.clients),
        0 <= i <= ps.len(),
    ensures
        ({
            let ts = snap.projects;
            let g = apply_project_actions(ts, all_updates(ps.take(i), snap), new_ids);
            &&& g.len() == ts.len()
            &&& forall|k: int| 0 <= k < ts.len() ==> #[trigger] g[k].id == ts[k].id && g[k].notes == ts[k].notes
            &&& forall|j: int| 0 <= j < i && !is_excluded(ps[j], snap)
                ==> (#[trigger] matched_project(ts, ps[j].id) matches Some(k) ==> settled(ps[j], g[k], snap))
            &&& forall|k: int| 0 <= k < ts.len()
                && (forall|j: int| 0 <= j < i && !is_excluded(ps[j], snap) ==> #[trigger] matched_project(ts, ps[j].id) != Some(k))
                ==> g[k] == ts[k]
        }),
    decreases i,
{
    let ts = snap.projects;
    if i == 0 {
        assert(ps.take(0) =~= Seq::<ProjectsData>::empty());
    } else {
        lemma_updates_settle(ps, snap, new_ids, i - 1);
        let p = ps[i - 1];
        assert(ps.take(i).drop_last() =~= ps.take(i - 1));
        assert(ps.take(i).last() == p);
        let xs = all_updates(ps.take(i - 1), snap);
        let ys = project_updates(p, snap);
        assert(all_updates(ps.take(i), snap) == xs + ys);
        lemma_apply_concat(ts, xs, ys, new_ids);
        let g = apply_project_actions(ts, xs, new_ids);
        let ids2 = shift(new_ids, xs.len() as int);
        lemma_matched(ts, p.id);
        if !is_excluded(p, snap) && matched_project(ts, p.id) is Some {
            let k = matched_project(ts, p.id)->Some_0;
            assert forall|j: int| 0 <= j < i - 1 && !is_excluded(ps[j], snap) implies
                #[trigger] matched_project(ts, ps[j].id) != Some(k) by {
                lemma_matched(ts, ps[j].id);
                if matched_project(ts, ps[j].id) == Some(k) {
                    assert(noted_as(ts, ps[j].id)(k));
                    assert(noted_as(ts, p.id)(k));
                    assert(ps[j].id != ps[i - 1].id);
                }
            }
            assert(g[k] == ts[k]);
            assert forall|k2: int| 0 <= k2 < g.len() && k2 != k implies #[trigger] g[k2].id != g[k].id by {
                assert(ts[k2].id != ts[k].id);
            }
            lemma_patches_settle(p, g, k, snap, ids2);
            let g2 = apply_project_actions(g, ys, ids2);
            assert forall|j: int| 0 <= j < i && !is_excluded(ps[j], snap) implies
                (#[trigger] matched_project(ts, ps[j].id) matches Some(k3) ==> settled(ps[j], g2[k3], snap)) by {
                if j < i - 1 {
                    if let Some(k3) = matched_project(ts, ps[j].id) {
                        assert(g2[k3] == g[k3]);
                    }
                }
            }
        } else {
            assert(ys =~= Seq::<ProjectActionView>::empty());
            lemma_apply_single(g, ys, ids2);
        }
    }
}

/// A source project for which a target project is created.
pub open spec fn creatable(snap: Snapshot) -> spec_fn(ProjectsData) -> bool {
    |p: ProjectsData| project_create(p, snap) is Some
}

/// The target project that the creation for `p` makes, but for its id.
pub open spec fn created_view(p: ProjectsData, snap: Snapshot, id: i64) -> ProjectView {
    ProjectView {
        id,
        name: p.name@,
        code: Some(int_text(p.number as int)),
        is_active: aggregate_active(snap.subprojects, p.id),
        notes: Some(int_text(p.id as int)),
        client_id: resolve_client(snap.clients, p.customer_id, snap.fallback_client)->Some_0,
    }
}

proof fn lemma_creates(ps: Seq<ProjectsData>, snap: Snapshot)
    ensures
        ps.filter_map(create_step(snap)).len() == ps.filter(creatable(snap)).len(),
        forall|q: int| 0 <= q < ps.filter(creatable(snap)).len() ==>
            #[trigger] ps.filter_map(create_step(snap))[q] == project_create(ps.filter(creatable(snap))[q], snap)->Some_0,
    decreases ps.len(),
{
    if ps.len() > 0 {
        let rest = ps.drop_last();
        let p = ps.last();
        lemma_creates(rest, snap);
        reveal(Seq::filter);
        let cf = ps.filter(creatable(snap));
        let rf = rest.filter(creatable(snap));
        assert(cf == if creatable(snap)(p) { rf.push(p) } else { rf });
        let fm = ps.filter_map(create_step(snap));
        let rm = rest.filter_map(create_step(snap));
        assert(fm == if creatable(snap)(p) { rm + seq![project_create(p, snap)->Some_0] } else { rm });
        assert forall|q: int| 0 <= q < cf.len() implies #[trigger] fm[q] == project_create(cf[q], snap)->Some_0 by {
            if q < rf.len() {
                assert(fm[q] == rm[q]);
                assert(cf[q] == rf[q]);
            }
        }
    }
}

/// After all updates and the first `m` creations, the new target projects
/// stand after the old ones, one per creatable source project, in order.
proof fn lemma_created_appended(ps: Seq<ProjectsData>, snap: Snapshot, new_ids: spec_fn(int) -> i64, m: int)
    requires
        0 <= m <= ps.filter(creatable(snap)).len(),
    ensures
        ({
            let ups = all_updates(ps, snap);
            let cf = ps.filter(creatable(snap));
            let g = apply_project_actions(snap.projects, ups, new_ids);
            let h = apply_project_actions(snap.projects, ups + ps.filter_map(create_step(snap)).take(m), new_ids);
            &&& h.len() == g.len() + m
            &&& forall|k: int| 0 <= k < g.len() ==> #[trigger] h[k] == g[k]
            &&& forall|q: int| 0 <= q < m ==> #[trigger] h[g.len() + q] == created_view(cf[q], snap, h[g.len() + q].id)
        }),
    decreases m,
{
    let ups = all_updates(ps, snap);
    let cs = ps.filter_map(create_step(snap));
    let cf = ps.filter(creatable(snap));
    lemma_creates(ps, snap);
    if m == 0 {
        assert(ups + cs.take(0) =~= ups);
    } else {
        lemma_created_appended(ps, snap, new_ids, m - 1);
        let xs = ups + cs.take(m - 1);
        let ys = ups + cs.take(m);
        assert(ys.drop_last() =~= xs);
        assert(ys.last() == project_create(cf[m - 1], snap)->Some_0);
        reveal(Seq::filter);
        ps.lemma_filter_pred(creatable(snap), m - 1);
    }
}

proof fn lemma_all_updates_empty(ps: Seq<ProjectsData>, snap: Snapshot)
    requires
        forall|i: int| 0 <= i < ps.len() ==> #[trigger] project_updates(ps[i], snap) == Seq::<ProjectActionView>::empty(),
    ensures
        all_updates(ps, snap) == Seq::<ProjectActionView>::empty(),
    decreases ps.len(),
{
    if ps.len() > 0 {
        let rest = ps.drop_last();
        assert forall|i: int| 0 <= i < rest.len() implies #[trigger] project_updates(rest[i], snap) == Seq::<ProjectActionView>::empty() by {
            assert(rest[i] == ps[i]);
        }
        lemma_all_updates_empty(rest, snap);
        assert(project_updates(ps[ps.len() - 1], snap) == Seq::<ProjectActionView>::empty());
        assert(all_updates(ps, snap) =~= Seq::<ProjectActionView>::empty());
    }
}

proof fn lemma_settled_updates(p: ProjectsData, snap: Snapshot, k: int)
    requires
        !is_excluded(p, snap),
        matched_project(snap.projects, p.id) == Some(k),
        settled(p, snap.projects[k], snap),
    ensures
        project_updates(p, snap) == Seq::<ProjectActionView>::empty(),
        project_create(p, snap) is None,
{
    let t = snap.projects[k];
    assert(project_updates(p, snap) =~= name_patch(p, t) + code_patch(p, t) + client_patch(p, t, snap)
        + active_patch(t, aggregate_active(snap.subprojects, p.id)));
}

/// The snapshot after the first plan's writes are applied to the target projects.
pub open spec fn replayed(ps: Seq<ProjectsData>, snap: Snapshot, new_ids: spec_fn(int) -> i64) -> Snapshot {
    Snapshot { projects: apply_project_actions(snap.projects, project_plan(ps, snap), new_ids), ..snap }
}

pub open spec fn idempotence_conditions(ps: Seq<ProjectsData>, snap: Snapshot) -> bool {
    &&& distinct_source_ids(ps)
    &&& distinct_ids(snap.projects)
    &&& distinct_client_ids(snap.clients)
}

/// What the first plan's writes leave: the old target projects, updated, then
/// one new project per creatable source project.
proof fn lemma_replayed(ps: Seq<ProjectsData>, snap: Snapshot, new_ids: spec_fn(int) -> i64)
    requires
        idempotence_conditions(ps, snap),
    ensures
        ({
            let ts = snap.projects;
            let fin = replayed(ps, snap, new_ids).projects;
            let cf = ps.filter(creatable(snap));
            &&& fin.len() == ts.len() + cf.len()
            &&& forall|k: int| 0 <= k < ts.len() ==> #[trigger] fin[k].notes == ts[k].notes
            &&& forall|j: int| 0 <= j < ps.len() && !is_excluded(ps[j], snap)
                ==> (#[trigger] matched_project(ts, ps[j].id) matches Some(k) ==> settled(ps[j], fin[k], snap))
            &&& forall|q: int| 0 <= q < cf.len()
                ==> #[trigger] fin[ts.len() + q] == created_view(cf[q], snap, fin[ts.len() + q].id)
        }),
{
    let ts = snap.projects;
    let ups = all_updates(ps, snap);
    let cs = ps.filter_map(create_step(snap));
    let cf = ps.filter(creatable(snap));
    lemma_creates(ps, snap);
    lemma_updates_settle(ps, snap, new_ids, ps.len() as int);
    assert(ps.take(ps.len() as int) =~= ps);
    lemma_created_appended(ps, snap, new_ids, cf.len() as int);
    assert(cs.take(cf.len() as int) =~= cs);
    let g = apply_project_actions(ts, ups, new_ids);
    let fin = replayed(ps, snap, new_ids).projects;
    assert(fin == apply_project_actions(ts, ups + cs.take(cf.len() as int), new_ids));
    assert forall|j: int| 0 <= j < ps.len() && !is_excluded(ps[j], snap)
        implies (#[trigger] matched_project(ts, ps[j].id) matches Some(k) ==> settled(ps[j], fin[k], snap)) by {
        if let Some(k) = matched_project(ts, ps[j].id) {
            lemma_matched(ts, ps[j].id);
            assert(fin[k] == g[k]);
        }
    }
}

/// The first creatable source project with the id of `ps[i]` is `ps[i]` itself.
proof fn lemma_first_creatable(ps: Seq<ProjectsData>, snap: Snapshot, i: int) -> (q: int)
    requires
        distinct_source_ids(ps),
        0 <= i < ps.len(),
        creatable(snap)(ps[i]),
    ensures
        0 <= q < ps.filter(creatable(snap)).len(),
        ps.filter(creatable(snap))[q] == ps[i],
        forall|q2: int| 0 <= q2 < q ==> #[trigger] ps.filter(creatable(snap))[q2].id != ps[i].id,
{
    let cr = creatable(snap);
    let cf = ps.filter(cr);
    ps.lemma_filter_contains(cr, i);
    let q0 = choose|q: int| 0 <= q < cf.len() && cf[q] == ps[i];
    let same = |q: int| cf[q].id == ps[i].id;
    lemma_first_index_some(cf.len() as int, same, q0);
    let q = first_index(cf.len() as int, same)->Some_0;
    lemma_filter_member(ps, cr, q);
    let j = choose|j: int| 0 <= j < ps.len() && ps[j] == cf[q];
    assert(j == i);
    assert forall|q2: int| 0 <= q2 < q implies #[trigger] cf[q2].id != ps[i].id by {
        assert(!same(q2));
    }
    q
}

/// In the second run a source project that was created is matched with its
/// new target project, which needs no patch.
proof fn lemma_second_run_created(ps: Seq<ProjectsData>, snap: Snapshot, new_ids: spec_fn(int) -> i64, i: int)
    requires
        idempotence_conditions(ps, snap),
        0 <= i < ps.len(),
        !is_excluded(ps[i], snap),
        matched_project(snap.projects, ps[i].id) is None,
        creatable(snap)(ps[i]),
    ensures
        project_updates(ps[i], replayed(ps, snap, new_ids)) == Seq::<ProjectActionView>::empty(),
        project_create(ps[i], replayed(ps, snap, new_ids)) is None,
{
    let p = ps[i];
    let ts = snap.projects;
    let n = ts.len() as int;
    let snap2 = replayed(ps, snap, new_ids);
    let fin = snap2.projects;
    let cf = ps.filter(creatable(snap));
    let pf = noted_as(fin, p.id);
    lemma_replayed(ps, snap, new_ids);
    let q = lemma_first_creatable(ps, snap, i);
    assert forall|k2: int| 0 <= k2 < n + q implies !#[trigger] pf(k2) by {
        if k2 < n {
            assert(fin[k2].notes == ts[k2].notes);
            if noted_as(ts, p.id)(k2) {
                lemma_first_index_some(n, noted_as(ts, p.id), k2);
            }
        } else {
            let q2 = k2 - n;
            assert(fin[n + q2] == created_view(cf[q2], snap, fin[n + q2].id));
            lemma_parse_int_text(cf[q2].id);
        }
    }
    assert(fin[n + q] == created_view(cf[q], snap, fin[n + q].id));
    lemma_parse_int_text(p.id);
    assert(pf(n + q));
    lemma_first_index_is(fin.len() as int, pf, n + q);
    lemma_resolved_client_settles(p, fin[n + q], snap);
    lemma_settled_updates(p, snap2, n + q);
}

/// In the second run a source project that could not be created is still
/// unmatched and still cannot be created.
proof fn lemma_second_run_unresolved(ps: Seq<ProjectsData>, snap: Snapshot, new_ids: spec_fn(int) -> i64, i: int)
    requires
        idempotence_conditions(ps, snap),
        0 <= i < ps.len(),
        !is_excluded(ps[i], snap),
        matched_project(snap.projects, ps[i].id) is None,
        !creatable(snap)(ps[i]),
    ensures
        project_updates(ps[i], replayed(ps, snap, new_ids)) == Seq::<ProjectActionView>::empty(),
        project_create(ps[i], replayed(ps, snap, new_ids)) is None,
{
    let p = ps[i];
    let ts = snap.projects;
    let n = ts.len() as int;
    let cr = creatable(snap);
    let snap2 = replayed(ps, snap, new_ids);
    let fin = snap2.projects;
    let cf = ps.filter(cr);
    let pf = noted_as(fin, p.id);
    lemma_replayed(ps, snap, new_ids);
    assert forall|k2: int| 0 <= k2 < fin.len() implies !#[trigger] pf(k2) by {
        if k2 < n {
            assert(fin[k2].notes == ts[k2].notes);
            if noted_as(ts, p.id)(k2) {
                lemma_first_index_some(n, noted_as(ts, p.id), k2);
            }
        } else {
            let q2 = k2 - n;
            assert(fin[n + q2] == created_view(cf[q2], snap, fin[n + q2].id));
            lemma_parse_int_text(cf[q2].id);
            if cf[q2].id == p.id {
                lemma_filter_member(ps, cr, q2);
                let j = choose|j: int| 0 <= j < ps.len() && ps[j] == cf[q2];
                assert(j == i);
                ps.lemma_filter_pred(cr, q2);
            }
        }
    }
    lemma_first_index_none(fin.len() as int, pf);
}

/// Reconciling the projects twice, with the first plan's writes applied in
/// between, leaves nothing to do: the second plan is empty. This holds where the
/// source projects' ids are distinct, the target projects' ids are distinct and
/// the clients' ids are distinct; whatever ids the new projects get.
pub proof fn lemma_projects_idempotent(ps: Seq<ProjectsData>, snap: Snapshot, new_ids: spec_fn(int) -> i64)
    requires
        distinct_source_ids(ps),
        distinct_ids(snap.projects),
        distinct_client_ids(snap.clients),
    ensures
        project_plan(ps, replayed(ps, snap, new_ids)) == Seq::<ProjectActionView>::empty(),
{
    let ts = snap.projects;
    let snap2 = replayed(ps, snap, new_ids);
    assert forall|i: int| 0 <= i < ps.len() implies
        #[trigger] project_updates(ps[i], snap2) == Seq::<ProjectActionView>::empty()
            && project_create(ps[i], snap2) is None by {
        let p = ps[i];
        if !is_excluded(p, snap) {
            match matched_project(ts, p.id) {
                Some(k) => {
                    lemma_replayed(ps, snap, new_ids);
                    lemma_matched(ts, p.id);
                    let pf = noted_as(snap2.projects, p.id);
                    assert forall|k2: int| 0 <= k2 <= k implies #[trigger] pf(k2) == noted_as(ts, p.id)(k2) by {
                        assert(snap2.projects[k2].notes == ts[k2].notes);
                    }
                    lemma_first_index_is(snap2.projects.len() as int, pf, k);
                    lemma_settled_updates(p, snap2, k);
                },
                None => {
                    if creatable(snap)(p) {
                        lemma_second_run_created(ps, snap, new_ids, i);
                    } else {
                        lemma_second_run_unresolved(ps, snap, new_ids, i);
                    }
                },
            }
        }
    }
    lemma_all_updates_empty(ps, snap2);
    assert forall|i: int| 0 <= i < ps.len() implies #[trigger] create_step(snap2)(ps[i]) is None by {
        assert(project_updates(ps[i], snap2) == Seq::<ProjectActionView>::empty());
    }
    lemma_filter_map_none(ps, create_step(snap2));
}

proof fn lemma_filter_distinct(ps: Seq<ProjectsData>, pred: spec_fn(ProjectsData) -> bool)
    requires
        distinct_source_ids(ps),
    ensures
        distinct_source_ids(ps.filter(pred)),
    decreases ps.len(),
{
    if ps.len() > 0 {
        reveal(Seq::filter);
        let rest = ps.drop_last();
        let last = ps.last();
        assert(distinct_source_ids(rest)) by {
            assert forall|i: int, j: int| 0 <= i < rest.len() && 0 <= j < rest.len() && i != j
                implies #[trigger] rest[i].id != #[trigger] rest[j].id by {
                assert(rest[i] == ps[i] && rest[j] == ps[j]);
            }
        }
        lemma_filter_distinct(rest, pred);
        let rf = rest.filter(pred);
        if pred(last) {
            assert forall|q: int| 0 <= q < rf.len() implies #[trigger] rf[q].id != last.id by {
                lemma_filter_member(rest, pred, q);
                let j = choose|j: int| 0 <= j < rest.len() && rest[j] == rf[q];
                assert(ps[j] == rest[j]);
                assert(ps[j].id != ps[ps.len() - 1].id);
            }
            let f = ps.filter(pred);
            assert(f == rf.push(last));
            assert forall|i: int, j: int| 0 <= i < f.len() && 0 <= j < f.len() && i != j
                implies #[trigger] f[i].id != #[trigger] f[j].id by {
                if i < rf.len() && j < rf.len() {
                    assert(f[i] == rf[i] && f[j] == rf[j]);
                } else if i < rf.len() {
                    assert(f[i] == rf[i]);
                } else if j < rf.len() {
                    assert(f[j] == rf[j]);
                }
            }
        }
    }
}

/// Where the source projects' ids are distinct, a source project without a
/// customer that is not excluded and that no target project notes gets exactly
/// one new project in the plan: at position `q` of the new projects, under the
/// fallback client, noting its id; no other new project notes that id.
pub proof fn lemma_fallback_single_create(ps: Seq<ProjectsData>, snap: Snapshot, i: int) -> (q: int)
    requires
        distinct_source_ids(ps),
        0 <= i < ps.len(),
        ps[i].customer_id == 0,
        !is_excluded(ps[i], snap),
        matched_project(snap.projects, ps[i].id) is None,
    ensures
        0 <= q < ps.filter_map(create_step(snap)).len(),
        ps.filter_map(create_step(snap))[q] matches ProjectActionView::Create(c)
            && c.client_id == snap.fallback_client && c.notes == int_text(ps[i].id as int),
        forall|q2: int| 0 <= q2 < ps.filter_map(create_step(snap)).len() && q2 != q
            ==> (#[trigger] ps.filter_map(create_step(snap))[q2] matches ProjectActionView::Create(c2)
                && c2.notes != int_text(ps[i].id as int)),
{
    let cr = creatable(snap);
    let cf = ps.filter(cr);
    let cs = ps.filter_map(create_step(snap));
    lemma_creates(ps, snap);
    assert(cr(ps[i]));
    let q = lemma_first_creatable(ps, snap, i);
    lemma_filter_distinct(ps, cr);
    assert forall|q2: int| 0 <= q2 < cs.len() && q2 != q
        implies (#[trigger] cs[q2] matches ProjectActionView::Create(c2) && c2.notes != int_text(ps[i].id as int)) by {
        ps.lemma_filter_pred(cr, q2);
        assert(cs[q2] == project_create(cf[q2], snap)->Some_0);
        assert(cf[q2].id != cf[q].id);
        lemma_parse_int_text(cf[q2].id);
        lemma_parse_int_text(ps[i].id);
    }
    q
}

/// Every update of a source project goes to its matched target project.
proof fn lemma_updates_target(p: ProjectsData, snap: Snapshot, x: int)
    requires
        0 <= x < project_updates(p, snap).len(),
    ensures
        !is_excluded(p, snap),
        matched_project(snap.projects, p.id) matches Some(k) && (project_updates(p, snap)[x]
            matches ProjectActionView::Update(id, _) && id == snap.projects[k].id),
{
    let k = matched_project(snap.projects, p.id)->Some_0;
    let t = snap.projects[k];
    let a = name_patch(p, t);
    let b = code_patch(p, t);
    let c = client_patch(p, t, snap);
    let d = active_patch(t, aggregate_active(snap.subprojects, p.id));
    let all = a + b + c + d;
    assert(project_updates(p, snap) == all);
    assert(forall|y: int| 0 <= y < a.len() ==> (#[trigger] a[y] matches ProjectActionView::Update(id, _) && id == t.id));
    assert(forall|y: int| 0 <= y < b.len() ==> (#[trigger] b[y] matches ProjectActionView::Update(id, _) && id == t.id));
    assert(forall|y: int| 0 <= y < c.len() ==> (#[trigger] c[y] matches ProjectActionView::Update(id, _) && id == t.id));
    assert(forall|y: int| 0 <= y < d.len() ==> (#[trigger] d[y] matches ProjectActionView::Update(id, _) && id == t.id));
    if x < a.len() {
        assert(all[x] == a[x]);
    } else if x < a.len() + b.len() {
        assert(all[x] == b[x - a.len()]);
    } else if x < a.len() + b.len() + c.len() {
        assert(all[x] == c[x - a.len() - b.len()]);
    } else {
        assert(all[x] == d[x - a.len() - b.len() - c.len()]);
    }
}

/// Every update of the plan comes from a source project that is not excluded,
/// and goes to that project's matched target project.
proof fn lemma_all_updates_target(ps: Seq<ProjectsData>, snap: Snapshot, x: int) -> (j: int)
    requires
        0 <= x < all_updates(ps, snap).len(),
    ensures
        0 <= j < ps.len(),
        !is_excluded(ps[j], snap),
        matched_project(snap.projects, ps[j].id) matches Some(k) && (all_updates(ps, snap)[x]
            matches ProjectActionView::Update(id, _) && id == snap.projects[k].id),
    decreases ps.len(),
{
    let rest = ps.drop_last();
    let head = all_updates(rest, snap);
    let tail = project_updates(ps.last(), snap);
    assert(all_updates(ps, snap) == head + tail);
    if x < head.len() {
        let j = lemma_all_updates_target(rest, snap, x);
        assert(rest[j] == ps[j]);
        assert(all_updates(ps, snap)[x] == head[x]);
        j
    } else {
        lemma_updates_target(ps.last(), snap, x - head.len());
        assert(all_updates(ps, snap)[x] == tail[x - head.len()]);
        ps.len() - 1
    }
}

/// Where the source projects' ids and the target projects' ids are distinct, no
/// write of the plan touches what belongs to a source project whose name
/// mentions a template: no update goes to a target project that notes its id,
/// and no new project notes its id.
pub proof fn lemma_template_targets_untouched(ps: Seq<ProjectsData>, snap: Snapshot, i: int)
    requires
        distinct_source_ids(ps),
        distinct_ids(snap.projects),
        0 <= i < ps.len(),
        has_infix(lower_of(ps[i].name@), "template"@),
    ensures
        forall|x: int| 0 <= x < all_updates(ps, snap).len() ==> (#[trigger] all_updates(ps, snap)[x]
            matches ProjectActionView::Update(id, _) && (forall|k: int| 0 <= k < snap.projects.len()
                && #[trigger] snap.projects[k].id == id ==> !links_to(snap.projects[k].notes, ps[i].id))),
        forall|q: int| 0 <= q < ps.filter_map(create_step(snap)).len() ==> (#[trigger] ps.filter_map(create_step(snap))[q]
            matches ProjectActionView::Create(c) && c.notes != int_text(ps[i].id as int)),
{
    let ts = snap.projects;
    let ups = all_updates(ps, snap);
    assert(is_excluded(ps[i], snap));
    assert forall|x: int| 0 <= x < ups.len() implies (#[trigger] ups[x]
        matches ProjectActionView::Update(id, _) && (forall|k: int| 0 <= k < ts.len()
            && #[trigger] ts[k].id == id ==> !links_to(ts[k].notes, ps[i].id))) by {
        let j = lemma_all_updates_target(ps, snap, x);
        let k1 = matched_project(ts, ps[j].id)->Some_0;
        lemma_matched(ts, ps[j].id);
        assert(noted_as(ts, ps[j].id)(k1));
        assert forall|k: int| 0 <= k < ts.len() && #[trigger] ts[k].id == ts[k1].id
            implies !links_to(ts[k].notes, ps[i].id) by {
            assert(k == k1);
            assert(j != i);
        }
    }
    let cr = creatable(snap);
    let cf = ps.filter(cr);
    let cs = ps.filter_map(create_step(snap));
    lemma_creates(ps, snap);
    assert forall|q: int| 0 <= q < cs.len() implies (#[trigger] cs[q]
        matches ProjectActionView::Create(c) && c.notes != int_text(ps[i].id as int)) by {
        ps.lemma_filter_pred(cr, q);
        lemma_filter_member(ps, cr, q);
        let j = choose|j: int| 0 <= j < ps.len() && ps[j] == cf[q];
        assert(j != i);
        lemma_parse_int_text(cf[q].id);
        lemma_parse_int_text(ps[i].id);
    }
}

} // verus!
