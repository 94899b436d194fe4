use vstd::prelude::*;
use crate::clients::{find_linked_client, linked_client};
use crate::harvest::{
    budget_by, clients_view, default_bill_by, is_billable, projects_view, ClientData, ClientView,
    CreateProject, CreateProjectView, Project, ProjectView, UpdateProject, UpdateProjectView,
};
use crate::rentman::{ProjectsData, SubprojectData};
use crate::status::{aggregate_active, any_template, is_project_active, is_template_project};
use crate::xref::{
    cross_ref_id, cross_ref_value, first_index, i64_to_text, int_text, is_linked_to, links_to,
    scan_first,
};

verus! {

/// A write to the billing system's projects.
pub enum ProjectAction {
    Create(CreateProject),
    Update(i64, UpdateProject),
}

pub ghost enum ProjectActionView {
    Create(CreateProjectView),
    Update(i64, UpdateProjectView),
}

impl View for ProjectAction {
    type V = ProjectActionView;

    open spec fn view(&self) -> ProjectActionView {
        match self {
            ProjectAction::Create(c) => ProjectActionView::Create(c@),
            ProjectAction::Update(id, u) => ProjectActionView::Update(*id, u@),
        }
    }
}

pub open spec fn project_actions_view(actions: Seq<ProjectAction>) -> Seq<ProjectActionView> {
    actions.map_values(|a: ProjectAction| a@)
}

/// Everything besides the source projects that project reconciliation reads.
pub ghost struct Snapshot {
    pub subprojects: Seq<SubprojectData>,
    pub projects: Seq<ProjectView>,
    pub clients: Seq<ClientView>,
    pub fallback_client: i64,
    pub excluded_customer: i64,
}

pub uninterp spec fn lower_of(s: Seq<char>) -> Seq<char>;

/// Relies on `str::to_lowercase`: the result depends on the characters alone.
#[verifier::external_body]
fn lowercase(s: &str) -> (r: String)
    ensures
        r@ == lower_of(s@),
{
    s.to_lowercase()
}

/// `part` occurs in `s` as a contiguous run.
pub open spec fn has_infix(s: Seq<char>, part: Seq<char>) -> bool {
    exists|i: int| 0 <= i && i + part.len() <= s.len() && #[trigger] s.subrange(i, i + part.len()) == part
}

/// Relies on `str::contains` with a `&str` pattern: whether `part` occurs in `s`.
#[verifier::external_body]
fn text_contains(s: &str, part: &str) -> (r: bool)
    ensures
        r == has_infix(s@, part@),
{
    s.contains(part)
}

/// A source project that is never synchronised: its name mentions a template in
/// any case, it belongs to the excluded customer, or a subproject is a template.
pub open spec fn is_excluded(p: ProjectsData, snap: Snapshot) -> bool {
    has_infix(lower_of(p.name@), "template"@) || p.customer_id == snap.excluded_customer
        || any_template(snap.subprojects, p.id)
}

/// Target project `k` notes the source project id `id`.
pub open spec fn noted_as(projects: Seq<ProjectView>, id: i64) -> spec_fn(int) -> bool {
    |k: int| links_to(projects[k].notes, id)
}

/// The first target project that notes the source project id `id`.
pub open spec fn matched_project(projects: Seq<ProjectView>, id: i64) -> Option<int> {
    first_index(projects.len() as int, noted_as(projects, id))
}

/// Client `k` has the id `id`.
pub open spec fn has_id(clients: Seq<ClientView>, id: i64) -> spec_fn(int) -> bool {
    |k: int| clients[k].id == id
}

/// The first client with the id `id`.
pub open spec fn client_with_id(clients: Seq<ClientView>, id: i64) -> Option<int> {
    first_index(clients.len() as int, has_id(clients, id))
}

/// The client that a project of customer `customer_id` belongs under: the
/// fallback client for customer 0, else the first client linked to the customer.
pub open spec fn resolve_client(clients: Seq<ClientView>, customer_id: i64, fallback: i64) -> Option<i64> {
    if customer_id == 0 {
        Some(fallback)
    } else {
        match linked_client(clients, customer_id) {
            Some(k) => Some(clients[k].id),
            None => None,
        }
    }
}

pub open spec fn unchanged() -> UpdateProjectView {
    UpdateProjectView { client_id: None, name: None, notes: None, code: None, is_active: None }
}

pub open spec fn name_patch(p: ProjectsData, t: ProjectView) -> Seq<ProjectActionView> {
    if t.name != p.name@ {
        seq![ProjectActionView::Update(t.id, UpdateProjectView { name: Some(p.name@), ..unchanged() })]
    } else {
        seq![]
    }
}

pub open spec fn code_patch(p: ProjectsData, t: ProjectView) -> Seq<ProjectActionView> {
    match t.code {
        Some(c) => if c != int_text(p.number as int) {
            seq![ProjectActionView::Update(t.id, UpdateProjectView { code: Some(int_text(p.number as int)), ..unchanged() })]
        } else {
            seq![]
        },
        None => seq![],
    }
}

/// A move of the project under the resolved client, where the customer that its
/// current client links to is not the source project's customer. A project
/// without a customer that already sits under the fallback client stays there.
pub open spec fn client_patch(p: ProjectsData, t: ProjectView, snap: Snapshot) -> Seq<ProjectActionView> {
    if p.customer_id == 0 && t.client_id == snap.fallback_client {
        seq![]
    } else {
        match client_with_id(snap.clients, t.client_id) {
            Some(j) => match cross_ref_value(snap.clients[j].address) {
                Some(v) => if v != p.customer_id {
                    match resolve_client(snap.clients, p.customer_id, snap.fallback_client) {
                        Some(d) => seq![ProjectActionView::Update(t.id, UpdateProjectView { client_id: Some(d), ..unchanged() })],
                        None => seq![],
                    }
                } else {
                    seq![]
                },
                None => seq![],
            },
            None => seq![],
        }
    }
}

/// An archival of an active project whose subprojects say it is inactive; an
/// inactive project is never reactivated.
pub open spec fn active_patch(t: ProjectView, active: bool) -> Seq<ProjectActionView> {
    if t.is_active && !active {
        seq![ProjectActionView::Update(t.id, UpdateProjectView { is_active: Some(active), ..unchanged() })]
    } else {
        seq![]
    }
}

/// The updates of one source project: one per differing field, in the order
/// name, code, client, active flag.
pub open spec fn project_updates(p: ProjectsData, snap: Snapshot) -> Seq<ProjectActionView> {
    if is_excluded(p, snap) {
        seq![]
    } else {
        match matched_project(snap.projects, p.id) {
            Some(k) => {
                let t = snap.projects[k];
                name_patch(p, t) + code_patch(p, t) + client_patch(p, t, snap)
                    + active_patch(t, aggregate_active(snap.subprojects, p.id))
            },
            None => seq![],
        }
    }
}

/// The new target project for a source project that none notes, when its
/// client resolves.
pub open spec fn project_create(p: ProjectsData, snap: Snapshot) -> Option<ProjectActionView> {
    if is_excluded(p, snap) || matched_project(snap.projects, p.id) is Some {
        None
    } else {
        match resolve_client(snap.clients, p.customer_id, snap.fallback_client) {
            Some(d) => Some(ProjectActionView::Create(CreateProjectView {
                client_id: d,
                name: p.name@,
                notes: int_text(p.id as int),
                code: int_text(p.number as int),
                is_active: aggregate_active(snap.subprojects, p.id),
                is_billable: true,
                bill_by: "none"@,
                budget_by: "none"@,
            })),
            None => None,
        }
    }
}

pub open spec fn create_step(snap: Snapshot) -> spec_fn(ProjectsData) -> Option<ProjectActionView> {
    |p: ProjectsData| project_create(p, snap)
}

/// The updates of all source projects, in their order.
pub open spec fn all_updates(ps: Seq<ProjectsData>, snap: Snapshot) -> Seq<ProjectActionView>
    decreases ps.len(),
{
    if ps.len() == 0 {
        seq![]
    } else {
        all_updates(ps.drop_last(), snap) + project_updates(ps.last(), snap)
    }
}

/// The writes that bring the target projects in line with the source projects:
/// the updates, then the new projects, each in the order of the source projects.
pub open spec fn project_plan(ps: Seq<ProjectsData>, snap: Snapshot) -> Seq<ProjectActionView> {
    all_updates(ps, snap) + ps.filter_map(create_step(snap))
}

/// Why a source project, or the move of its matched project, was left out.
#[derive(Debug, Clone, Copy, PartialEq, Eq, Structural)]
pub enum SkipReason {
    /// No client links to the project's customer, so no project is created.
    NoClientForCreate,
    /// The matched project's current client is not among the clients.
    CurrentClientMissing,
    /// The matched project's current client has no cross-reference.
    CurrentClientUnlinked,
    /// No client links to the project's customer, so the project is not moved.
    NoClientForMove,
}

/// A source project that reconciliation could not fully handle.
#[derive(Debug, Clone, Copy, PartialEq, Eq, Structural)]
pub struct Skip {
    pub project_id: i64,
    pub reason: SkipReason,
}

/// What reconciliation skips for one source project, if anything: the create
/// or the move that needs a client that cannot be found.
pub open spec fn project_skip(p: ProjectsData, snap: Snapshot) -> Option<Skip> {
    if is_excluded(p, snap) {
        None
    } else {
        match matched_project(snap.projects, p.id) {
            None => if resolve_client(snap.clients, p.customer_id, snap.fallback_client) is None {
                Some(Skip { project_id: p.id, reason: SkipReason::NoClientForCreate })
            } else {
                None
            },
            Some(k) => {
                let t = snap.projects[k];
                if p.customer_id == 0 && t.client_id == snap.fallback_client {
                    None
                } else {
                    match client_with_id(snap.clients, t.client_id) {
                        None => Some(Skip { project_id: p.id, reason: SkipReason::CurrentClientMissing }),
                        Some(j) => match cross_ref_value(snap.clients[j].address) {
                            None => Some(Skip { project_id: p.id, reason: SkipReason::CurrentClientUnlinked }),
                            Some(v) => if v != p.customer_id
                                && resolve_client(snap.clients, p.customer_id, snap.fallback_client) is None {
                                Some(Skip { project_id: p.id, reason: SkipReason::NoClientForMove })
                            } else {
                                None
                            },
                        },
                    }
                }
            },
        }
    }
}

pub open spec fn skip_step(snap: Snapshot) -> spec_fn(ProjectsData) -> Option<Skip> {
    |p: ProjectsData| project_skip(p, snap)
}

pub open spec fn snapshot(
    subprojects: Seq<SubprojectData>,
    targets: Seq<Project>,
    clients: Seq<ClientData>,
    fallback_client: i64,
    excluded_customer: i64,
) -> Snapshot {
    Snapshot {
        subprojects,
        projects: projects_view(targets),
        clients: clients_view(clients),
        fallback_client,
        excluded_customer,
    }
}

/// Whether a lower-cased project name mentions a template.
pub fn mentions_template(lowered: &str) -> (r: bool)
    ensures
        r == has_infix(lowered@, "template"@),
{
    text_contains(lowered, "template")
}

/// Whether a source project is never synchronised (see `is_excluded`).
pub fn is_excluded_project(p: &ProjectsData, subprojects: &Vec<SubprojectData>, excluded_customer: i64) -> (r: bool)
    ensures
        forall|snap: Snapshot|
            snap.subprojects == subprojects@ && snap.excluded_customer == excluded_customer
                ==> r == #[trigger] is_excluded(*p, snap),
{
    let lower = lowercase(p.name.as_str());
    if mentions_template(lower.as_str()) {
        return true;
    }
    if p.customer_id == excluded_customer {
        return true;
    }
    is_template_project(subprojects, p.id)
}

/// The index of the first target project whose notes link to `id`.
pub fn find_matched_project(targets: &Vec<Project>, id: i64) -> (r: Option<usize>)
    ensures
        r matches Some(k) ==> matched_project(projects_view(targets@), id) == Some(k as int),
        r is None ==> matched_project(projects_view(targets@), id) is None,
{
    let ghost pv = projects_view(targets@);
    let ghost p = noted_as(pv, id);
    assert forall|i: int| 0 <= i < targets.len() implies #[trigger] p(i) == links_to(targets@[i].notes.deep_view(), id) by {
        assert(pv[i] == targets@[i]@);
    }
    let notes = |t: &Project| -> (b: bool)
        ensures
            b == links_to(t.notes.deep_view(), id),
        {
            is_linked_to(&t.notes, id)
        };
    scan_first(targets, Ghost(p), notes)
}

/// The index of the first client with the id `id`.
pub fn find_client_by_id(clients: &Vec<ClientData>, id: i64) -> (r: Option<usize>)
    ensures
        r matches Some(k) ==> client_with_id(clients_view(clients@), id) == Some(k as int),
        r is None ==> client_with_id(clients_view(clients@), id) is None,
{
    let ghost cv = clients_view(clients@);
    let ghost p = has_id(cv, id);
    assert forall|i: int| 0 <= i < clients.len() implies #[trigger] p(i) == (clients@[i].id == id) by {
        assert(cv[i] == clients@[i]@);
    }
    let same = |c: &ClientData| -> (b: bool)
        ensures
            b == (c.id == id),
        {
            c.id == id
        };
    scan_first(clients, Ghost(p), same)
}

/// The id of the client that a project of customer `customer_id` belongs under
/// (see `resolve_client`).
pub fn resolve_client_id(clients: &Vec<ClientData>, customer_id: i64, fallback_client: i64) -> (r: Option<i64>)
    ensures
        r == resolve_client(clients_view(clients@), customer_id, fallback_client),
{
    if customer_id == 0 {
        return Some(fallback_client);
    }
    match find_linked_client(clients, customer_id) {
        Some(k) => {
            assert(clients_view(clients@)[k as int] == clients@[k as int]@);
            Some(clients[k].id)
        },
        None => None,
    }
}

fn no_change() -> (r: UpdateProject)
    ensures
        r@ == unchanged(),
{
    UpdateProject { client_id: None, name: None, notes: None, code: None, is_active: None }
}

/// The updates of a source project matched with the target project `t`, one per
/// differing field (see `project_updates`).
pub fn project_patches(
    p: &ProjectsData,
    t: &Project,
    clients: &Vec<ClientData>,
    fallback_client: i64,
    active: bool,
) -> (r: Vec<ProjectAction>)
    ensures
        forall|snap: Snapshot|
            snap.clients == clients_view(clients@) && snap.fallback_client == fallback_client
                ==> #[trigger] project_actions_view(r@) == name_patch(*p, t@) + code_patch(*p, t@)
                    + client_patch(*p, t@, snap) + active_patch(t@, active),
{
    let ghost cv = clients_view(clients@);
    let mut r: Vec<ProjectAction> = Vec::new();
    if t.name != p.name {
        r.push(ProjectAction::Update(t.id, UpdateProject { name: Some(p.name.clone()), ..no_change() }));
    }
    let ghost r1 = r@;
    assert(project_actions_view(r1) =~= name_patch(*p, t@));
    match &t.code {
        Some(code) => {
            let number = i64_to_text(p.number);
            if *code != number {
                r.push(ProjectAction::Update(t.id, UpdateProject { code: Some(number), ..no_change() }));
            }
        },
        None => {},
    }
    let ghost r2 = r@;
    assert(project_actions_view(r2) =~= name_patch(*p, t@) + code_patch(*p, t@));
    let ghost cp = client_patch(*p, t@, Snapshot { clients: cv, fallback_client, ..arbitrary() });
    let at_fallback = p.customer_id == 0 && t.client.id == fallback_client;
    if !at_fallback {
        match find_client_by_id(clients, t.client.id) {
            Some(j) => {
                assert(cv[j as int] == clients@[j as int]@);
                match cross_ref_id(&clients[j].address) {
                    Some(v) => {
                        if v != p.customer_id {
                            match resolve_client_id(clients, p.customer_id, fallback_client) {
                                Some(d) => {
                                    r.push(ProjectAction::Update(t.id, UpdateProject { client_id: Some(d), ..no_change() }));
                                },
                                None => {},
                            }
                        }
                    },
                    None => {},
                }
            },
            None => {},
        }
    }
    let ghost r3 = r@;
    assert(project_actions_view(r3) =~= name_patch(*p, t@) + code_patch(*p, t@) + cp);
    if t.is_active && !active {
        r.push(ProjectAction::Update(t.id, UpdateProject { is_active: Some(active), ..no_change() }));
    }
    assert(project_actions_view(r@) =~= name_patch(*p, t@) + code_patch(*p, t@) + cp + active_patch(t@, active));
    r
}

/// Decides the writes that bring the billing system's projects in line with the
/// scheduling system's projects (see `project_plan`). `fallback_client` takes
/// the projects without a customer; projects of `excluded_customer` are left out.
pub fn reconcile_projects(
    projects: &Vec<ProjectsData>,
    subprojects: &Vec<SubprojectData>,
    targets: &Vec<Project>,
    clients: &Vec<ClientData>,
    fallback_client: i64,
    excluded_customer: i64,
) -> (r: Vec<ProjectAction>)
    ensures
        project_actions_view(r@) == project_plan(
            projects@,
            snapshot(subprojects@, targets@, clients@, fallback_client, excluded_customer),
        ),
{
    let ghost snap = snapshot(subprojects@, targets@, clients@, fallback_client, excluded_customer);
    let mut updates: Vec<ProjectAction> = Vec::new();
    let mut creates: Vec<ProjectAction> = Vec::new();
    let mut i: usize = 0;
    while i < projects.len()
        invariant
            0 <= i <= projects.len(),
            snap == snapshot(subprojects@, targets@, clients@, fallback_client, excluded_customer),
            project_actions_view(updates@) == all_updates(projects@.take(i as int), snap),
            project_actions_view(creates@) == projects@.take(i as int).filter_map(create_step(snap)),
        decreases projects.len() - i,
    {
        let p = &projects[i];
        let ghost prefix = projects@.take(i + 1);
        assert(prefix.drop_last() =~= projects@.take(i as int));
        assert(prefix.last() == *p);
        let ghost u0 = updates@;
        let ghost c0 = creates@;
        if !is_excluded_project(p, subprojects, excluded_customer) {
            let active = is_project_active(subprojects, p.id);
            match find_matched_project(targets, p.id) {
                Some(k) => {
                    assert(snap.projects[k as int] == targets@[k as int]@);
                    let mut patches = project_patches(p, &targets[k], clients, fallback_client, active);
                    let ghost pv = patches@;
                    assert(project_actions_view(pv) == project_updates(*p, snap));
                    updates.append(&mut patches);
                    assert(project_actions_view(updates@) =~= project_actions_view(u0) + project_actions_view(pv));
                },
                None => {
                    match resolve_client_id(clients, p.customer_id, fallback_client) {
                        Some(d) => {
                            let c = CreateProject {
                                client_id: d,
                                name: p.name.clone(),
                                notes: i64_to_text(p.id),
                                code: i64_to_text(p.number),
                                is_active: active,
                                is_billable: is_billable(),
                                bill_by: default_bill_by(),
                                budget_by: budget_by(),
                            };
                            creates.push(ProjectAction::Create(c));
                        },
                        None => {},
                    }
                    assert(project_updates(*p, snap) =~= seq![]);
                    assert(project_actions_view(updates@) =~= project_actions_view(u0) + project_updates(*p, snap));
                },
            }
        } else {
            assert(project_updates(*p, snap) =~= seq![]);
            assert(project_actions_view(updates@) =~= project_actions_view(u0) + project_updates(*p, snap));
        }
        assert(project_actions_view(creates@) =~= prefix.filter_map(create_step(snap)));
        assert(project_actions_view(updates@) =~= all_updates(prefix, snap));
        i += 1;
    }
    assert(projects@.take(i as int) =~= projects@);
    let ghost u = updates@;
    let ghost c = creates@;
    updates.append(&mut creates);
    assert(project_actions_view(updates@) =~= project_actions_view(u) + project_actions_view(c));
    updates
}

/// What reconciliation skips for one source project (see `project_skip`).
pub fn project_skip_of(
    p: &ProjectsData,
    subprojects: &Vec<SubprojectData>,
    targets: &Vec<Project>,
    clients: &Vec<ClientData>,
    fallback_client: i64,
    excluded_customer: i64,
) -> (r: Option<Skip>)
    ensures
        r == project_skip(*p, snapshot(subprojects@, targets@, clients@, fallback_client, excluded_customer)),
{
    let ghost snap = snapshot(subprojects@, targets@, clients@, fallback_client, excluded_customer);
    if is_excluded_project(p, subprojects, excluded_customer) {
        return None;
    }
    match find_matched_project(targets, p.id) {
        None => {
            if resolve_client_id(clients, p.customer_id, fallback_client).is_none() {
                Some(Skip { project_id: p.id, reason: SkipReason::NoClientForCreate })
            } else {
                None
            }
        },
        Some(k) => {
            let t = &targets[k];
            assert(snap.projects[k as int] == t@);
            if p.customer_id == 0 && t.client.id == fallback_client {
                return None;
            }
            match find_client_by_id(clients, t.client.id) {
                None => Some(Skip { project_id: p.id, reason: SkipReason::CurrentClientMissing }),
                Some(j) => {
                    assert(snap.clients[j as int] == clients@[j as int]@);
                    match cross_ref_id(&clients[j].address) {
                        None => Some(Skip { project_id: p.id, reason: SkipReason::CurrentClientUnlinked }),
                        Some(v) => {
                            if v != p.customer_id && resolve_client_id(clients, p.customer_id, fallback_client).is_none() {
                                Some(Skip { project_id: p.id, reason: SkipReason::NoClientForMove })
                            } else {
                                None
                            }
                        },
                    }
                },
            }
        },
    }
}

/// The source projects that reconciliation skips in part or whole, with the
/// reason, in their order (see `project_skip`).
pub fn skipped_projects(
    projects: &Vec<ProjectsData>,
    subprojects: &Vec<SubprojectData>,
    targets: &Vec<Project>,
    clients: &Vec<ClientData>,
    fallback_client: i64,
    excluded_customer: i64,
) -> (r: Vec<Skip>)
    ensures
        r@ == projects@.filter_map(
            skip_step(snapshot(subprojects@, targets@, clients@, fallback_client, excluded_customer)),
        ),
{
    let ghost snap = snapshot(subprojects@, targets@, clients@, fallback_client, excluded_customer);
    let mut r: Vec<Skip> = Vec::new();
    let mut i: usize = 0;
    while i < projects.len()
        invariant
            0 <= i <= projects.len(),
            snap == snapshot(subprojects@, targets@, clients@, fallback_client, excluded_customer),
            r@ == projects@.take(i as int).filter_map(skip_step(snap)),
        decreases projects.len() - i,
    {
        let ghost prefix = projects@.take(i + 1);
        assert(prefix.drop_last() =~= projects@.take(i as int));
        assert(prefix.last() == projects@[i as int]);
        match project_skip_of(&projects[i], subprojects, targets, clients, fallback_client, excluded_customer) {
            Some(skip) => {
                r.push(skip);
            },
            None => {},
        }
        assert(r@ =~= prefix.filter_map(skip_step(snap)));
        i += 1;
    }
    assert(projects@.take(i as int) =~= projects@);
    r
}

} // verus!
