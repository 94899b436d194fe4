use harvest_sync::clients::{reconcile_clients, ClientAction};
use harvest_sync::harvest::{
    budget_by, default_bill_by, is_billable, ClientData, Clients, Links, Project, ProjectClient,
    Projects as HarvestProjects,
};
use harvest_sync::projects::{
    is_excluded_project, mentions_template, project_skip_of, reconcile_projects, resolve_client_id,
    skipped_projects, ProjectAction, Skip, SkipReason,
};
use harvest_sync::rentman::{
    customer_id_of, int_or_zero, project_id_of, Contacts, ContactsData, ProjectsData, Status,
    SubprojectData,
};
use harvest_sync::status::{is_project_active, is_template_project};
use harvest_sync::xref::{cross_ref_id, is_linked_to};

fn contact(id: i64, name: &str) -> ContactsData {
    ContactsData {
        id,
        created: String::new(),
        modified: String::new(),
        displayname: name.to_string(),
        firstname: String::new(),
        surfix: String::new(),
        surname: String::new(),
        code: String::new(),
        name: name.to_string(),
    }
}

fn client(id: i64, name: &str, address: Option<&str>) -> ClientData {
    ClientData {
        id,
        name: name.to_string(),
        is_active: true,
        address: address.map(|a| a.to_string()),
        statement_key: String::new(),
        created_at: String::new(),
        updated_at: String::new(),
    }
}

fn source_project(id: i64, name: &str, customer_id: i64, number: i64) -> ProjectsData {
    ProjectsData {
        id,
        displayname: name.to_string(),
        customer: None,
        customer_id,
        name: name.to_string(),
        number,
        tags: String::new(),
        planperiod_start: None,
    }
}

fn subproject(id: i64, project_id: i64, status: Status, is_template: bool) -> SubprojectData {
    SubprojectData {
        id,
        displayname: String::new(),
        project: format!("/projects/{}", project_id),
        project_id,
        order: 0,
        name: String::new(),
        status,
        is_template,
    }
}

fn target_project(id: i64, name: &str, code: Option<&str>, active: bool, notes: Option<&str>, client_id: i64) -> Project {
    Project {
        id,
        name: name.to_string(),
        code: code.map(|c| c.to_string()),
        is_active: active,
        notes: notes.map(|n| n.to_string()),
        client: ProjectClient { id: client_id, name: String::new() },
    }
}

fn apply_clients(clients: &mut Vec<ClientData>, actions: Vec<ClientAction>) {
    let mut next_id = 1000;
    for a in actions {
        match a {
            ClientAction::Create(c) => {
                clients.push(client(next_id, &c.name, Some(&c.address)));
                next_id += 1;
            }
            ClientAction::Update(id, u) => {
                for c in clients.iter_mut() {
                    if c.id == id {
                        if let Some(n) = &u.name {
                            c.name = n.clone();
                        }
                        if let Some(a) = &u.address {
                            c.address = Some(a.clone());
                        }
                    }
                }
            }
        }
    }
}

fn apply_projects(targets: &mut Vec<Project>, actions: Vec<ProjectAction>) {
    let mut next_id = 5000;
    for a in actions {
        match a {
            ProjectAction::Create(c) => {
                targets.push(target_project(next_id, &c.name, Some(&c.code), c.is_active, Some(&c.notes), c.client_id));
                next_id += 1;
            }
            ProjectAction::Update(id, u) => {
                for t in targets.iter_mut() {
                    if t.id == id {
                        if let Some(v) = u.client_id {
                            t.client.id = v;
                        }
                        if let Some(v) = &u.name {
                            t.name = v.clone();
                        }
                        if let Some(v) = &u.notes {
                            t.notes = Some(v.clone());
                        }
                        if let Some(v) = &u.code {
                            t.code = Some(v.clone());
                        }
                        if let Some(v) = u.is_active {
                            t.is_active = v;
                        }
                    }
                }
            }
        }
    }
}

#[test]
fn new_contact_is_created_then_left_alone() {
    let contacts = vec![contact(42, "Acme")];
    let mut clients: Vec<ClientData> = vec![];
    let actions = reconcile_clients(&contacts, &clients);
    assert_eq!(actions.len(), 1);
    match &actions[0] {
        ClientAction::Create(c) => {
            assert_eq!(c.name, "Acme");
            assert_eq!(c.address, "42");
        }
        _ => panic!("expected a create"),
    }
    apply_clients(&mut clients, actions);
    assert_eq!(clients[0].address.as_deref(), Some("42"));
    assert_eq!(clients[0].name, "Acme");
    assert!(reconcile_clients(&contacts, &clients).is_empty());
}

#[test]
fn renamed_contact_updates_only_the_name() {
    let contacts = vec![contact(7, "New Name")];
    let clients = vec![client(3, "Old Name", Some("7"))];
    let actions = reconcile_clients(&contacts, &clients);
    assert_eq!(actions.len(), 1);
    match &actions[0] {
        ClientAction::Update(id, u) => {
            assert_eq!(*id, 3);
            assert_eq!(u.name.as_deref(), Some("New Name"));
            assert!(u.address.is_none());
        }
        _ => panic!("expected an update"),
    }
}

#[test]
fn each_unlinked_contact_yields_one_create_after_the_updates() {
    let contacts = vec![contact(1, "A"), contact(2, "B"), contact(3, "C")];
    let clients = vec![client(10, "b", Some("2")), client(11, "x", None), client(12, "y", Some("garbage"))];
    let actions = reconcile_clients(&contacts, &clients);
    assert_eq!(actions.len(), 3);
    assert!(matches!(&actions[0], ClientAction::Update(10, _)));
    match (&actions[1], &actions[2]) {
        (ClientAction::Create(a), ClientAction::Create(c)) => {
            assert_eq!((a.name.as_str(), a.address.as_str()), ("A", "1"));
            assert_eq!((c.name.as_str(), c.address.as_str()), ("C", "3"));
        }
        _ => panic!("expected two creates"),
    }
}

#[test]
fn client_reconciliation_is_idempotent() {
    let contacts = vec![contact(1, "A"), contact(2, "B"), contact(-5, "Neg")];
    let mut clients = vec![client(10, "old", Some("2")), client(11, "x", Some("+9"))];
    let first = reconcile_clients(&contacts, &clients);
    assert_eq!(first.len(), 3);
    apply_clients(&mut clients, first);
    assert!(reconcile_clients(&contacts, &clients).is_empty());
}

#[test]
fn cross_reference_reading() {
    assert_eq!(cross_ref_id(&None), None);
    assert_eq!(cross_ref_id(&Some("42".to_string())), Some(42));
    assert_eq!(cross_ref_id(&Some("+7".to_string())), Some(7));
    assert_eq!(cross_ref_id(&Some("-3".to_string())), Some(-3));
    assert_eq!(cross_ref_id(&Some("abc".to_string())), Some(0));
    assert_eq!(cross_ref_id(&Some(" 4".to_string())), Some(0));
    assert!(is_linked_to(&Some("42".to_string()), 42));
    assert!(!is_linked_to(&None, 0));
    assert!(is_linked_to(&Some("junk".to_string()), 0));
    assert!(!is_linked_to(&Some("43".to_string()), 42));
}

#[test]
fn references_are_read_as_ids() {
    assert_eq!(customer_id_of(&Some("/contacts/12".to_string())), 12);
    assert_eq!(customer_id_of(&None), 0);
    assert_eq!(customer_id_of(&Some("/contacts/x".to_string())), 0);
    assert_eq!(project_id_of(&"/projects/7".to_string()), Some(7));
    assert_eq!(project_id_of(&"/projects/x".to_string()), None);
    assert_eq!(int_or_zero("19"), 19);
    assert_eq!(int_or_zero("1x"), 0);
}

#[test]
fn derived_fields_after_fetch() {
    let mut p = source_project(1, "Show  \t ", 0, 3);
    p.customer = Some("/contacts/8".to_string());
    p.derive_fields();
    assert_eq!(p.name, "Show");
    assert_eq!(p.customer_id, 8);
    let mut s = subproject(1, 0, Status::Optie, false);
    s.project = "/projects/77".to_string();
    assert!(s.derive_project_id());
    assert_eq!(s.project_id, 77);
    s.project = "/projects/none".to_string();
    assert!(!s.derive_project_id());
    assert_eq!(s.project_id, 77);
}

#[test]
fn page_completeness() {
    let contacts = Contacts { data: vec![], item_count: 3, limit: 300, offset: 0 };
    assert!(contacts.is_complete());
    let full = Contacts { data: vec![], item_count: 300, limit: 300, offset: 0 };
    assert!(!full.is_complete());
    let links = Links { first: String::new(), next: None, previous: None, last: String::new() };
    let clients = Clients {
        clients: vec![],
        per_page: 100,
        total_pages: 1,
        total_entries: 100,
        next_page: None,
        previous_page: None,
        page: 1,
        links,
    };
    assert!(!clients.is_complete());
    let links = Links { first: String::new(), next: None, previous: None, last: String::new() };
    let projects = HarvestProjects {
        projects: vec![],
        per_page: 100,
        total_pages: 1,
        total_entries: 4,
        next_page: None,
        previous_page: None,
        page: 1,
        links,
    };
    assert!(projects.is_complete());
}

#[test]
fn billing_defaults() {
    assert_eq!(default_bill_by(), "none");
    assert_eq!(budget_by(), "none");
    assert!(is_billable());
}

#[test]
fn unanimous_cancelled_is_inactive() {
    let subs = vec![subproject(1, 5, Status::Geannuleerd, false), subproject(2, 5, Status::Geannuleerd, false)];
    assert!(!is_project_active(&subs, 5));
}

#[test]
fn mixed_statuses_are_active() {
    let subs = vec![subproject(1, 5, Status::Geannuleerd, false), subproject(2, 5, Status::Bevestigd, false)];
    assert!(is_project_active(&subs, 5));
}

#[test]
fn no_subprojects_is_active() {
    let subs = vec![subproject(1, 6, Status::Retour, false)];
    assert!(is_project_active(&subs, 5));
    assert!(!is_project_active(&subs, 6));
    assert!(is_project_active(&vec![], 5));
}

#[test]
fn template_subproject_marks_project() {
    let subs = vec![subproject(1, 5, Status::Optie, true), subproject(2, 5, Status::Optie, false)];
    assert!(is_template_project(&subs, 5));
    assert!(!is_template_project(&subs, 6));
}

#[test]
fn template_named_project_is_never_touched() {
    let projects = vec![source_project(1, "Demo Template", 0, 10), source_project(2, "DEMO TEMPLATE", 4, 11)];
    let targets = vec![target_project(50, "Other", Some("99"), true, Some("1"), 1)];
    let clients = vec![client(1, "Fallback", None), client(2, "Four", Some("4"))];
    assert!(reconcile_projects(&projects, &vec![], &targets, &clients, 1, 999).is_empty());
    assert!(is_excluded_project(&projects[1], &vec![], 999));
    assert!(!is_excluded_project(&source_project(3, "Tempo", 0, 1), &vec![], 999));
}

#[test]
fn excluded_customer_and_template_subprojects_are_skipped() {
    let projects = vec![source_project(1, "Internal", 77, 10), source_project(2, "Has template", 0, 11)];
    let subs = vec![subproject(9, 2, Status::Optie, true)];
    assert!(reconcile_projects(&projects, &subs, &vec![], &vec![], 1, 77).is_empty());
}

#[test]
fn project_without_customer_goes_to_fallback_client() {
    let projects = vec![source_project(3, "Gig", 0, 1234)];
    let subs = vec![subproject(1, 3, Status::Retour, false)];
    let actions = reconcile_projects(&projects, &subs, &vec![], &vec![], 555, 999);
    assert_eq!(actions.len(), 1);
    match &actions[0] {
        ProjectAction::Create(c) => {
            assert_eq!(c.client_id, 555);
            assert_eq!(c.name, "Gig");
            assert_eq!(c.notes, "3");
            assert_eq!(c.code, "1234");
            assert!(!c.is_active);
            assert!(c.is_billable);
            assert_eq!(c.bill_by, "none");
            assert_eq!(c.budget_by, "none");
        }
        _ => panic!("expected a create"),
    }
    let targets = vec![target_project(60, "Gig", Some("1234"), false, Some("3"), 555)];
    let clients = vec![client(555, "Fallback", Some("n.v.t."))];
    assert!(reconcile_projects(&projects, &subs, &targets, &clients, 555, 999).is_empty());
}

#[test]
fn unresolved_customer_skips_the_create() {
    let projects = vec![source_project(3, "Gig", 8, 1), source_project(4, "Gig 2", 9, 2)];
    let clients = vec![client(20, "Nine", Some("9"))];
    let actions = reconcile_projects(&projects, &vec![], &vec![], &clients, 555, 999);
    assert_eq!(actions.len(), 1);
    match &actions[0] {
        ProjectAction::Create(c) => assert_eq!((c.client_id, c.notes.as_str()), (20, "4")),
        _ => panic!("expected a create"),
    }
    assert_eq!(resolve_client_id(&clients, 9, 555), Some(20));
    assert_eq!(resolve_client_id(&clients, 8, 555), None);
    assert_eq!(resolve_client_id(&clients, 0, 555), Some(555));
}

#[test]
fn differing_name_and_code_give_two_updates() {
    let projects = vec![source_project(3, "New", 0, 200)];
    let targets = vec![target_project(60, "Old", Some("100"), true, Some("3"), 555)];
    let clients = vec![client(555, "Fallback", None)];
    let actions = reconcile_projects(&projects, &vec![], &targets, &clients, 555, 999);
    assert_eq!(actions.len(), 2);
    match (&actions[0], &actions[1]) {
        (ProjectAction::Update(a, ua), ProjectAction::Update(b, ub)) => {
            assert_eq!((*a, *b), (60, 60));
            assert_eq!(ua.name.as_deref(), Some("New"));
            assert!(ua.code.is_none() && ua.client_id.is_none() && ua.is_active.is_none() && ua.notes.is_none());
            assert_eq!(ub.code.as_deref(), Some("200"));
            assert!(ub.name.is_none() && ub.client_id.is_none() && ub.is_active.is_none() && ub.notes.is_none());
        }
        _ => panic!("expected two updates"),
    }
}

#[test]
fn missing_code_is_not_compared() {
    let projects = vec![source_project(3, "Same", 0, 200)];
    let targets = vec![target_project(60, "Same", None, true, Some("3"), 555)];
    assert!(reconcile_projects(&projects, &vec![], &targets, &vec![], 555, 999).is_empty());
}

#[test]
fn project_moves_to_the_customers_client() {
    let projects = vec![source_project(3, "Gig", 6, 1)];
    let targets = vec![target_project(60, "Gig", Some("1"), true, Some("3"), 20)];
    let clients = vec![client(20, "Five", Some("5")), client(21, "Six", Some("6"))];
    let actions = reconcile_projects(&projects, &vec![], &targets, &clients, 555, 999);
    assert_eq!(actions.len(), 1);
    match &actions[0] {
        ProjectAction::Update(id, u) => assert_eq!((*id, u.client_id), (60, Some(21))),
        _ => panic!("expected an update"),
    }
}

#[test]
fn unresolved_move_still_archives() {
    let projects = vec![source_project(3, "Gig", 6, 1)];
    let subs = vec![subproject(1, 3, Status::Geannuleerd, false)];
    let targets = vec![target_project(60, "Gig", Some("1"), true, Some("3"), 20)];
    let clients = vec![client(20, "Five", Some("5"))];
    let actions = reconcile_projects(&projects, &subs, &targets, &clients, 555, 999);
    assert_eq!(actions.len(), 1);
    match &actions[0] {
        ProjectAction::Update(id, u) => assert_eq!((*id, u.is_active), (60, Some(false))),
        _ => panic!("expected an update"),
    }
}

#[test]
fn inactive_project_is_not_reactivated() {
    let projects = vec![source_project(3, "Gig", 0, 1)];
    let targets = vec![target_project(60, "Gig", Some("1"), false, Some("3"), 555)];
    assert!(reconcile_projects(&projects, &vec![], &targets, &vec![], 555, 999).is_empty());
}

#[test]
fn project_reconciliation_is_idempotent() {
    let projects = vec![
        source_project(1, "One", 0, 11),
        source_project(2, "Two", 6, 12),
        source_project(3, "Three", 5, 13),
    ];
    let subs = vec![subproject(1, 2, Status::Retour, false), subproject(2, 2, Status::Retour, false)];
    let mut targets = vec![
        target_project(60, "Zwei", Some("99"), true, Some("2"), 20),
        target_project(61, "x", None, true, None, 20),
    ];
    let clients = vec![client(20, "Five", Some("5")), client(21, "Six", Some("6"))];
    let first = reconcile_projects(&projects, &subs, &targets, &clients, 555, 999);
    assert_eq!(first.len(), 6);
    apply_projects(&mut targets, first);
    assert!(reconcile_projects(&projects, &subs, &targets, &clients, 555, 999).is_empty());
}

#[test]
fn template_mention_is_a_substring_test() {
    assert!(mentions_template("demo template"));
    assert!(mentions_template("templates"));
    assert!(!mentions_template("Template"));
    assert!(!mentions_template("temp late"));
    assert!(!mentions_template(""));
}

#[test]
fn fallback_client_with_numeric_cross_ref_keeps_its_projects() {
    let projects = vec![source_project(3, "Gig", 0, 1)];
    let targets = vec![target_project(60, "Gig", Some("1"), true, Some("3"), 555)];
    let clients = vec![client(555, "Fallback", Some("5"))];
    assert!(reconcile_projects(&projects, &vec![], &targets, &clients, 555, 999).is_empty());
    assert!(skipped_projects(&projects, &vec![], &targets, &clients, 555, 999).is_empty());
}

#[test]
fn move_to_fallback_client_settles_in_one_run() {
    let projects = vec![source_project(3, "Gig", 0, 1)];
    let mut targets = vec![target_project(60, "Gig", Some("1"), true, Some("3"), 20)];
    let clients = vec![client(20, "Five", Some("5")), client(555, "Fallback", Some("7"))];
    let first = reconcile_projects(&projects, &vec![], &targets, &clients, 555, 999);
    assert_eq!(first.len(), 1);
    match &first[0] {
        ProjectAction::Update(id, u) => assert_eq!((*id, u.client_id), (60, Some(555))),
        _ => panic!("expected an update"),
    }
    apply_projects(&mut targets, first);
    assert!(reconcile_projects(&projects, &vec![], &targets, &clients, 555, 999).is_empty());
}

#[test]
fn skipped_projects_are_reported_with_a_reason() {
    let projects = vec![
        source_project(1, "No client", 8, 1),
        source_project(2, "Missing current", 9, 2),
        source_project(3, "Unlinked current", 9, 3),
        source_project(4, "No client to move to", 8, 4),
        source_project(5, "Fine", 9, 5),
        source_project(6, "A template", 8, 6),
    ];
    let targets = vec![
        target_project(60, "Missing current", Some("2"), true, Some("2"), 77),
        target_project(61, "Unlinked current", Some("3"), true, Some("3"), 21),
        target_project(62, "No client to move to", Some("4"), true, Some("4"), 20),
        target_project(63, "Fine", Some("5"), true, Some("5"), 20),
    ];
    let clients = vec![client(20, "Nine", Some("9")), client(21, "Bare", None)];
    let skips = skipped_projects(&projects, &vec![], &targets, &clients, 555, 999);
    assert_eq!(
        skips,
        vec![
            Skip { project_id: 1, reason: SkipReason::NoClientForCreate },
            Skip { project_id: 2, reason: SkipReason::CurrentClientMissing },
            Skip { project_id: 3, reason: SkipReason::CurrentClientUnlinked },
            Skip { project_id: 4, reason: SkipReason::NoClientForMove },
        ]
    );
    assert_eq!(project_skip_of(&projects[4], &vec![], &targets, &clients, 555, 999), None);
    let actions = reconcile_projects(&projects, &vec![], &targets, &clients, 555, 999);
    assert!(actions.is_empty());
}
