use vstd::prelude::*;

verus! {

#[verifier::external_type_specification]
#[verifier::external_body]
pub struct ExJsonValue(serde_json::Value);

/// Connection settings of the billing system, and the id of the client that
/// projects without a customer are filed under.
pub struct HarvestClient {
    pub token: String,
    pub account_id: String,
    pub user_agent: String,
    pub nvt_client: i64,
}

impl HarvestClient {
    pub fn new(token: String, account_id: String, user_agent: String, nvt_client: i64) -> (r: Self)
        ensures
            r.token@ == token@,
            r.account_id@ == account_id@,
            r.user_agent@ == user_agent@,
            r.nvt_client == nvt_client,
    {
        Self { token, account_id, user_agent, nvt_client }
    }
}

/// A client to create; `address` holds the source contact id.
pub struct CreateClient {
    pub name: String,
    pub address: String,
}

/// A patch of a client: only the fields that are present change.
pub struct UpdateClient {
    pub name: Option<String>,
    pub address: Option<String>,
}

/// One page of clients.
pub struct Clients {
    pub clients: Vec<ClientData>,
    pub per_page: i64,
    pub total_pages: i64,
    pub total_entries: i64,
    pub next_page: Option<serde_json::Value>,
    pub previous_page: Option<serde_json::Value>,
    pub page: i64,
    pub links: Links,
}

impl Clients {
    /// The page holds every client: fewer entries exist than fit on a page.
    pub fn is_complete(&self) -> (r: bool)
        ensures
            r == (self.total_entries < self.per_page),
    {
        self.total_entries < self.per_page
    }
}

/// A client of the billing system; `address` may hold a source contact id.
pub struct ClientData {
    pub id: i64,
    pub name: String,
    pub is_active: bool,
    pub address: Option<String>,
    pub statement_key: String,
    pub created_at: String,
    pub updated_at: String,
}

/// What reconciliation reads of a client.
pub ghost struct ClientView {
    pub id: i64,
    pub name: Seq<char>,
    pub address: Option<Seq<char>>,
}

impl View for ClientData {
    type V = ClientView;

    open spec fn view(&self) -> ClientView {
        ClientView { id: self.id, name: self.name@, address: self.address.deep_view() }
    }
}

pub open spec fn clients_view(clients: Seq<ClientData>) -> Seq<ClientView> {
    clients.map_values(|c: ClientData| c@)
}

pub struct Links {
    pub first: String,
    pub next: Option<serde_json::Value>,
    pub previous: Option<serde_json::Value>,
    pub last: String,
}

/// A project to create; `notes` holds the source project id and `code` its number.
pub struct CreateProject {
    pub client_id: i64,
    pub name: String,
    pub notes: String,
    pub code: String,
    pub is_active: bool,
    pub is_billable: bool,
    pub bill_by: String,
    pub budget_by: String,
}

pub ghost struct CreateProjectView {
    pub client_id: i64,
    pub name: Seq<char>,
    pub notes: Seq<char>,
    pub code: Seq<char>,
    pub is_active: bool,
    pub is_billable: bool,
    pub bill_by: Seq<char>,
    pub budget_by: Seq<char>,
}

impl View for CreateProject {
    type V = CreateProjectView;

    open spec fn view(&self) -> CreateProjectView {
        CreateProjectView {
            client_id: self.client_id,
            name: self.name@,
            notes: self.notes@,
            code: self.code@,
            is_active: self.is_active,
            is_billable: self.is_billable,
            bill_by: self.bill_by@,
            budget_by: self.budget_by@,
        }
    }
}

/// A patch of a project: only the fields that are present change.
pub struct UpdateProject {
    pub client_id: Option<i64>,
    pub name: Option<String>,
    pub notes: Option<String>,
    pub code: Option<String>,
    pub is_active: Option<bool>,
}

pub ghost struct UpdateProjectView {
    pub client_id: Option<i64>,
    pub name: Option<Seq<char>>,
    pub notes: Option<Seq<char>>,
    pub code: Option<Seq<char>>,
    pub is_active: Option<bool>,
}

impl View for UpdateProject {
    type V = UpdateProjectView;

    open spec fn view(&self) -> UpdateProjectView {
        UpdateProjectView {
            client_id: self.client_id,
            name: self.name.deep_view(),
            notes: self.notes.deep_view(),
            code: self.code.deep_view(),
            is_active: self.is_active,
        }
    }
}

/// The billing mode that new projects get.
pub fn default_bill_by() -> (r: String)
    ensures
        r@ == "none"@,
{
    "none".to_string()
}

/// The budget mode that new projects get.
pub fn budget_by() -> (r: String)
    ensures
        r@ == "none"@,
{
    "none".to_string()
}

/// New projects are billable.
pub fn is_billable() -> (r: bool)
    ensures
        r,
{
    true
}

/// One page of projects.
pub struct Projects {
    pub projects: Vec<Project>,
    pub per_page: i64,
    pub total_pages: i64,
    pub total_entries: i64,
    pub next_page: Option<serde_json::Value>,
    pub previous_page: Option<serde_json::Value>,
    pub page: i64,
    pub links: Links,
}

impl Projects {
    /// The page holds every project: fewer entries exist than fit on a page.
    pub fn is_complete(&self) -> (r: bool)
        ensures
            r == (self.total_entries < self.per_page),
    {
        self.total_entries < self.per_page
    }
}

/// A project of the billing system; `notes` may hold a source project id.
pub struct Project {
    pub id: i64,
    pub name: String,
    pub code: Option<String>,
    pub is_active: bool,
    pub notes: Option<String>,
    pub client: ProjectClient,
}

pub struct ProjectClient {
    pub id: i64,
    pub name: String,
}

/// What reconciliation reads of a project.
pub ghost struct ProjectView {
    pub id: i64,
    pub name: Seq<char>,
    pub code: Option<Seq<char>>,
    pub is_active: bool,
    pub notes: Option<Seq<char>>,
    pub client_id: i64,
}

impl View for Project {
    type V = ProjectView;

    open spec fn view(&self) -> ProjectView {
        ProjectView {
            id: self.id,
            name: self.name@,
            code: self.code.deep_view(),
            is_active: self.is_active,
            notes: self.notes.deep_view(),
            client_id: self.client.id,
        }
    }
}

pub open spec fn projects_view(projects: Seq<Project>) -> Seq<ProjectView> {
    projects.map_values(|p: Project| p@)
}

} // verus!
