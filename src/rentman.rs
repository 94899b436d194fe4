use vstd::prelude::*;
use crate::xref::{parsed_i64, parse_i64};

verus! {

/// Connection settings of the scheduling system, and the id of the customer
/// whose projects are internal work and never billed.
pub struct RentmanClient {
    pub token: String,
    pub btdb_id: i64,
}

impl RentmanClient {
    pub fn new(token: String, btdb_id: i64) -> (r: Self)
        ensures
            r.token@ == token@,
            r.btdb_id == btdb_id,
    {
        Self { token, btdb_id }
    }
}

/// One page of contacts.
pub struct Contacts {
    pub data: Vec<ContactsData>,
    pub item_count: i64,
    pub limit: i64,
    pub offset: i64,
}

impl Contacts {
    /// The page holds every contact: fewer items exist than the page limit.
    pub fn is_complete(&self) -> (r: bool)
        ensures
            r == (self.item_count < self.limit),
    {
        self.item_count < self.limit
    }
}

/// A contact of the scheduling system; `name` is what billing calls the client.
pub struct ContactsData {
    pub id: i64,
    pub created: String,
    pub modified: String,
    pub displayname: String,
    pub firstname: String,
    pub surfix: String,
    pub surname: String,
    pub code: String,
    pub name: String,
}

/// One page of projects.
pub struct Projects {
    pub data: Vec<ProjectsData>,
    pub item_count: i64,
    pub limit: i64,
    pub offset: i64,
}

impl Projects {
    /// The page holds every project: fewer items exist than the page limit.
    pub fn is_complete(&self) -> (r: bool)
        ensures
            r == (self.item_count < self.limit),
    {
        self.item_count < self.limit
    }
}

/// A project of the scheduling system. `customer` is a reference such as
/// `/contacts/12`; `customer_id` is derived from it once it is fetched.
pub struct ProjectsData {
    pub id: i64,
    pub displayname: String,
    pub customer: Option<String>,
    pub customer_id: i64,
    pub name: String,
    pub number: i64,
    pub tags: String,
    pub planperiod_start: Option<String>,
}

pub uninterp spec fn trimmed_end(s: Seq<char>) -> Seq<char>;

/// `s` with every match of a non-empty `from`, found leftmost first and without
/// overlap, replaced by `to`.
pub open spec fn replaced(s: Seq<char>, from: Seq<char>, to: Seq<char>) -> Seq<char>
    decreases s.len(),
{
    if from.len() == 0 || s.len() < from.len() {
        s
    } else if s.take(from.len() as int) == from {
        to + replaced(s.skip(from.len() as int), from, to)
    } else {
        seq![s[0]] + replaced(s.skip(1), from, to)
    }
}

/// Relies on `str::trim_end`: the text without its trailing whitespace.
#[verifier::external_body]
fn trim_end_text(s: &str) -> (r: String)
    ensures
        r@ == trimmed_end(s@),
{
    s.trim_end().to_string()
}

/// Relies on `str::replace` with a non-empty `&str` pattern: every match of
/// `from`, leftmost first and without overlap, replaced by `to`.
#[verifier::external_body]
fn replace_text(s: &str, from: &str, to: &str) -> (r: String)
    requires
        from@.len() > 0,
    ensures
        r@ == replaced(s@, from@, to@),
{
    s.replace(from, to)
}

/// The integer that a text reads as, or 0 when it reads as none.
pub open spec fn value_or_zero(s: Seq<char>) -> i64 {
    match parsed_i64(s) {
        Some(v) => v,
        None => 0,
    }
}

/// The customer id that a customer reference names: the reference without
/// `/contacts/`, read as an integer; 0 when there is no reference or it reads as none.
pub open spec fn customer_id_spec(customer: Option<Seq<char>>) -> i64 {
    let text = match customer {
        Some(c) => c,
        None => "0"@,
    };
    value_or_zero(replaced(text, "/contacts/"@, ""@))
}

/// The integer that a text reads as, or 0 when it reads as none.
pub fn int_or_zero(s: &str) -> (r: i64)
    ensures
        r == value_or_zero(s@),
{
    match parse_i64(s) {
        Some(v) => v,
        None => 0,
    }
}

/// The customer id of a customer reference (see `customer_id_spec`).
pub fn customer_id_of(customer: &Option<String>) -> (r: i64)
    ensures
        r == customer_id_spec(customer.deep_view()),
{
    proof {
        reveal_strlit("/contacts/");
    }
    let stripped = match customer {
        Some(c) => replace_text(c.as_str(), "/contacts/", ""),
        None => replace_text("0", "/contacts/", ""),
    };
    int_or_zero(stripped.as_str())
}

impl ProjectsData {
    /// Fills the derived fields after a fetch: the name loses its trailing
    /// whitespace and `customer_id` is read from `customer`.
    pub fn derive_fields(&mut self)
        ensures
            final(self).name@ == trimmed_end(old(self).name@),
            final(self).customer_id == customer_id_spec(old(self).customer.deep_view()),
            final(self).id == old(self).id,
            final(self).number == old(self).number,
            final(self).customer == old(self).customer,
            final(self).displayname == old(self).displayname,
            final(self).tags == old(self).tags,
            final(self).planperiod_start == old(self).planperiod_start,
    {
        self.name = trim_end_text(self.name.as_str());
        self.customer_id = customer_id_of(&self.customer);
    }
}

/// A list of statuses.
pub struct Statuses {
    pub data: Vec<StatusesData>,
    pub item_count: i64,
    pub limit: i64,
    pub offset: i64,
}

pub struct StatusesData {
    pub id: i64,
    pub displayname: String,
    pub name: String,
}

/// One page of subprojects.
pub struct Subprojects {
    pub data: Vec<SubprojectData>,
    pub item_count: i64,
    pub limit: i64,
    pub offset: i64,
}

/// A subproject. `project` is a reference such as `/projects/7`;
/// `project_id` is derived from it once it is fetched.
pub struct SubprojectData {
    pub id: i64,
    pub displayname: String,
    pub project: String,
    pub project_id: i64,
    pub order: i64,
    pub name: String,
    pub status: Status,
    pub is_template: bool,
}

/// The project id that a project reference names: the reference without
/// `/projects/`, read as an integer; none when it reads as none.
pub open spec fn project_id_spec(project: Seq<char>) -> Option<i64> {
    parsed_i64(replaced(project, "/projects/"@, ""@))
}

/// The project id of a project reference (see `project_id_spec`).
pub fn project_id_of(project: &String) -> (r: Option<i64>)
    ensures
        r == project_id_spec(project@),
{
    proof {
        reveal_strlit("/projects/");
    }
    let stripped = replace_text(project.as_str(), "/projects/", "");
    parse_i64(stripped.as_str())
}

impl SubprojectData {
    /// Fills `project_id` from `project`; false, with nothing changed, when the
    /// reference names no project.
    pub fn derive_project_id(&mut self) -> (r: bool)
        ensures
            r == project_id_spec(old(self).project@).is_some(),
            r ==> final(self).project_id == project_id_spec(old(self).project@).unwrap(),
            !r ==> final(self).project_id == old(self).project_id,
            final(self).id == old(self).id,
            final(self).project == old(self).project,
            final(self).status == old(self).status,
            final(self).is_template == old(self).is_template,
            final(self).name == old(self).name,
            final(self).displayname == old(self).displayname,
            final(self).order == old(self).order,
    {
        match project_id_of(&self.project) {
            Some(id) => {
                self.project_id = id;
                true
            },
            None => false,
        }
    }
}

/// The workflow state of a subproject.
#[derive(Debug, Clone, Copy, PartialEq, Eq, Structural)]
pub enum Status {
    Optie,
    Geannuleerd,
    Bevestigd,
    Klaargezet,
    OpLocatie,
    Retour,
    Aanvraag,
    Concept,
    Factureren,
}

impl Status {
    /// A cancelled or returned subproject is inactive; every other state is active.
    pub open spec fn is_inactive(self) -> bool {
        self == Status::Geannuleerd || self == Status::Retour
    }
}

} // verus!
