use vstd::prelude::*;
use crate::harvest::{ClientData, ClientView, CreateClient, UpdateClient, clients_view};
use crate::rentman::ContactsData;
use crate::xref::{
    first_index, i64_to_text, int_text, is_first, is_linked_to, lemma_first_index_is,
    lemma_first_index_none, lemma_first_index_some, lemma_parse_int_text, links_to, scan_first,
};

verus! {

/// A write to the billing system's clients.
pub enum ClientAction {
    Create(CreateClient),
    Update(i64, UpdateClient),
}

#[allow(inconsistent_fields)]
pub ghost enum ClientActionView {
    Create { name: Seq<char>, address: Seq<char> },
    Update { id: i64, name: Option<Seq<char>>, address: Option<Seq<char>> },
}

impl View for ClientAction {
    type V = ClientActionView;

    open spec fn view(&self) -> ClientActionView {
        match self {
            ClientAction::Create(c) => ClientActionView::Create { name: c.name@, address: c.address@ },
            ClientAction::Update(id, u) => ClientActionView::Update {
                id: *id,
                name: u.name.deep_view(),
                address: u.address.deep_view(),
            },
        }
    }
}

pub open spec fn client_actions_view(actions: Seq<ClientAction>) -> Seq<ClientActionView> {
    actions.map_values(|a: ClientAction| a@)
}

/// Client `k` links to the contact id `id`.
pub open spec fn linked_to(clients: Seq<ClientView>, id: i64) -> spec_fn(int) -> bool {
    |k: int| links_to(clients[k].address, id)
}

/// The first client that links to the contact id `id`.
pub open spec fn linked_client(clients: Seq<ClientView>, id: i64) -> Option<int> {
    first_index(clients.len() as int, linked_to(clients, id))
}

/// A rename of the client that a contact is linked to, where the names differ.
pub open spec fn update_for(clients: Seq<ClientView>) -> spec_fn(ContactsData) -> Option<ClientActionView> {
    |c: ContactsData|
        match linked_client(clients, c.id) {
            Some(k) => if clients[k].name != c.name@ {
                Some(ClientActionView::Update { id: clients[k].id, name: Some(c.name@), address: None })
            } else {
                None
            },
            None => None,
        }
}

/// A new client for a contact that no client links to.
pub open spec fn create_for(clients: Seq<ClientView>) -> spec_fn(ContactsData) -> Option<ClientActionView> {
    |c: ContactsData|
        match linked_client(clients, c.id) {
            Some(_) => None,
            None => Some(ClientActionView::Create { name: c.name@, address: int_text(c.id as int) }),
        }
}

/// The writes that bring the clients in line with the contacts: the renames in
/// the order of the contacts, then the new clients in the same order.
pub open spec fn client_plan(contacts: Seq<ContactsData>, clients: Seq<ClientView>) -> Seq<ClientActionView> {
    contacts.filter_map(update_for(clients)) + contacts.filter_map(create_for(clients))
}

/// No client's cross-reference reads as the contact's id.
pub open spec fn unlinked(clients: Seq<ClientView>) -> spec_fn(ContactsData) -> bool {
    |c: ContactsData| forall|k: int| 0 <= k < clients.len() ==> !links_to(#[trigger] clients[k].address, c.id)
}

/// The new client for a contact: its name, and its id as the cross-reference.
pub open spec fn new_client(c: ContactsData) -> ClientActionView {
    ClientActionView::Create { name: c.name@, address: int_text(c.id as int) }
}

pub open spec fn new_clients(contacts: Seq<ContactsData>) -> Seq<ClientActionView> {
    contacts.map_values(|c: ContactsData| new_client(c))
}

/// Each contact whose id no client's cross-reference reads as yields exactly one
/// new client, and no other contact yields one: the plan is the renames, none of
/// which creates, followed by one new client per unlinked contact, in order.
pub proof fn lemma_create_completeness(contacts: Seq<ContactsData>, clients: Seq<ClientView>)
    ensures
        contacts.filter_map(create_for(clients)) == new_clients(contacts.filter(unlinked(clients))),
        client_plan(contacts, clients) == contacts.filter_map(update_for(clients))
            + new_clients(contacts.filter(unlinked(clients))),
        forall|i: int| 0 <= i < contacts.filter_map(update_for(clients)).len()
            ==> #[trigger] contacts.filter_map(update_for(clients))[i] is Update,
    decreases contacts.len(),
{
    if contacts.len() > 0 {
        let rest = contacts.drop_last();
        let c = contacts.last();
        lemma_create_completeness(rest, clients);
        let p = linked_to(clients, c.id);
        if exists|k: int| 0 <= k < clients.len() && #[trigger] p(k) {
            let k = choose|k: int| 0 <= k < clients.len() && #[trigger] p(k);
            lemma_first_index_some(clients.len() as int, p, k);
            assert(!unlinked(clients)(c));
        } else {
            lemma_first_index_none(clients.len() as int, p);
            assert forall|k: int| 0 <= k < clients.len() implies !links_to(#[trigger] clients[k].address, c.id) by {
                assert(!p(k));
            }
            assert(unlinked(clients)(c));
        }
        let u = unlinked(clients);
        reveal(Seq::filter);
        let rf = rest.filter(u);
        assert(contacts.filter(u) == if u(c) { rf.push(c) } else { rf });
        assert(new_clients(rf.push(c)) =~= new_clients(rf).push(new_client(c)));
        assert(contacts.filter_map(create_for(clients)) == if u(c) {
            rest.filter_map(create_for(clients)) + seq![new_client(c)]
        } else {
            rest.filter_map(create_for(clients))
        });
        assert(new_clients(contacts.filter(unlinked(clients))) =~= contacts.filter_map(create_for(clients)));
        let ups = contacts.filter_map(update_for(clients));
        assert forall|i: int| 0 <= i < ups.len() implies #[trigger] ups[i] is Update by {
            if i < rest.filter_map(update_for(clients)).len() {
                assert(ups[i] == rest.filter_map(update_for(clients))[i]);
            }
        }
    }
}

/// The clients after one write: a rename changes every client with the given id;
/// a new client, with the id that the billing system gave it, comes last.
pub open spec fn apply_client_action(clients: Seq<ClientView>, a: ClientActionView, new_id: i64) -> Seq<ClientView> {
    match a {
        ClientActionView::Create { name, address } => clients.push(ClientView { id: new_id, name, address: Some(address) }),
        ClientActionView::Update { id, name, address } => clients.map_values(
            |c: ClientView|
                if c.id == id {
                    ClientView {
                        id: c.id,
                        name: match name {
                            Some(n) => n,
                            None => c.name,
                        },
                        address: match address {
                            Some(a) => Some(a),
                            None => c.address,
                        },
                    }
                } else {
                    c
                },
        ),
    }
}

/// The clients after the writes `actions`, in order; the `i`-th write, if it
/// creates, gets the id `new_ids[i]`.
pub open spec fn apply_client_actions(
    clients: Seq<ClientView>,
    actions: Seq<ClientActionView>,
    new_ids: Seq<i64>,
) -> Seq<ClientView>
    decreases actions.len(),
{
    if actions.len() == 0 {
        clients
    } else {
        apply_client_action(
            apply_client_actions(clients, actions.drop_last(), new_ids),
            actions.last(),
            new_ids[actions.len() - 1],
        )
    }
}

pub open spec fn distinct_contact_ids(contacts: Seq<ContactsData>) -> bool {
    forall|i: int, j: int| 0 <= i < contacts.len() && 0 <= j < contacts.len() && i != j
        ==> #[trigger] contacts[i].id != #[trigger] contacts[j].id
}

pub open spec fn distinct_client_ids(clients: Seq<ClientView>) -> bool {
    forall|i: int, j: int| 0 <= i < clients.len() && 0 <= j < clients.len() && i != j
        ==> #[trigger] clients[i].id != #[trigger] clients[j].id
}

proof fn lemma_linked_client(clients: Seq<ClientView>, id: i64)
    ensures
        linked_client(clients, id) matches Some(k) ==> is_first(clients.len() as int, linked_to(clients, id), k),
{
}

proof fn lemma_text_links(x: i64, y: i64)
    ensures
        links_to(Some(int_text(x as int)), y) == (x == y),
{
    lemma_parse_int_text(x);
}

pub(crate) proof fn lemma_filter_member<A>(s: Seq<A>, pred: spec_fn(A) -> bool, q: int)
    requires
        0 <= q < s.filter(pred).len(),
    ensures
        exists|j: int| 0 <= j < s.len() && s[j] == s.filter(pred)[q],
    decreases s.len(),
{
    reveal(Seq::filter);
    let rest = s.drop_last();
    if q < rest.filter(pred).len() {
        lemma_filter_member(rest, pred, q);
        let j = choose|j: int| 0 <= j < rest.len() && rest[j] == rest.filter(pred)[q];
        assert(s[j] == s.filter(pred)[q]);
    } else {
        assert(s[s.len() - 1] == s.filter(pred)[q]);
    }
}

pub(crate) proof fn lemma_filter_map_none<A, B>(s: Seq<A>, f: spec_fn(A) -> Option<B>)
    requires
        forall|i: int| 0 <= i < s.len() ==> #[trigger] f(s[i]) is None,
    ensures
        s.filter_map(f) == Seq::<B>::empty(),
    decreases s.len(),
{
    if s.len() > 0 {
        let rest = s.drop_last();
        assert forall|i: int| 0 <= i < rest.len() implies #[trigger] f(rest[i]) is None by {
            assert(rest[i] == s[i]);
        }
        lemma_filter_map_none(rest, f);
        assert(f(s[s.len() - 1]) is None);
    }
}

/// After the renames of the first `i` contacts, each linked contact's client
/// carries its name; no other client has changed.
proof fn lemma_renames(contacts: Seq<ContactsData>, clients: Seq<ClientView>, new_ids: Seq<i64>, i: int)
    requires
        distinct_contact_ids(contacts),
        distinct_client_ids(clients),
        0 <= i <= contacts.len(),
    ensures
        ({
            let g = apply_client_actions(clients, contacts.take(i).filter_map(update_for(clients)), new_ids);
            &&& g.len() == clients.len()
            &&& forall|k: int| 0 <= k < clients.len() ==> #[trigger] g[k].id == clients[k].id && g[k].address == clients[k].address
            &&& forall|j: int| 0 <= j < i ==> (#[trigger] linked_client(clients, contacts[j].id) matches Some(k) ==> g[k].name == contacts[j].name@)
            &&& forall|k: int| 0 <= k < clients.len() && (forall|j: int| 0 <= j < i ==> #[trigger] linked_client(clients, contacts[j].id) != Some(k))
                ==> g[k].name == clients[k].name
        }),
    decreases i,
{
    let f = update_for(clients);
    if i == 0 {
        assert(contacts.take(0).filter_map(f) =~= Seq::<ClientActionView>::empty());
    } else {
        lemma_renames(contacts, clients, new_ids, i - 1);
        let xs = contacts.take(i - 1).filter_map(f);
        let ys = contacts.take(i).filter_map(f);
        let g = apply_client_actions(clients, xs, new_ids);
        let c = contacts[i - 1];
        assert(contacts.take(i).drop_last() =~= contacts.take(i - 1));
        assert(contacts.take(i).last() == c);
        lemma_linked_client(clients, c.id);
        assert forall|j: int| 0 <= j < i - 1 implies (#[trigger] linked_client(clients, contacts[j].id) matches Some(k)
            ==> linked_client(clients, c.id) != Some(k)) by {
            lemma_linked_client(clients, contacts[j].id);
            if let Some(k) = linked_client(clients, contacts[j].id) {
                if linked_client(clients, c.id) == Some(k) {
                    assert(linked_to(clients, c.id)(k));
                    assert(linked_to(clients, contacts[j].id)(k));
                    assert(contacts[j].id != contacts[i - 1].id);
                }
            }
        }
        match f(c) {
            Some(a) => {
                assert(ys == xs + seq![a]);
                assert(ys.drop_last() =~= xs);
                let g2 = apply_client_actions(clients, ys, new_ids);
                assert(g2 == apply_client_action(g, a, new_ids[ys.len() - 1]));
                let k = linked_client(clients, c.id)->Some_0;
                assert forall|k2: int| 0 <= k2 < clients.len() implies (g2[k2] == if k2 == k {
                    ClientView { name: c.name@, ..g[k2] }
                } else {
                    g[k2]
                }) by {
                    if k2 != k {
                        assert(clients[k2].id != clients[k].id);
                    }
                }
            },
            None => {
                assert(ys == xs);
            },
        }
    }
}

/// After the renames and the first `m` new clients, the new clients stand after
/// the old ones, one per unlinked contact, in order.
proof fn lemma_new_clients(contacts: Seq<ContactsData>, clients: Seq<ClientView>, new_ids: Seq<i64>, m: int)
    requires
        0 <= m <= contacts.filter(unlinked(clients)).len(),
    ensures
        ({
            let ups = contacts.filter_map(update_for(clients));
            let uf = contacts.filter(unlinked(clients));
            let g = apply_client_actions(clients, ups, new_ids);
            let h = apply_client_actions(clients, ups + contacts.filter_map(create_for(clients)).take(m), new_ids);
            &&& h.len() == g.len() + m
            &&& forall|k: int| 0 <= k < g.len() ==> #[trigger] h[k] == g[k]
            &&& forall|q: int| 0 <= q < m ==> #[trigger] h[g.len() + q].name == uf[q].name@
                && h[g.len() + q].address == Some(int_text(uf[q].id as int))
        }),
    decreases m,
{
    let ups = contacts.filter_map(update_for(clients));
    let cs = contacts.filter_map(create_for(clients));
    let uf = contacts.filter(unlinked(clients));
    lemma_create_completeness(contacts, clients);
    assert(cs.len() == uf.len());
    if m == 0 {
        assert(ups + cs.take(0) =~= ups);
    } else {
        lemma_new_clients(contacts, clients, new_ids, m - 1);
        let xs = ups + cs.take(m - 1);
        let ys = ups + cs.take(m);
        assert(ys.drop_last() =~= xs);
        assert(ys.last() == new_client(uf[m - 1]));
    }
}

/// Reconciling the clients twice, with the first plan's writes applied in
/// between, leaves nothing to do: the second plan is empty. This holds where the
/// contacts' ids are distinct and the clients' ids are distinct, whatever ids the
/// new clients get.
pub proof fn lemma_clients_idempotent(contacts: Seq<ContactsData>, clients: Seq<ClientView>, new_ids: Seq<i64>)
    requires
        distinct_contact_ids(contacts),
        distinct_client_ids(clients),
    ensures
        client_plan(contacts, apply_client_actions(clients, client_plan(contacts, clients), new_ids))
            == Seq::<ClientActionView>::empty(),
{
    let n = clients.len() as int;
    let ups = contacts.filter_map(update_for(clients));
    let cs = contacts.filter_map(create_for(clients));
    let u = unlinked(clients);
    let uf = contacts.filter(u);
    lemma_create_completeness(contacts, clients);
    lemma_renames(contacts, clients, new_ids, contacts.len() as int);
    assert(contacts.take(contacts.len() as int) =~= contacts);
    lemma_new_clients(contacts, clients, new_ids, uf.len() as int);
    assert(cs.take(uf.len() as int) =~= cs);
    let g = apply_client_actions(clients, ups, new_ids);
    let fin = apply_client_actions(clients, client_plan(contacts, clients), new_ids);
    assert(fin == apply_client_actions(clients, ups + cs.take(uf.len() as int), new_ids));
    assert(g.len() == n);
    assert(fin.len() == n + uf.len());
    assert forall|i: int| 0 <= i < contacts.len() implies
        (#[trigger] linked_client(fin, contacts[i].id) matches Some(k) && fin[k].name == contacts[i].name@) by {
        let c = contacts[i];
        let pf = linked_to(fin, c.id);
        lemma_linked_client(clients, c.id);
        match linked_client(clients, c.id) {
            Some(k) => {
                assert forall|k2: int| 0 <= k2 <= k implies #[trigger] pf(k2) == linked_to(clients, c.id)(k2) by {
                    assert(fin[k2] == g[k2]);
                }
                lemma_first_index_is(fin.len() as int, pf, k);
            },
            None => {
                assert(u(c)) by {
                    if !u(c) {
                        let k = choose|k: int| 0 <= k < clients.len() && links_to(#[trigger] clients[k].address, c.id);
                        lemma_first_index_some(n, linked_to(clients, c.id), k);
                    }
                }
                contacts.lemma_filter_contains(u, i);
                let q0 = choose|q: int| 0 <= q < uf.len() && uf[q] == c;
                let same = |q: int| uf[q].id == c.id;
                lemma_first_index_some(uf.len() as int, same, q0);
                let q = first_index(uf.len() as int, same)->Some_0;
                lemma_filter_member(contacts, u, q);
                let j = choose|j: int| 0 <= j < contacts.len() && contacts[j] == uf[q];
                assert(j == i);
                assert forall|k2: int| 0 <= k2 < n + q implies !#[trigger] pf(k2) by {
                    if k2 < n {
                        assert(fin[k2] == g[k2]);
                        assert(!links_to(clients[k2].address, c.id));
                    } else {
                        let q2 = k2 - n;
                        assert(!same(q2));
                        assert(fin[g.len() + q2].name == uf[q2].name@);
                        assert(fin[g.len() + q2].address == Some(int_text(uf[q2].id as int)));
                        lemma_text_links(uf[q2].id, c.id);
                    }
                }
                lemma_text_links(c.id, c.id);
                assert(fin[g.len() + q].name == uf[q].name@);
                assert(fin[g.len() + q].address == Some(int_text(uf[q].id as int)));
                assert(pf(n + q));
                lemma_first_index_is(fin.len() as int, pf, n + q);
            },
        }
    }
    lemma_filter_map_none(contacts, update_for(fin));
    lemma_filter_map_none(contacts, create_for(fin));
}

/// The index of the first client whose cross-reference links to `id`.
pub fn find_linked_client(clients: &Vec<ClientData>, id: i64) -> (r: Option<usize>)
    ensures
        r matches Some(k) ==> linked_client(clients_view(clients@), id) == Some(k as int),
        r is None ==> linked_client(clients_view(clients@), id) is None,
{
    let ghost cv = clients_view(clients@);
    let ghost p = linked_to(cv, id);
    assert(cv.len() == clients.len());
    assert forall|i: int| 0 <= i < clients.len() implies #[trigger] p(i) == links_to(clients@[i].address.deep_view(), id) by {
        assert(cv[i] == clients@[i]@);
    }
    let links = |c: &ClientData| -> (b: bool)
        ensures
            b == links_to(c.address.deep_view(), id),
        {
            is_linked_to(&c.address, id)
        };
    scan_first(clients, Ghost(p), links)
}

/// Decides the writes that bring the billing system's clients in line with the
/// scheduling system's contacts (see `client_plan`).
pub fn reconcile_clients(contacts: &Vec<ContactsData>, clients: &Vec<ClientData>) -> (r: Vec<ClientAction>)
    ensures
        client_actions_view(r@) == client_plan(contacts@, clients_view(clients@)),
{
    let ghost cv = clients_view(clients@);
    let mut updates: Vec<ClientAction> = Vec::new();
    let mut creates: Vec<ClientAction> = Vec::new();
    let mut i: usize = 0;
    while i < contacts.len()
        invariant
            0 <= i <= contacts.len(),
            cv == clients_view(clients@),
            client_actions_view(updates@) == contacts@.take(i as int).filter_map(update_for(cv)),
            client_actions_view(creates@) == contacts@.take(i as int).filter_map(create_for(cv)),
        decreases contacts.len() - i,
    {
        let contact = &contacts[i];
        let ghost prefix = contacts@.take(i + 1);
        assert(prefix.drop_last() =~= contacts@.take(i as int));
        assert(prefix.last() == *contact);
        match find_linked_client(clients, contact.id) {
            Some(k) => {
                let client = &clients[k];
                assert(cv[k as int] == client@);
                if client.name != contact.name {
                    let a = ClientAction::Update(client.id, UpdateClient { name: Some(contact.name.clone()), address: None });
                    updates.push(a);
                    assert(client_actions_view(updates@) =~= prefix.filter_map(update_for(cv)));
                } else {
                    assert(client_actions_view(updates@) =~= prefix.filter_map(update_for(cv)));
                }
                assert(client_actions_view(creates@) =~= prefix.filter_map(create_for(cv)));
            },
            None => {
                let a = ClientAction::Create(CreateClient { name: contact.name.clone(), address: i64_to_text(contact.id) });
                creates.push(a);
                assert(client_actions_view(creates@) =~= prefix.filter_map(create_for(cv)));
                assert(client_actions_view(updates@) =~= prefix.filter_map(update_for(cv)));
            },
        }
        i += 1;
    }
    assert(contacts@.take(i as int) =~= contacts@);
    let ghost u = updates@;
    let ghost c = creates@;
    updates.append(&mut creates);
    assert(client_actions_view(updates@) =~= client_actions_view(u) + client_actions_view(c));
    updates
}

} // verus!
