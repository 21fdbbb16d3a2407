use vstd::prelude::*;

use crate::bytes::{bytes_eq, bytes_list_view, number_is_zero, numbers_equal};
use crate::model::{first_index, RegistryModel, StoreModel};
use crate::store::{opt_value, values_models, IdentityStore};
use crate::contract::is_owner;
use crate::types::{
    CallContext, ContractError, Identity, IdentityLink, IdentityModel, LinkModel, LinkRequest, LinkRequestModel, State,
    UnlinkRequest, UnlinkRequestModel, Value,
};

verus! {

pub open spec fn opt_identity(o: Option<Identity>) -> Option<IdentityModel> {
    match o {
        Some(v) => Some(v@),
        None => None,
    }
}

pub open spec fn opt_link(o: Option<IdentityLink>) -> Option<LinkModel> {
    match o {
        Some(v) => Some(v@),
        None => None,
    }
}

pub open spec fn opt_link_request(o: Option<LinkRequest>) -> Option<LinkRequestModel> {
    match o {
        Some(v) => Some(v@),
        None => None,
    }
}

pub open spec fn opt_unlink_request(o: Option<UnlinkRequest>) -> Option<UnlinkRequestModel> {
    match o {
        Some(v) => Some(v@),
        None => None,
    }
}

pub open spec fn identities_models(s: Seq<Identity>) -> Seq<IdentityModel> {
    s.map_values(|v: Identity| v@)
}

pub open spec fn link_requests_models(s: Seq<LinkRequest>) -> Seq<LinkRequestModel> {
    s.map_values(|v: LinkRequest| v@)
}

pub open spec fn unlink_requests_models(s: Seq<UnlinkRequest>) -> Seq<UnlinkRequestModel> {
    s.map_values(|v: UnlinkRequest| v@)
}

pub open spec fn linked_models(s: Seq<(Identity, IdentityLink)>) -> Seq<(IdentityModel, LinkModel)> {
    s.map_values(|p: (Identity, IdentityLink)| (p.0@, p.1@))
}

pub open spec fn stores_map(ss: Seq<IdentityStore>) -> Map<u64, StoreModel> {
    Map::new(
        |id: u64| true,
        |id: u64|
            if (id as int) < ss.len() {
                ss[id as int].model()
            } else {
                StoreModel::empty()
            },
    )
}

/// The registry's storage: its state, identities, keys and values, links and
/// requests, with the queries over them.
pub struct ConfigModule {
    pub(crate) state: State,
    pub(crate) identities: Vec<Option<Identity>>,
    pub(crate) stores: Vec<IdentityStore>,
    pub(crate) links: Vec<Option<IdentityLink>>,
    pub(crate) link_requests: Vec<Option<LinkRequest>>,
    pub(crate) unlink_requests: Vec<Option<UnlinkRequest>>,
}

impl View for ConfigModule {
    type V = RegistryModel;

    closed spec fn view(&self) -> RegistryModel {
        RegistryModel {
            state: self.state,
            identities: self.identities@.map_values(|o: Option<Identity>| opt_identity(o)),
            stores: stores_map(self.stores@),
            links: self.links@.map_values(|o: Option<IdentityLink>| opt_link(o)),
            link_requests: self.link_requests@.map_values(
                |o: Option<LinkRequest>| opt_link_request(o),
            ),
            unlink_requests: self.unlink_requests@.map_values(
                |o: Option<UnlinkRequest>| opt_unlink_request(o),
            ),
        }
    }
}

/// The registry before anything is stored in it.
pub open spec fn empty_registry(state: State) -> RegistryModel {
    RegistryModel {
        state,
        identities: Seq::empty(),
        stores: Map::new(|id: u64| true, |id: u64| StoreModel::empty()),
        links: Seq::empty(),
        link_requests: Seq::empty(),
        unlink_requests: Seq::empty(),
    }
}

impl ConfigModule {
    pub closed spec fn rep_ok(&self) -> bool {
        &&& self.identities@.len() <= self.stores@.len()
        &&& forall|i: int| 0 <= i < self.stores@.len() ==> #[trigger] self.stores@[i].rep_ok()
    }

    /// The registry's well-formedness: what every operation keeps.
    pub open spec fn inv(&self) -> bool {
        self.rep_ok() && self@.wf()
    }

    /// An empty, inactive registry.
    pub fn new() -> (c: ConfigModule)
        ensures
            c.inv(),
            c@ =~~= empty_registry(State::Inactive),
    {
        let c = ConfigModule {
            state: State::Inactive,
            identities: Vec::new(),
            stores: Vec::new(),
            links: Vec::new(),
            link_requests: Vec::new(),
            unlink_requests: Vec::new(),
        };
        assert(c@ =~~= empty_registry(State::Inactive));
        c
    }

    fn store_of(&self, id: u64) -> (r: Option<&IdentityStore>)
        requires
            self.rep_ok(),
        ensures
            match r {
                Some(s) => s.rep_ok() && s.model() == self@.stores[id],
                None => self@.stores[id] == StoreModel::empty(),
            },
    {
        if id < self.stores.len() as u64 {
            Some(&self.stores[id as usize])
        } else {
            None
        }
    }

    /// The identity with this id, if there is one.
    pub(crate) fn identity_ref(&self, id: u64) -> (r: Option<&Identity>)
        ensures
            match r {
                Some(i) => self@.identity(id) == Some(i@),
                None => self@.identity(id) is None,
            },
    {
        if id < self.identities.len() as u64 {
            match &self.identities[id as usize] {
                Some(i) => Some(i),
                None => None,
            }
        } else {
            None
        }
    }
}


impl ConfigModule {
    pub fn get_state(&self) -> (r: State)
        ensures
            r == self@.state,
    {
        self.state
    }

    /// Activates the registry; only its owner may.
    pub fn set_state_active(&mut self, ctx: &CallContext) -> (r: Result<(), ContractError>)
        requires
            old(self).inv(),
        ensures
            final(self).inv(),
            is_owner(ctx@) ==> r is Ok && final(self)@ == old(self)@.with_state(State::Active),
            !is_owner(ctx@) ==> r == Err::<(), ContractError>(ContractError::OnlyOwner)
                && final(self)@ == old(self)@,
    {
        if !bytes_eq(&ctx.caller, &ctx.owner) {
            return Err(ContractError::OnlyOwner);
        }
        self.put_state(State::Active);
        Ok(())
    }

    /// Deactivates the registry; only its owner may.
    pub fn set_state_inactive(&mut self, ctx: &CallContext) -> (r: Result<(), ContractError>)
        requires
            old(self).inv(),
        ensures
            final(self).inv(),
            is_owner(ctx@) ==> r is Ok && final(self)@ == old(self)@.with_state(State::Inactive),
            !is_owner(ctx@) ==> r == Err::<(), ContractError>(ContractError::OnlyOwner)
                && final(self)@ == old(self)@,
    {
        if !bytes_eq(&ctx.caller, &ctx.owner) {
            return Err(ContractError::OnlyOwner);
        }
        self.put_state(State::Inactive);
        Ok(())
    }

    /// Sets the state.
    pub(crate) fn put_state(&mut self, state: State)
        requires
            old(self).inv(),
        ensures
            final(self).inv(),
            final(self)@ == old(self)@.with_state(state),
    {
        self.state = state;
        proof {
            crate::model::lemma_wf_with_state(old(self)@, state);
        }
        assert(self@ =~~= old(self)@.with_state(state));
    }

    pub fn get_identity(&self, identity_id: u64) -> (r: Option<Identity>)
        ensures
            opt_identity(r) == self@.identity(identity_id),
    {
        match self.identity_ref(identity_id) {
            Some(i) => Some(i.duplicate()),
            None => None,
        }
    }

    /// The next identity id; one more than the id of the last identity.
    pub fn get_last_identity_id(&self) -> (r: u64)
        ensures
            r == self@.last_identity_id(),
    {
        self.identities.len() as u64
    }

    pub fn get_identity_key_modifiers(&self, identity_id: u64, key: &Vec<u8>) -> (r: Vec<Vec<u8>>)
        requires
            self.inv(),
        ensures
            bytes_list_view(r@) == self@.modifiers(identity_id, key@),
    {
        match self.store_of(identity_id) {
            Some(s) => s.modifiers_copy(key),
            None => {
                let r: Vec<Vec<u8>> = Vec::new();
                assert(bytes_list_view(r@) =~= Seq::<Seq<u8>>::empty());
                r
            },
        }
    }

    pub fn get_identity_keys(&self, identity_id: u64) -> (r: Vec<Vec<u8>>)
        requires
            self.inv(),
        ensures
            bytes_list_view(r@) == self@.keys(identity_id),
    {
        match self.store_of(identity_id) {
            Some(s) => s.keys_copy(),
            None => {
                let r: Vec<Vec<u8>> = Vec::new();
                assert(bytes_list_view(r@) =~= Seq::<Seq<u8>>::empty());
                r
            },
        }
    }

    /// The next value id under a key; one more than the id of its last value.
    pub fn get_last_identity_key_id(&self, identity_id: u64, key: &Vec<u8>) -> (r: u64)
        requires
            self.inv(),
        ensures
            r == self@.last_key_id(identity_id, key@),
    {
        match self.store_of(identity_id) {
            Some(s) => s.last_key_id(key),
            None => 0,
        }
    }

    pub fn get_identity_key_value(&self, identity_id: u64, key: &Vec<u8>, value_id: u64) -> (r:
        Option<Value>)
        requires
            self.inv(),
        ensures
            opt_value(r) == self@.value(identity_id, key@, value_id),
    {
        match self.store_of(identity_id) {
            Some(s) => s.value(key, value_id),
            None => None,
        }
    }

    pub fn get_identity_link(&self, link_id: u64) -> (r: Option<IdentityLink>)
        ensures
            opt_link(r) == self@.link(link_id),
    {
        if link_id < self.links.len() as u64 {
            match &self.links[link_id as usize] {
                Some(l) => Some(l.duplicate()),
                None => None,
            }
        } else {
            None
        }
    }

    /// The next link id; one more than the id of the last link.
    pub fn get_last_identity_link_id(&self) -> (r: u64)
        ensures
            r == self@.links.len(),
    {
        self.links.len() as u64
    }

    /// The ids of the links in which the identity is the child.
    pub fn get_children_links(&self, child_id: u64) -> (r: Vec<u64>)
        requires
            self.inv(),
        ensures
            r@ == self@.children_links(child_id),
    {
        match self.store_of(child_id) {
            Some(s) => s.children_links.clone(),
            None => Vec::new(),
        }
    }

    /// The ids of the links in which the identity is the parent.
    pub fn get_parent_links(&self, parent_id: u64) -> (r: Vec<u64>)
        requires
            self.inv(),
        ensures
            r@ == self@.parent_links(parent_id),
    {
        match self.store_of(parent_id) {
            Some(s) => s.parent_links.clone(),
            None => Vec::new(),
        }
    }

    pub fn get_link_request(&self, request_id: u64) -> (r: Option<LinkRequest>)
        ensures
            opt_link_request(r) == self@.link_request(request_id),
    {
        if request_id < self.link_requests.len() as u64 {
            match &self.link_requests[request_id as usize] {
                Some(l) => Some(l.duplicate()),
                None => None,
            }
        } else {
            None
        }
    }

    /// The next link request id.
    pub fn get_last_link_request_id(&self) -> (r: u64)
        ensures
            r == self@.link_requests.len(),
    {
        self.link_requests.len() as u64
    }

    pub fn get_unlink_request(&self, request_id: u64) -> (r: Option<UnlinkRequest>)
        ensures
            opt_unlink_request(r) == self@.unlink_request(request_id),
    {
        if request_id < self.unlink_requests.len() as u64 {
            match &self.unlink_requests[request_id as usize] {
                Some(l) => Some(l.duplicate()),
                None => None,
            }
        } else {
            None
        }
    }

    /// The next unlink request id.
    pub fn get_last_unlink_request_id(&self) -> (r: u64)
        ensures
            r == self@.unlink_requests.len(),
    {
        self.unlink_requests.len() as u64
    }

    /// The identity registered with this address.
    pub fn get_identity_by_address(&self, address: &Vec<u8>) -> (r: Option<Identity>)
        ensures
            opt_identity(r) == self@.identity_by_address(address@),
    {
        let ghost ids = self@.identities;
        let ghost p = crate::model::has_address(address@);
        let mut i: usize = 0;
        while i < self.identities.len()
            invariant
                i <= self.identities@.len(),
                ids == self@.identities,
                ids.len() == self.identities@.len(),
                p == crate::model::has_address(address@),
                first_index(ids, p, i as int) is None,
            decreases self.identities@.len() - i,
        {
            assert(ids[i as int] == opt_identity(self.identities@[i as int]));
            match &self.identities[i] {
                Some(identity) => {
                    if bytes_eq(&identity.address, address) {
                        proof {
                            assert(p(ids[i as int]));
                            assert(first_index(ids, p, i + 1) == Some(i as int));
                            crate::model::lemma_first_index_stable(ids, p, i + 1, ids.len() as int);
                        }
                        return Some(identity.duplicate());
                    }
                },
                None => {},
            }
            i = i + 1;
        }
        None
    }

    /// The identity registered with this legal id; none for legal id zero.
    pub fn get_identity_by_legal_id(&self, legal_id: &Vec<u8>) -> (r: Option<Identity>)
        ensures
            opt_identity(r) == self@.identity_by_legal_id(legal_id@),
    {
        if number_is_zero(legal_id) {
            return None;
        }
        let ghost ids = self@.identities;
        let ghost p = crate::model::has_legal_id(legal_id@);
        let mut i: usize = 0;
        while i < self.identities.len()
            invariant
                i <= self.identities@.len(),
                ids == self@.identities,
                ids.len() == self.identities@.len(),
                p == crate::model::has_legal_id(legal_id@),
                !crate::bytes::is_zero_number(legal_id@),
                first_index(ids, p, i as int) is None,
            decreases self.identities@.len() - i,
        {
            assert(ids[i as int] == opt_identity(self.identities@[i as int]));
            match &self.identities[i] {
                Some(identity) => {
                    if numbers_equal(&identity.legal_id, legal_id) {
                        proof {
                            assert(p(ids[i as int]));
                            assert(first_index(ids, p, i + 1) == Some(i as int));
                            crate::model::lemma_first_index_stable(ids, p, i + 1, ids.len() as int);
                        }
                        return Some(identity.duplicate());
                    }
                },
                None => {},
            }
            i = i + 1;
        }
        None
    }

    /// The values under a key of an identity, in value id order.
    pub fn get_identity_key_values(&self, identity_id: u64, key: &Vec<u8>) -> (r: Vec<Value>)
        requires
            self.inv(),
        ensures
            values_models(r@) == self@.key_values(identity_id, key@),
    {
        match self.store_of(identity_id) {
            Some(s) => s.key_values(key),
            None => {
                let r: Vec<Value> = Vec::new();
                assert(values_models(r@) =~= Seq::<crate::types::ValueModel>::empty());
                r
            },
        }
    }
}

impl ConfigModule {
    /// The link with this id, which the well-formedness of the registry says exists.
    pub(crate) fn listed_link(&self, link_id: u64) -> (r: &IdentityLink)
        requires
            self@.link(link_id) is Some,
        ensures
            r@ == self@.link(link_id)->0,
    {
        let n = self.links.len();
        assert(link_id < n);
        let l = &self.links[link_id as usize];
        assert(self@.links[link_id as int] == opt_link(*l));
        match l {
            Some(k) => k,
            None => unreached(),
        }
    }

    /// The identity with this id, which the well-formedness of the registry says exists.
    pub(crate) fn existing_identity(&self, identity_id: u64) -> (r: &Identity)
        requires
            self@.has_identity(identity_id),
        ensures
            Some(r@) == self@.identity(identity_id),
    {
        match self.identity_ref(identity_id) {
            Some(i) => i,
            None => unreached(),
        }
    }

    /// The child identities of a parent, one per link, in the order of its links.
    pub fn get_children_identities(&self, parent_id: u64) -> (r: Vec<Identity>)
        requires
            self.inv(),
        ensures
            identities_models(r@) == self@.children_identities(parent_id),
    {
        let list = self.get_parent_links(parent_id);
        let ghost target = self@.children_identities(parent_id);
        let mut r: Vec<Identity> = Vec::new();
        let mut j: usize = 0;
        while j < list.len()
            invariant
                self.inv(),
                list@ == self@.parent_links(parent_id),
                target == self@.children_identities(parent_id),
                j <= list@.len(),
                identities_models(r@) =~= target.take(j as int),
            decreases list@.len() - j,
        {
            let l = list[j];
            assert(self@.parent_links(parent_id)[j as int] == l);
            let link = self.listed_link(l);
            let ghost k = self@.link(l)->0;
            assert(self@.links[l as int] is Some);
            assert(self@.has_identity(k.child_id));
            let child = self.existing_identity(link.child_id);
            let ghost before = r@;
            r.push(child.duplicate());
            assert(target.take(j + 1) =~= target.take(j as int).push(child@));
            assert(identities_models(r@) =~= identities_models(before).push(child@));
            j = j + 1;
        }
        assert(target.take(j as int) =~= target);
        r
    }

    /// The parent identities of a child, one per link, in the order of its links.
    pub fn get_parent_identities(&self, child_id: u64) -> (r: Vec<Identity>)
        requires
            self.inv(),
        ensures
            identities_models(r@) == self@.parent_identities(child_id),
    {
        let list = self.get_children_links(child_id);
        let ghost target = self@.parent_identities(child_id);
        let mut r: Vec<Identity> = Vec::new();
        let mut j: usize = 0;
        while j < list.len()
            invariant
                self.inv(),
                list@ == self@.children_links(child_id),
                target == self@.parent_identities(child_id),
                j <= list@.len(),
                identities_models(r@) =~= target.take(j as int),
            decreases list@.len() - j,
        {
            let l = list[j];
            assert(self@.children_links(child_id)[j as int] == l);
            let link = self.listed_link(l);
            let ghost k = self@.link(l)->0;
            assert(self@.links[l as int] is Some);
            assert(self@.has_identity(k.parent_id));
            let parent = self.existing_identity(link.parent_id);
            let ghost before = r@;
            r.push(parent.duplicate());
            assert(target.take(j + 1) =~= target.take(j as int).push(parent@));
            assert(identities_models(r@) =~= identities_models(before).push(parent@));
            j = j + 1;
        }
        assert(target.take(j as int) =~= target);
        r
    }

    /// Whether some link has this parent and this child.
    pub fn is_parent_of(&self, parent_id: u64, child_id: u64) -> (r: bool)
        requires
            self.inv(),
        ensures
            r == self@.is_parent_of(parent_id, child_id),
    {
        let list = self.get_children_links(child_id);
        let mut j: usize = 0;
        while j < list.len()
            invariant
                self.inv(),
                list@ == self@.children_links(child_id),
                j <= list@.len(),
                forall|i: int|
                    0 <= i < j ==> (#[trigger] self@.link(self@.children_links(child_id)[i]))->0.parent_id
                        != parent_id,
            decreases list@.len() - j,
        {
            let l = list[j];
            assert(self@.children_links(child_id)[j as int] == l);
            let link = self.listed_link(l);
            if link.parent_id == parent_id {
                return true;
            }
            j = j + 1;
        }
        false
    }

    /// The first link, among the links of the child, to this parent.
    pub fn get_link_by_ids(&self, parent_id: u64, child_id: u64) -> (r: Option<IdentityLink>)
        requires
            self.inv(),
        ensures
            opt_link(r) == self@.link_by_ids(parent_id, child_id),
            r is Some <==> self@.is_parent_of(parent_id, child_id),
    {
        let list = self.get_children_links(child_id);
        let ghost p = self@.links_to_parent(parent_id);
        let ghost s = self@.children_links(child_id);
        let mut j: usize = 0;
        while j < list.len()
            invariant
                self.inv(),
                list@ == s,
                s == self@.children_links(child_id),
                p == self@.links_to_parent(parent_id),
                j <= list@.len(),
                first_index(s, p, j as int) is None,
                forall|i: int|
                    0 <= i < j ==> (#[trigger] self@.link(self@.children_links(child_id)[i]))->0.parent_id
                        != parent_id,
            decreases list@.len() - j,
        {
            let l = list[j];
            assert(s[j as int] == l);
            let link = self.listed_link(l);
            if link.parent_id == parent_id {
                proof {
                    assert(p(s[j as int]));
                    assert(first_index(s, p, j + 1) == Some(j as int));
                    crate::model::lemma_first_index_stable(s, p, j + 1, s.len() as int);
                }
                return Some(link.duplicate());
            }
            j = j + 1;
        }
        None
    }

    /// Whether the identity is the parent or the child of some link.
    pub fn has_links(&self, identity_id: u64) -> (r: bool)
        requires
            self.inv(),
        ensures
            r == self@.has_links(identity_id),
    {
        match self.store_of(identity_id) {
            Some(st) => st.parent_links.len() > 0 || st.children_links.len() > 0,
            None => false,
        }
    }
}

/// A position below a length, as an index.
fn to_index(id: u64, len: usize) -> (i: usize)
    requires
        (id as int) < len,
    ensures
        i as int == id as int,
{
    id as usize
}

proof fn lemma_stores_update(ss: Seq<IdentityStore>, id: u64, st: IdentityStore)
    requires
        (id as int) < ss.len(),
    ensures
        stores_map(ss.update(id as int, st)) =~~= stores_map(ss).insert(id, st.model()),
{
}

proof fn lemma_stores_push(ss: Seq<IdentityStore>, st: IdentityStore)
    requires
        st.model() == StoreModel::empty(),
    ensures
        stores_map(ss.push(st)) =~~= stores_map(ss),
{
}

impl ConfigModule {
    /// Takes the store of an identity out, leaving an empty one in its place.
    fn take_store(&mut self, id: u64) -> (st: IdentityStore)
        requires
            old(self).rep_ok(),
            (id as int) < old(self).identities@.len(),
        ensures
            st.rep_ok(),
            st.model() == old(self)@.stores[id],
            final(self).identities == old(self).identities,
            final(self).stores@.len() == old(self).stores@.len(),
            forall|i: int|
                0 <= i < final(self).stores@.len() && i != id ==> final(self).stores@[i] == old(
                    self,
                ).stores@[i],
            final(self).state == old(self).state,
            final(self).links == old(self).links,
            final(self).link_requests == old(self).link_requests,
            final(self).unlink_requests == old(self).unlink_requests,
    {
        let mut st = IdentityStore::new();
        let i = to_index(id, self.stores.len());
        self.stores.set_and_swap(i, &mut st);
        st
    }

    /// Puts back the store of an identity taken out by `take_store`.
    fn put_store(&mut self, id: u64, st: IdentityStore, Ghost(before): Ghost<RegistryModel>)
        requires
            old(self).identities@.len() <= old(self).stores@.len(),
            (id as int) < old(self).identities@.len(),
            st.rep_ok(),
            forall|i: int|
                0 <= i < old(self).stores@.len() && i != id ==> #[trigger] old(self).stores@[i].rep_ok(),
            forall|i: u64| i != id ==> #[trigger] old(self)@.stores[i] == before.stores[i],
            before.stores.dom() == old(self)@.stores.dom(),
            old(self)@.identities == before.identities,
            old(self)@.state == before.state,
            old(self)@.links == before.links,
            old(self)@.link_requests == before.link_requests,
            old(self)@.unlink_requests == before.unlink_requests,
        ensures
            final(self).rep_ok(),
            final(self)@ =~~= before.with_store(id, st.model()),
            final(self).identities == old(self).identities,
    {
        let ghost ss = self.stores@;
        let i = to_index(id, self.stores.len());
        self.stores.set(i, st);
        proof {
            lemma_stores_update(ss, id, st);
            assert(self.stores@ == ss.update(id as int, st));
        }
        assert forall|i: u64| #![auto] self@.stores[i] == before.stores.insert(id, st.model())[i] by {
            if i != id {
                assert(old(self)@.stores[i] == before.stores[i]);
                assert(stores_map(ss)[i] == old(self)@.stores[i]);
            }
        }
        assert(self@.stores =~= before.stores.insert(id, st.model()));
    }

    pub(crate) fn push_identity(&mut self, identity: Identity)
        requires
            old(self).rep_ok(),
        ensures
            final(self).rep_ok(),
            final(self)@ =~~= old(self)@.push_identity(identity@),
    {
        if self.stores.len() == self.identities.len() {
            let ghost ss = self.stores@;
            let st = IdentityStore::new();
            self.stores.push(st);
            proof {
                lemma_stores_push(ss, st);
            }
        }
        let ghost ids = self.identities@;
        self.identities.push(Some(identity));
        assert(self@.identities =~= old(self)@.identities.push(Some(identity@)));
    }

    pub(crate) fn set_identity(&mut self, id: u64, identity: Identity)
        requires
            old(self).rep_ok(),
            old(self)@.has_identity(id),
        ensures
            final(self).rep_ok(),
            final(self)@ =~~= old(self)@.set_identity(id, identity@),
    {
        let i = to_index(id, self.identities.len());
        self.identities.set(i, Some(identity));
        assert(self@.identities =~= old(self)@.identities.update(id as int, Some(identity@)));
    }

    /// Removes an identity with its keys, values, and the modifiers of its keys.
    pub(crate) fn remove_identity_storage(&mut self, id: u64)
        requires
            old(self).rep_ok(),
            old(self)@.has_identity(id),
        ensures
            final(self).rep_ok(),
            final(self)@ =~~= old(self)@.remove_identity(id),
    {
        let ghost before = self@;
        let mut st = self.take_store(id);
        st.clear_keys();
        self.put_store(id, st, Ghost(before));
        let ghost mid = self@;
        if id == self.identities.len() as u64 - 1 {
            self.identities.pop();
            assert(self@.identities =~= crate::model::clear_slot(mid.identities, id as int));
        } else {
            let i = to_index(id, self.identities.len());
            self.identities.set(i, None);
            assert(self@.identities =~= crate::model::clear_slot(mid.identities, id as int));
        }
    }

    pub(crate) fn insert_modifier(&mut self, id: u64, key: &Vec<u8>, address: &Vec<u8>)
        requires
            old(self).rep_ok(),
            old(self)@.has_identity(id),
        ensures
            final(self).rep_ok(),
            final(self)@ =~~= old(self)@.insert_modifier(id, key@, address@),
    {
        let ghost before = self@;
        let mut st = self.take_store(id);
        st.insert_modifier(key, address);
        self.put_store(id, st, Ghost(before));
    }

    pub(crate) fn remove_modifier(&mut self, id: u64, key: &Vec<u8>, address: &Vec<u8>)
        requires
            old(self).rep_ok(),
            old(self)@.has_identity(id),
            old(self)@.modifiers(id, key@).no_duplicates(),
        ensures
            final(self).rep_ok(),
            final(self)@ =~~= old(self)@.remove_modifier(id, key@, address@),
    {
        let ghost before = self@;
        let mut st = self.take_store(id);
        st.remove_modifier(key, address);
        self.put_store(id, st, Ghost(before));
    }

    pub(crate) fn add_value(&mut self, id: u64, key: &Vec<u8>, value: Value)
        requires
            old(self).rep_ok(),
            old(self)@.has_identity(id),
        ensures
            final(self).rep_ok(),
            final(self)@ =~~= old(self)@.add_value(id, key@, value@),
    {
        let ghost before = self@;
        let mut st = self.take_store(id);
        st.push_value(key, value);
        st.insert_key(key);
        self.put_store(id, st, Ghost(before));
    }

    pub(crate) fn set_value(&mut self, id: u64, key: &Vec<u8>, value_id: u64, value: Value)
        requires
            old(self).rep_ok(),
            old(self)@.has_identity(id),
            value_id < old(self)@.last_key_id(id, key@),
        ensures
            final(self).rep_ok(),
            final(self)@ =~~= old(self)@.set_value(id, key@, value_id, value@),
    {
        let ghost before = self@;
        let mut st = self.take_store(id);
        st.set_value(key, value_id, value);
        self.put_store(id, st, Ghost(before));
    }

    pub(crate) fn clear_value(&mut self, id: u64, key: &Vec<u8>, value_id: u64)
        requires
            old(self).rep_ok(),
            old(self)@.has_identity(id),
            value_id < old(self)@.last_key_id(id, key@),
        ensures
            final(self).rep_ok(),
            final(self)@ =~~= old(self)@.clear_value(id, key@, value_id),
    {
        let ghost before = self@;
        let mut st = self.take_store(id);
        st.clear_value(key, value_id);
        self.put_store(id, st, Ghost(before));
    }

    pub(crate) fn revoke(&mut self, id: u64, address: &Vec<u8>)
        requires
            old(self).rep_ok(),
            old(self)@.has_identity(id),
        ensures
            final(self).rep_ok(),
            final(self)@ =~~= old(self)@.revoke(id, address@),
    {
        let ghost before = self@;
        let mut st = self.take_store(id);
        st.revoke(address);
        self.put_store(id, st, Ghost(before));
    }
}

impl ConfigModule {
    /// A new link at the next link id; returns its id.
    pub(crate) fn add_link(&mut self, child_id: u64, parent_id: u64, relation: Vec<u8>) -> (r: u64)
        requires
            old(self).rep_ok(),
            old(self)@.has_identity(child_id),
            old(self)@.has_identity(parent_id),
        ensures
            final(self).rep_ok(),
            final(self)@ =~~= old(self)@.add_link(child_id, parent_id, relation@),
            r == old(self)@.links.len(),
    {
        let link_id = self.links.len() as u64;
        let ghost rel = relation@;
        self.links.push(Some(IdentityLink { id: link_id, child_id, parent_id, relation }));
        let ghost m = self@;
        assert(m =~~= RegistryModel {
            links: old(self)@.links.push(
                Some(LinkModel { id: link_id, child_id, parent_id, relation: rel }),
            ),
            ..old(self)@
        });
        let mut st = self.take_store(child_id);
        st.push_child_link(link_id);
        self.put_store(child_id, st, Ghost(m));
        let ghost m2 = self@;
        let mut st2 = self.take_store(parent_id);
        st2.push_parent_link(link_id);
        self.put_store(parent_id, st2, Ghost(m2));
        link_id
    }

    /// A link removed, and no longer listed for either identity.
    pub(crate) fn remove_link(&mut self, link_id: u64)
        requires
            old(self).rep_ok(),
            old(self)@.link(link_id) is Some,
            old(self)@.has_identity(old(self)@.link(link_id)->0.child_id),
            old(self)@.has_identity(old(self)@.link(link_id)->0.parent_id),
            old(self)@.children_links(old(self)@.link(link_id)->0.child_id).no_duplicates(),
            old(self)@.parent_links(old(self)@.link(link_id)->0.parent_id).no_duplicates(),
        ensures
            final(self).rep_ok(),
            final(self)@ =~~= old(self)@.remove_link(link_id),
    {
        let link = self.listed_link(link_id);
        let child_id = link.child_id;
        let parent_id = link.parent_id;
        let ghost m = self@;
        let mut st = self.take_store(child_id);
        st.remove_child_link(link_id);
        self.put_store(child_id, st, Ghost(m));
        let ghost m2 = self@;
        let mut st2 = self.take_store(parent_id);
        st2.remove_parent_link(link_id);
        self.put_store(parent_id, st2, Ghost(m2));
        let ghost m3 = self@;
        if link_id == self.links.len() as u64 - 1 {
            self.links.pop();
        } else {
            let i = to_index(link_id, self.links.len());
            self.links.set(i, None);
        }
        assert(self@.links =~= crate::model::clear_slot(m3.links, link_id as int));
    }

    /// A new link request at the next request id.
    pub(crate) fn push_link_request(&mut self, request: LinkRequest)
        ensures
            final(self).rep_ok() == old(self).rep_ok(),
            final(self)@ =~~= old(self)@.push_link_request(request@),
    {
        self.link_requests.push(Some(request));
        assert(self@.link_requests =~= old(self)@.link_requests.push(Some(request@)));
    }

    pub(crate) fn clear_link_request(&mut self, request_id: u64)
        requires
            (request_id as int) < old(self)@.link_requests.len(),
        ensures
            final(self).rep_ok() == old(self).rep_ok(),
            final(self)@ =~~= old(self)@.clear_link_request(request_id),
    {
        if request_id == self.link_requests.len() as u64 - 1 {
            self.link_requests.pop();
        } else {
            let i = to_index(request_id, self.link_requests.len());
            self.link_requests.set(i, None);
        }
        assert(self@.link_requests =~= crate::model::clear_slot(
            old(self)@.link_requests,
            request_id as int,
        ));
    }

    /// A new unlink request at the next request id.
    pub(crate) fn push_unlink_request(&mut self, request: UnlinkRequest)
        ensures
            final(self).rep_ok() == old(self).rep_ok(),
            final(self)@ =~~= old(self)@.push_unlink_request(request@),
    {
        self.unlink_requests.push(Some(request));
        assert(self@.unlink_requests =~= old(self)@.unlink_requests.push(Some(request@)));
    }

    pub(crate) fn clear_unlink_request(&mut self, request_id: u64)
        requires
            (request_id as int) < old(self)@.unlink_requests.len(),
        ensures
            final(self).rep_ok() == old(self).rep_ok(),
            final(self)@ =~~= old(self)@.clear_unlink_request(request_id),
    {
        if request_id == self.unlink_requests.len() as u64 - 1 {
            self.unlink_requests.pop();
        } else {
            let i = to_index(request_id, self.unlink_requests.len());
            self.unlink_requests.set(i, None);
        }
        assert(self@.unlink_requests =~= crate::model::clear_slot(
            old(self)@.unlink_requests,
            request_id as int,
        ));
    }
}

impl ConfigModule {
    /// Whether `address` may write under the key of the identity.
    pub(crate) fn key_modifiers_contains(&self, id: u64, key: &Vec<u8>, address: &Vec<u8>) -> (r: bool)
        requires
            self.rep_ok(),
        ensures
            r == self@.modifiers(id, key@).contains(address@),
    {
        match self.store_of(id) {
            Some(s) => s.modifiers_contains(key, address),
            None => false,
        }
    }

    /// Whether nobody may write under the key of the identity.
    pub(crate) fn key_modifiers_empty(&self, id: u64, key: &Vec<u8>) -> (r: bool)
        requires
            self.rep_ok(),
        ensures
            r == (self@.modifiers(id, key@).len() == 0),
    {
        match self.store_of(id) {
            Some(s) => s.modifiers_is_empty(key),
            None => true,
        }
    }

    /// Whether the identity has the key.
    pub(crate) fn keys_contains(&self, id: u64, key: &Vec<u8>) -> (r: bool)
        requires
            self.rep_ok(),
        ensures
            r == self@.keys(id).contains(key@),
    {
        match self.store_of(id) {
            Some(s) => s.keys_contains(key),
            None => {
                assert(self@.keys(id) =~= Seq::<Seq<u8>>::empty());
                false
            },
        }
    }
}

impl ConfigModule {
    /// The present value with the highest value id under a key of an identity.
    pub fn get_last_value_of_key(&self, identity_id: u64, key: &Vec<u8>) -> (r: Option<Value>)
        requires
            self.inv(),
        ensures
            match r {
                Some(v) => self@.last_value(identity_id, key@) == Some(v@),
                None => self@.last_value(identity_id, key@) is None,
            },
    {
        let mut vs = self.get_identity_key_values(identity_id, key);
        let ghost all = vs@;
        let r = vs.pop();
        proof {
            if all.len() > 0 {
                assert(values_models(all).last() == all.last()@);
            }
        }
        r
    }

    /// Whether some link has this child and this parent.
    pub fn is_child_of_parent(&self, child_id: u64, parent_id: u64) -> (r: bool)
        requires
            self.inv(),
        ensures
            r == self@.is_parent_of(parent_id, child_id),
    {
        self.is_parent_of(parent_id, child_id)
    }

    /// The children of a parent whose last value under the key is `last_value`,
    /// one per link with the named relation (any relation if none is named).
    pub fn get_children_with_same_last_value(
        &self,
        parent_id: u64,
        key: &Vec<u8>,
        last_value: &Vec<u8>,
        opt_relation: Option<Vec<u8>>,
    ) -> (r: Vec<Identity>)
        requires
            self.inv(),
        ensures
            identities_models(r@) == self@.children_with_same_last_value(
                parent_id,
                key@,
                last_value@,
                crate::bytes::opt_bytes(opt_relation),
            ),
    {
        let ghost rel = crate::bytes::opt_bytes(opt_relation);
        let ghost f = self@.child_with_last_value(key@, last_value@, rel);
        let list = self.get_parent_links(parent_id);
        let mut r: Vec<Identity> = Vec::new();
        let mut j: usize = 0;
        while j < list.len()
            invariant
                self.inv(),
                list@ == self@.parent_links(parent_id),
                f == self@.child_with_last_value(key@, last_value@, rel),
                rel == crate::bytes::opt_bytes(opt_relation),
                j <= list@.len(),
                identities_models(r@) =~= list@.take(j as int).filter_map(f),
            decreases list@.len() - j,
        {
            let l = list[j];
            assert(self@.parent_links(parent_id)[j as int] == l);
            assert(list@.take(j + 1).drop_last() =~= list@.take(j as int));
            let link = self.listed_link(l);
            let relation_ok = match &opt_relation {
                Some(x) => bytes_eq(x, &link.relation),
                None => true,
            };
            let ghost before = r@;
            if relation_ok {
                match self.get_last_value_of_key(link.child_id, key) {
                    Some(v) => {
                        if bytes_eq(&v.value, last_value) {
                            match self.identity_ref(link.child_id) {
                                Some(child) => {
                                    r.push(child.duplicate());
                                    assert(identities_models(r@) =~= identities_models(before)
                                        + seq![child@]);
                                },
                                None => {},
                            }
                        }
                    },
                    None => {},
                }
            }
            j = j + 1;
        }
        assert(list@.take(j as int) =~= list@);
        r
    }

    /// The identities with these ids, skipping ids with no identity.
    pub fn get_multiple_identities(&self, identity_ids: &Vec<u64>) -> (r: Vec<Identity>)
        ensures
            identities_models(r@) == self@.identities_of(identity_ids@),
    {
        let ghost f = |i: u64| self@.identity(i);
        let mut r: Vec<Identity> = Vec::new();
        let mut j: usize = 0;
        while j < identity_ids.len()
            invariant
                f == (|i: u64| self@.identity(i)),
                j <= identity_ids@.len(),
                identities_models(r@) =~= identity_ids@.take(j as int).filter_map(f),
            decreases identity_ids@.len() - j,
        {
            assert(identity_ids@.take(j + 1).drop_last() =~= identity_ids@.take(j as int));
            let ghost before = r@;
            match self.identity_ref(identity_ids[j]) {
                Some(i) => {
                    r.push(i.duplicate());
                    assert(identities_models(r@) =~= identities_models(before) + seq![i@]);
                },
                None => {},
            }
            j = j + 1;
        }
        assert(identity_ids@.take(j as int) =~= identity_ids@);
        r
    }

    fn link_requests_where(&self, id: u64, by_parent: bool) -> (r: Vec<LinkRequest>)
        ensures
            link_requests_models(r@) == if by_parent {
                self@.link_requests_by_parent(id)
            } else {
                self@.link_requests_by_child(id)
            },
    {
        let ghost f = |o: Option<LinkRequestModel>|
            if o is Some && (if by_parent {
                o->0.parent_id
            } else {
                o->0.child_id
            }) == id {
                o
            } else {
                None
            };
        let ghost s = self@.link_requests;
        let mut r: Vec<LinkRequest> = Vec::new();
        let mut j: usize = 0;
        while j < self.link_requests.len()
            invariant
                s == self@.link_requests,
                s.len() == self.link_requests@.len(),
                f == (|o: Option<LinkRequestModel>|
                    if o is Some && (if by_parent {
                        o->0.parent_id
                    } else {
                        o->0.child_id
                    }) == id {
                        o
                    } else {
                        None
                    }),
                j <= s.len(),
                link_requests_models(r@) =~= s.take(j as int).filter_map(f),
            decreases s.len() - j,
        {
            assert(s.take(j + 1).drop_last() =~= s.take(j as int));
            assert(s[j as int] == opt_link_request(self.link_requests@[j as int]));
            let ghost before = r@;
            match &self.link_requests[j] {
                Some(q) => {
                    let hit = if by_parent {
                        q.parent_id == id
                    } else {
                        q.child_id == id
                    };
                    if hit {
                        r.push(q.duplicate());
                        assert(link_requests_models(r@) =~= link_requests_models(before) + seq![q@]);
                    }
                },
                None => {},
            }
            j = j + 1;
        }
        assert(s.take(j as int) =~= s);
        proof {
            if by_parent {
                assert(f == (|o: Option<LinkRequestModel>|
                    if o is Some && o->0.parent_id == id {
                        o
                    } else {
                        None
                    }));
            } else {
                assert(f == (|o: Option<LinkRequestModel>|
                    if o is Some && o->0.child_id == id {
                        o
                    } else {
                        None
                    }));
            }
        }
        r
    }

    /// The link requests made by a parent, in request id order.
    pub fn get_link_requests_by_parent(&self, parent_id: u64) -> (r: Vec<LinkRequest>)
        ensures
            link_requests_models(r@) == self@.link_requests_by_parent(parent_id),
    {
        self.link_requests_where(parent_id, true)
    }

    /// The link requests made to a child, in request id order.
    pub fn get_link_requests_by_child(&self, child_id: u64) -> (r: Vec<LinkRequest>)
        ensures
            link_requests_models(r@) == self@.link_requests_by_child(child_id),
    {
        self.link_requests_where(child_id, false)
    }
}

impl ConfigModule {
    fn unlink_requests_where(&self, id: u64, by_parent: bool) -> (r: Vec<UnlinkRequest>)
        ensures
            unlink_requests_models(r@) == if by_parent {
                self@.unlink_requests_by_parent(id)
            } else {
                self@.unlink_requests_by_child(id)
            },
    {
        let ghost f = |o: Option<UnlinkRequestModel>|
            if o is Some && (if by_parent {
                o->0.parent_id
            } else {
                o->0.child_id
            }) == id {
                o
            } else {
                None
            };
        let ghost s = self@.unlink_requests;
        let mut r: Vec<UnlinkRequest> = Vec::new();
        let mut j: usize = 0;
        while j < self.unlink_requests.len()
            invariant
                s == self@.unlink_requests,
                s.len() == self.unlink_requests@.len(),
                f == (|o: Option<UnlinkRequestModel>|
                    if o is Some && (if by_parent {
                        o->0.parent_id
                    } else {
                        o->0.child_id
                    }) == id {
                        o
                    } else {
                        None
                    }),
                j <= s.len(),
                unlink_requests_models(r@) =~= s.take(j as int).filter_map(f),
            decreases s.len() - j,
        {
            assert(s.take(j + 1).drop_last() =~= s.take(j as int));
            assert(s[j as int] == opt_unlink_request(self.unlink_requests@[j as int]));
            let ghost before = r@;
            match &self.unlink_requests[j] {
                Some(q) => {
                    let hit = if by_parent {
                        q.parent_id == id
                    } else {
                        q.child_id == id
                    };
                    if hit {
                        r.push(q.duplicate());
                        assert(unlink_requests_models(r@) =~= unlink_requests_models(before) + seq![q@]);
                    }
                },
                None => {},
            }
            j = j + 1;
        }
        assert(s.take(j as int) =~= s);
        proof {
            if by_parent {
                assert(f == (|o: Option<UnlinkRequestModel>|
                    if o is Some && o->0.parent_id == id {
                        o
                    } else {
                        None
                    }));
            } else {
                assert(f == (|o: Option<UnlinkRequestModel>|
                    if o is Some && o->0.child_id == id {
                        o
                    } else {
                        None
                    }));
            }
        }
        r
    }

    /// The unlink requests made to a parent, in request id order.
    pub fn get_unlink_requests_by_parent(&self, parent_id: u64) -> (r: Vec<UnlinkRequest>)
        ensures
            unlink_requests_models(r@) == self@.unlink_requests_by_parent(parent_id),
    {
        self.unlink_requests_where(parent_id, true)
    }

    /// The unlink requests made by a child, in request id order.
    pub fn get_unlink_requests_by_child(&self, child_id: u64) -> (r: Vec<UnlinkRequest>)
        ensures
            unlink_requests_models(r@) == self@.unlink_requests_by_child(child_id),
    {
        self.unlink_requests_where(child_id, false)
    }

    /// For each link of the identity, the identity at its other end and the
    /// link: first its links as a parent, then its links as a child.
    pub fn get_linked_identities(&self, identity_id: u64) -> (r: Vec<(Identity, IdentityLink)>)
        requires
            self.inv(),
        ensures
            linked_models(r@) == self@.linked_identities(identity_id),
    {
        let ghost first = self@.parent_links(identity_id).map_values(
            |l: u64| (self@.identity(self@.link(l)->0.child_id)->0, self@.link(l)->0),
        );
        let ghost second = self@.children_links(identity_id).map_values(
            |l: u64| (self@.identity(self@.link(l)->0.parent_id)->0, self@.link(l)->0),
        );
        let mut r: Vec<(Identity, IdentityLink)> = Vec::new();
        let as_parent = self.get_parent_links(identity_id);
        let mut j: usize = 0;
        while j < as_parent.len()
            invariant
                self.inv(),
                as_parent@ == self@.parent_links(identity_id),
                first == self@.parent_links(identity_id).map_values(
                    |l: u64| (self@.identity(self@.link(l)->0.child_id)->0, self@.link(l)->0),
                ),
                j <= as_parent@.len(),
                linked_models(r@) =~= first.take(j as int),
            decreases as_parent@.len() - j,
        {
            let l = as_parent[j];
            assert(self@.stores[identity_id].parent_links[j as int] == l);
            let link = self.listed_link(l);
            assert(self@.links[l as int] is Some);
            let child = self.existing_identity(link.child_id);
            let ghost before = r@;
            r.push((child.duplicate(), link.duplicate()));
            assert(first.take(j + 1) =~= first.take(j as int).push((child@, link@)));
            assert(linked_models(r@) =~= linked_models(before).push((child@, link@)));
            j = j + 1;
        }
        assert(first.take(j as int) =~= first);
        let as_child = self.get_children_links(identity_id);
        let mut k: usize = 0;
        while k < as_child.len()
            invariant
                self.inv(),
                as_child@ == self@.children_links(identity_id),
                second == self@.children_links(identity_id).map_values(
                    |l: u64| (self@.identity(self@.link(l)->0.parent_id)->0, self@.link(l)->0),
                ),
                k <= as_child@.len(),
                linked_models(r@) =~= first + second.take(k as int),
            decreases as_child@.len() - k,
        {
            let l = as_child[k];
            assert(self@.stores[identity_id].children_links[k as int] == l);
            let link = self.listed_link(l);
            assert(self@.links[l as int] is Some);
            let parent = self.existing_identity(link.parent_id);
            let ghost before = r@;
            r.push((parent.duplicate(), link.duplicate()));
            assert(second.take(k + 1) =~= second.take(k as int).push((parent@, link@)));
            assert(linked_models(r@) =~= linked_models(before).push((parent@, link@)));
            k = k + 1;
        }
        assert(second.take(k as int) =~= second);
        r
    }
}
} // verus!
