use vstd::prelude::*;

use crate::types::{IdentityModel, LinkModel, LinkRequestModel, State, UnlinkRequestModel, ValueModel};

verus! {

// The sets of the registry (the keys of an identity, the modifiers of a key,
// the link lists of an identity) live, on chain, in unordered-set storage:
// inserting appends, and removing moves the last element into the freed place.
// That storage is reached only through the chain's storage handles inside a
// deployed contract, so the library cannot call it; its behaviour is stated
// by the two functions below and the executable store is proved against them.

/// An ordered set after inserting `x`: `x` is appended unless it is there already.
pub open spec fn set_insert<T>(s: Seq<T>, x: T) -> Seq<T> {
    if s.contains(x) {
        s
    } else {
        s.push(x)
    }
}

/// An ordered set after removing `x`: the last element takes the place of `x`.
pub open spec fn set_swap_remove<T>(s: Seq<T>, x: T) -> Seq<T> {
    if s.contains(x) {
        s.update(s.index_of(x), s.last()).drop_last()
    } else {
        s
    }
}

/// A slot table after clearing slot `i`: when `i` is the last slot, the table
/// shrinks by one.
pub open spec fn clear_slot<T>(s: Seq<Option<T>>, i: int) -> Seq<Option<T>> {
    if i == s.len() - 1 {
        s.drop_last()
    } else {
        s.update(i, None)
    }
}

/// What one storage key of an identity holds.
#[verifier::ext_equal]
pub struct DrawerModel {
    /// The addresses that may write under the key.
    pub modifiers: Seq<Seq<u8>>,
    /// The values under the key, by value id; its length is the next value id.
    pub values: Seq<Option<ValueModel>>,
}

impl DrawerModel {
    pub open spec fn empty() -> DrawerModel {
        DrawerModel { modifiers: Seq::empty(), values: Seq::empty() }
    }
}

/// What the registry keeps for one identity id.
#[verifier::ext_equal]
pub struct StoreModel {
    /// The keys under which values were added, in the order they were added.
    pub keys: Seq<Seq<u8>>,
    /// What each key holds; every key is present.
    pub drawers: Map<Seq<u8>, DrawerModel>,
    /// The ids of the links in which this identity is the child.
    pub children_links: Seq<u64>,
    /// The ids of the links in which this identity is the parent.
    pub parent_links: Seq<u64>,
}

impl StoreModel {
    pub open spec fn empty() -> StoreModel {
        StoreModel {
            keys: Seq::empty(),
            drawers: Map::new(|k: Seq<u8>| true, |k: Seq<u8>| DrawerModel::empty()),
            children_links: Seq::empty(),
            parent_links: Seq::empty(),
        }
    }
}

/// The abstract state of the registry.
#[verifier::ext_equal]
pub struct RegistryModel {
    pub state: State,
    /// The identities by id; its length is the next identity id.
    pub identities: Seq<Option<IdentityModel>>,
    /// What is kept for each identity id; every id is present.
    pub stores: Map<u64, StoreModel>,
    /// The links by id; its length is the next link id.
    pub links: Seq<Option<LinkModel>>,
    /// The link requests by id; its length is the next link request id.
    pub link_requests: Seq<Option<LinkRequestModel>>,
    /// The unlink requests by id; its length is the next unlink request id.
    pub unlink_requests: Seq<Option<UnlinkRequestModel>>,
}

/// The index of the first element of `s[0..n]` that satisfies `p`.
pub open spec fn first_index<T>(s: Seq<T>, p: spec_fn(T) -> bool, n: int) -> Option<int>
    decreases n,
{
    if n <= 0 {
        None
    } else {
        match first_index(s, p, n - 1) {
            Some(i) => Some(i),
            None => if p(s[n - 1]) {
                Some(n - 1)
            } else {
                None
            },
        }
    }
}

/// Whether a slot holds an identity with this address.
pub open spec fn has_address(address: Seq<u8>) -> spec_fn(Option<IdentityModel>) -> bool {
    |o: Option<IdentityModel>| o is Some && o->0.address == address
}

/// Whether a slot holds an identity with this legal id.
pub open spec fn has_legal_id(legal_id: Seq<u8>) -> spec_fn(Option<IdentityModel>) -> bool {
    |o: Option<IdentityModel>| o is Some && crate::bytes::same_number(o->0.legal_id, legal_id)
}

/// The present entries of a slot table, in slot order.
pub open spec fn present<T>(s: Seq<Option<T>>) -> Seq<T>
    decreases s.len(),
{
    if s.len() == 0 {
        Seq::empty()
    } else {
        let rest = present(s.drop_last());
        match s.last() {
            Some(v) => rest.push(v),
            None => rest,
        }
    }
}

impl RegistryModel {
    pub open spec fn identity(self, id: u64) -> Option<IdentityModel> {
        if id < self.identities.len() {
            self.identities[id as int]
        } else {
            None
        }
    }

    pub open spec fn has_identity(self, id: u64) -> bool {
        self.identity(id) is Some
    }

    pub open spec fn last_identity_id(self) -> nat {
        self.identities.len()
    }

    pub open spec fn keys(self, id: u64) -> Seq<Seq<u8>> {
        self.stores[id].keys
    }

    pub open spec fn drawer(self, id: u64, key: Seq<u8>) -> DrawerModel {
        self.stores[id].drawers[key]
    }

    pub open spec fn modifiers(self, id: u64, key: Seq<u8>) -> Seq<Seq<u8>> {
        self.drawer(id, key).modifiers
    }

    pub open spec fn last_key_id(self, id: u64, key: Seq<u8>) -> nat {
        self.drawer(id, key).values.len()
    }

    pub open spec fn value(self, id: u64, key: Seq<u8>, value_id: u64) -> Option<ValueModel> {
        if value_id < self.drawer(id, key).values.len() {
            self.drawer(id, key).values[value_id as int]
        } else {
            None
        }
    }

    pub open spec fn link(self, link_id: u64) -> Option<LinkModel> {
        if link_id < self.links.len() {
            self.links[link_id as int]
        } else {
            None
        }
    }

    pub open spec fn children_links(self, id: u64) -> Seq<u64> {
        self.stores[id].children_links
    }

    pub open spec fn parent_links(self, id: u64) -> Seq<u64> {
        self.stores[id].parent_links
    }

    pub open spec fn link_request(self, request_id: u64) -> Option<LinkRequestModel> {
        if request_id < self.link_requests.len() {
            self.link_requests[request_id as int]
        } else {
            None
        }
    }

    pub open spec fn unlink_request(self, request_id: u64) -> Option<UnlinkRequestModel> {
        if request_id < self.unlink_requests.len() {
            self.unlink_requests[request_id as int]
        } else {
            None
        }
    }

    /// The lowest id of an identity with this address.
    pub open spec fn identity_id_by_address(self, address: Seq<u8>) -> Option<int> {
        first_index(self.identities, has_address(address), self.identities.len() as int)
    }

    /// The identity with this address, the one with the lowest id if several.
    pub open spec fn identity_by_address(self, address: Seq<u8>) -> Option<IdentityModel> {
        match self.identity_id_by_address(address) {
            Some(i) => self.identities[i],
            None => None,
        }
    }

    /// The lowest id of an identity with this legal id.
    pub open spec fn identity_id_by_legal_id(self, legal_id: Seq<u8>) -> Option<int> {
        first_index(self.identities, has_legal_id(legal_id), self.identities.len() as int)
    }

    /// The identity with this legal id, the one with the lowest id if several;
    /// none for legal id zero.
    pub open spec fn identity_by_legal_id(self, legal_id: Seq<u8>) -> Option<IdentityModel> {
        if crate::bytes::is_zero_number(legal_id) {
            None
        } else {
            match self.identity_id_by_legal_id(legal_id) {
                Some(i) => self.identities[i],
                None => None,
            }
        }
    }

    /// The values under a key of an identity, in value id order.
    pub open spec fn key_values(self, id: u64, key: Seq<u8>) -> Seq<ValueModel> {
        present(self.drawer(id, key).values)
    }

    /// The child identities of a parent, one per link, in the order of its links.
    pub open spec fn children_identities(self, parent_id: u64) -> Seq<IdentityModel> {
        self.parent_links(parent_id).map_values(
            |l: u64| self.identity(self.link(l)->0.child_id)->0,
        )
    }

    /// The parent identities of a child, one per link, in the order of its links.
    pub open spec fn parent_identities(self, child_id: u64) -> Seq<IdentityModel> {
        self.children_links(child_id).map_values(
            |l: u64| self.identity(self.link(l)->0.parent_id)->0,
        )
    }

    /// Whether the link with this id has this parent.
    pub open spec fn links_to_parent(self, parent_id: u64) -> spec_fn(u64) -> bool {
        |l: u64| self.link(l)->0.parent_id == parent_id
    }

    /// Whether some link has this parent and this child.
    pub open spec fn is_parent_of(self, parent_id: u64, child_id: u64) -> bool {
        exists|j: int|
            0 <= j < self.children_links(child_id).len() && (#[trigger] self.link(
                self.children_links(child_id)[j],
            ))->0.parent_id == parent_id
    }

    /// Whether `address` is the address of a parent of the identity.
    pub open spec fn is_parent_address(self, id: u64, address: Seq<u8>) -> bool {
        match self.identity_by_address(address) {
            Some(p) => self.is_parent_of(p.id, id),
            None => false,
        }
    }

    /// Whether the addresses that may write under the key of the identity
    /// include the address of at most one of its parents.
    pub open spec fn key_exclusive(self, id: u64, key: Seq<u8>) -> bool {
        forall|a: Seq<u8>, b: Seq<u8>|
            #![trigger self.modifiers(id, key).contains(a), self.modifiers(id, key).contains(b)]
            self.modifiers(id, key).contains(a) && self.modifiers(id, key).contains(b)
                && self.is_parent_address(id, a) && self.is_parent_address(id, b) ==> a == b
    }

    /// Whether no key of any identity may be written by two of its parents.
    pub open spec fn keys_exclusive(self) -> bool {
        forall|id: u64, key: Seq<u8>| #[trigger] self.key_exclusive(id, key)
    }

    /// The position, among the links of the child, of the first link to this parent.
    pub open spec fn link_position(self, parent_id: u64, child_id: u64) -> Option<int> {
        first_index(
            self.children_links(child_id),
            self.links_to_parent(parent_id),
            self.children_links(child_id).len() as int,
        )
    }

    /// The first link, among the links of the child, to this parent.
    pub open spec fn link_by_ids(self, parent_id: u64, child_id: u64) -> Option<LinkModel> {
        match self.link_position(parent_id, child_id) {
            Some(j) => self.link(self.children_links(child_id)[j]),
            None => None,
        }
    }

    /// The present value with the highest value id under a key, if any.
    pub open spec fn last_value(self, id: u64, key: Seq<u8>) -> Option<ValueModel> {
        let vs = self.key_values(id, key);
        if vs.len() == 0 {
            None
        } else {
            Some(vs.last())
        }
    }

    /// The child of a link of the parent, where the link has the relation (if
    /// one is named) and the child's last value under the key is `value`.
    pub open spec fn child_with_last_value(
        self,
        key: Seq<u8>,
        value: Seq<u8>,
        relation: Option<Seq<u8>>,
    ) -> spec_fn(u64) -> Option<IdentityModel> {
        |l: u64|
            {
                let k = self.link(l)->0;
                let lv = self.last_value(k.child_id, key);
                if (relation is None || relation->0 == k.relation) && lv is Some && lv->0.value
                    == value {
                    self.identity(k.child_id)
                } else {
                    None
                }
            }
    }

    /// The children of a parent whose last value under the key is `value`, one
    /// per link (with the relation, if one is named), in the order of its links.
    pub open spec fn children_with_same_last_value(
        self,
        parent_id: u64,
        key: Seq<u8>,
        value: Seq<u8>,
        relation: Option<Seq<u8>>,
    ) -> Seq<IdentityModel> {
        self.parent_links(parent_id).filter_map(self.child_with_last_value(key, value, relation))
    }

    /// The identities with these ids, skipping ids with no identity.
    pub open spec fn identities_of(self, ids: Seq<u64>) -> Seq<IdentityModel> {
        ids.filter_map(|i: u64| self.identity(i))
    }

    /// The link requests of a parent, in request id order.
    pub open spec fn link_requests_by_parent(self, parent_id: u64) -> Seq<LinkRequestModel> {
        self.link_requests.filter_map(
            |o: Option<LinkRequestModel>|
                if o is Some && o->0.parent_id == parent_id {
                    o
                } else {
                    None
                },
        )
    }

    /// The link requests to a child, in request id order.
    pub open spec fn link_requests_by_child(self, child_id: u64) -> Seq<LinkRequestModel> {
        self.link_requests.filter_map(
            |o: Option<LinkRequestModel>|
                if o is Some && o->0.child_id == child_id {
                    o
                } else {
                    None
                },
        )
    }

    /// The unlink requests to a parent, in request id order.
    pub open spec fn unlink_requests_by_parent(self, parent_id: u64) -> Seq<UnlinkRequestModel> {
        self.unlink_requests.filter_map(
            |o: Option<UnlinkRequestModel>|
                if o is Some && o->0.parent_id == parent_id {
                    o
                } else {
                    None
                },
        )
    }

    /// The unlink requests of a child, in request id order.
    pub open spec fn unlink_requests_by_child(self, child_id: u64) -> Seq<UnlinkRequestModel> {
        self.unlink_requests.filter_map(
            |o: Option<UnlinkRequestModel>|
                if o is Some && o->0.child_id == child_id {
                    o
                } else {
                    None
                },
        )
    }

    /// For each link of the identity, the identity at its other end and the
    /// link: first the links in which it is the parent, then those in which it
    /// is the child, each in list order.
    pub open spec fn linked_identities(self, id: u64) -> Seq<(IdentityModel, LinkModel)> {
        self.parent_links(id).map_values(
            |l: u64| (self.identity(self.link(l)->0.child_id)->0, self.link(l)->0),
        ) + self.children_links(id).map_values(
            |l: u64| (self.identity(self.link(l)->0.parent_id)->0, self.link(l)->0),
        )
    }

    /// Whether the identity is the parent or the child of some link.
    pub open spec fn has_links(self, id: u64) -> bool {
        self.parent_links(id).len() > 0 || self.children_links(id).len() > 0
    }
}


impl RegistryModel {
    /// Every identity sits at its own id.
    pub open spec fn identities_wf(self) -> bool {
        forall|i: int|
            0 <= i < self.identities.len() && #[trigger] self.identities[i] is Some
                ==> self.identities[i]->0.id == i
    }

    /// No two identities share an address.
    pub open spec fn addresses_unique(self) -> bool {
        forall|i: int, j: int|
            0 <= i < self.identities.len() && 0 <= j < self.identities.len() && i != j
                && #[trigger] self.identities[i] is Some && #[trigger] self.identities[j] is Some
                ==> self.identities[i]->0.address != self.identities[j]->0.address
    }

    /// Every link sits at its own id, joins two identities, and is listed
    /// among the links of both.
    pub open spec fn links_wf(self) -> bool {
        forall|l: int|
            0 <= l < self.links.len() && #[trigger] self.links[l] is Some ==> {
                let k = self.links[l]->0;
                &&& k.id == l
                &&& self.has_identity(k.child_id)
                &&& self.has_identity(k.parent_id)
                &&& self.children_links(k.child_id).contains(k.id)
                &&& self.parent_links(k.parent_id).contains(k.id)
            }
    }

    /// The links listed for an identity exist and name it, each once.
    pub open spec fn link_lists_wf(self) -> bool {
        &&& forall|id: u64|
            #![trigger self.stores[id]]
            self.stores[id].children_links.no_duplicates() && self.stores[id].parent_links.no_duplicates()
        &&& forall|id: u64, j: int|
            0 <= j < self.stores[id].children_links.len() ==> {
                let l = #[trigger] self.stores[id].children_links[j];
                &&& self.link(l) is Some
                &&& self.link(l)->0.child_id == id
            }
        &&& forall|id: u64, j: int|
            0 <= j < self.stores[id].parent_links.len() ==> {
                let l = #[trigger] self.stores[id].parent_links[j];
                &&& self.link(l) is Some
                &&& self.link(l)->0.parent_id == id
            }
    }

    /// Keys and modifiers are sets, and every value sits at its own id.
    pub open spec fn drawers_wf(self) -> bool {
        &&& forall|id: u64| #![trigger self.stores[id]] self.stores[id].keys.no_duplicates()
        &&& forall|id: u64, k: Seq<u8>|
            #![trigger self.stores[id].drawers[k]]
            self.stores[id].drawers[k].modifiers.no_duplicates()
        &&& forall|id: u64, k: Seq<u8>, v: int|
            0 <= v < self.stores[id].drawers[k].values.len()
                && #[trigger] self.stores[id].drawers[k].values[v] is Some
                ==> self.stores[id].drawers[k].values[v]->0.id == v
    }

    /// An id with no identity keeps no keys, values or modifiers.
    pub open spec fn vacant_stores_empty(self) -> bool {
        forall|id: u64|
            #![trigger self.stores[id]]
            !self.has_identity(id) ==> self.stores[id].keys.len() == 0 && forall|k: Seq<u8>|
                #[trigger] self.stores[id].drawers[k] == DrawerModel::empty()
    }

    /// Every request sits at its own id.
    pub open spec fn requests_wf(self) -> bool {
        &&& forall|r: int|
            0 <= r < self.link_requests.len() && #[trigger] self.link_requests[r] is Some
                ==> self.link_requests[r]->0.id == r
        &&& forall|r: int|
            0 <= r < self.unlink_requests.len() && #[trigger] self.unlink_requests[r] is Some
                ==> self.unlink_requests[r]->0.id == r
    }

    /// What every reachable state of the registry satisfies.
    pub open spec fn wf(self) -> bool {
        &&& forall|id: u64| #[trigger] self.stores.dom().contains(id)
        &&& forall|id: u64, k: Seq<u8>| #[trigger] self.stores[id].drawers.dom().contains(k)
        &&& self.vacant_stores_empty()
        &&& self.identities_wf()
        &&& self.addresses_unique()
        &&& self.links_wf()
        &&& self.link_lists_wf()
        &&& self.drawers_wf()
        &&& self.requests_wf()
    }

    // ---- updates -------------------------------------------------------

    pub open spec fn with_state(self, state: State) -> RegistryModel {
        RegistryModel { state, ..self }
    }

    pub open spec fn with_store(self, id: u64, store: StoreModel) -> RegistryModel {
        RegistryModel { stores: self.stores.insert(id, store), ..self }
    }

    pub open spec fn with_drawer(self, id: u64, key: Seq<u8>, d: DrawerModel) -> RegistryModel {
        self.with_store(id, StoreModel { drawers: self.stores[id].drawers.insert(key, d), ..self.stores[id] })
    }

    /// A new identity at the next id.
    pub open spec fn push_identity(self, identity: IdentityModel) -> RegistryModel {
        RegistryModel { identities: self.identities.push(Some(identity)), ..self }
    }

    /// An identity replaced.
    pub open spec fn set_identity(self, id: u64, identity: IdentityModel) -> RegistryModel {
        RegistryModel { identities: self.identities.update(id as int, Some(identity)), ..self }
    }

    /// An identity removed with all its keys, values and modifiers.
    pub open spec fn remove_identity(self, id: u64) -> RegistryModel {
        let store = self.stores[id];
        RegistryModel {
            identities: clear_slot(self.identities, id as int),
            ..self.with_store(
                id,
                StoreModel {
                    keys: Seq::empty(),
                    drawers: Map::new(|k: Seq<u8>| true, |k: Seq<u8>| DrawerModel::empty()),
                    ..store
                },
            )
        }
    }

    /// `address` may write under the key.
    pub open spec fn insert_modifier(self, id: u64, key: Seq<u8>, address: Seq<u8>) -> RegistryModel {
        self.with_drawer(
            id,
            key,
            DrawerModel { modifiers: set_insert(self.modifiers(id, key), address), ..self.drawer(id, key) },
        )
    }

    /// `address` may no longer write under the key.
    pub open spec fn remove_modifier(self, id: u64, key: Seq<u8>, address: Seq<u8>) -> RegistryModel {
        self.with_drawer(
            id,
            key,
            DrawerModel {
                modifiers: set_swap_remove(self.modifiers(id, key), address),
                ..self.drawer(id, key)
            },
        )
    }

    /// `address` may write under each of `keys`, granted in order.
    pub open spec fn grant_keys(self, id: u64, keys: Seq<Seq<u8>>, address: Seq<u8>) -> RegistryModel
        decreases keys.len(),
    {
        if keys.len() == 0 {
            self
        } else {
            self.grant_keys(id, keys.drop_last(), address).insert_modifier(id, keys.last(), address)
        }
    }

    /// Every key of the identity under which `address` may write loses all its modifiers.
    pub open spec fn revoke(self, id: u64, address: Seq<u8>) -> RegistryModel {
        let store = self.stores[id];
        self.with_store(
            id,
            StoreModel {
                drawers: Map::new(
                    |k: Seq<u8>| true,
                    |k: Seq<u8>|
                        if store.drawers[k].modifiers.contains(address) {
                            DrawerModel { modifiers: Seq::empty(), ..store.drawers[k] }
                        } else {
                            store.drawers[k]
                        },
                ),
                ..store
            },
        )
    }

    /// A value added under a key, at the next value id; the key joins the keys of the identity.
    pub open spec fn add_value(self, id: u64, key: Seq<u8>, value: ValueModel) -> RegistryModel {
        let m = self.with_drawer(
            id,
            key,
            DrawerModel { values: self.drawer(id, key).values.push(Some(value)), ..self.drawer(id, key) },
        );
        m.with_store(id, StoreModel { keys: set_insert(m.keys(id), key), ..m.stores[id] })
    }

    /// A value replaced.
    pub open spec fn set_value(self, id: u64, key: Seq<u8>, value_id: u64, value: ValueModel) -> RegistryModel {
        self.with_drawer(
            id,
            key,
            DrawerModel {
                values: self.drawer(id, key).values.update(value_id as int, Some(value)),
                ..self.drawer(id, key)
            },
        )
    }

    /// A value removed.
    pub open spec fn clear_value(self, id: u64, key: Seq<u8>, value_id: u64) -> RegistryModel {
        self.with_drawer(
            id,
            key,
            DrawerModel {
                values: clear_slot(self.drawer(id, key).values, value_id as int),
                ..self.drawer(id, key)
            },
        )
    }

    /// A new link at the next link id, listed among the links of both identities.
    pub open spec fn add_link(self, child_id: u64, parent_id: u64, relation: Seq<u8>) -> RegistryModel {
        let l = self.links.len() as u64;
        let m = RegistryModel {
            links: self.links.push(
                Some(LinkModel { id: l, child_id, parent_id, relation }),
            ),
            ..self
        };
        let m2 = m.with_store(
            child_id,
            StoreModel { children_links: m.children_links(child_id).push(l), ..m.stores[child_id] },
        );
        m2.with_store(
            parent_id,
            StoreModel { parent_links: m2.parent_links(parent_id).push(l), ..m2.stores[parent_id] },
        )
    }

    /// A link removed, and no longer listed for either identity.
    pub open spec fn remove_link(self, link_id: u64) -> RegistryModel {
        let k = self.link(link_id)->0;
        let m = self.with_store(
            k.child_id,
            StoreModel {
                children_links: set_swap_remove(self.children_links(k.child_id), link_id),
                ..self.stores[k.child_id]
            },
        );
        let m2 = m.with_store(
            k.parent_id,
            StoreModel {
                parent_links: set_swap_remove(m.parent_links(k.parent_id), link_id),
                ..m.stores[k.parent_id]
            },
        );
        RegistryModel { links: clear_slot(m2.links, link_id as int), ..m2 }
    }

    /// A new link request at the next request id.
    pub open spec fn push_link_request(self, r: LinkRequestModel) -> RegistryModel {
        RegistryModel { link_requests: self.link_requests.push(Some(r)), ..self }
    }

    /// A link request removed.
    pub open spec fn clear_link_request(self, request_id: u64) -> RegistryModel {
        RegistryModel { link_requests: clear_slot(self.link_requests, request_id as int), ..self }
    }

    /// A new unlink request at the next request id.
    pub open spec fn push_unlink_request(self, r: UnlinkRequestModel) -> RegistryModel {
        RegistryModel { unlink_requests: self.unlink_requests.push(Some(r)), ..self }
    }

    /// An unlink request removed.
    pub open spec fn clear_unlink_request(self, request_id: u64) -> RegistryModel {
        RegistryModel { unlink_requests: clear_slot(self.unlink_requests, request_id as int), ..self }
    }
}

/// The state takes no part in well-formedness.
pub proof fn lemma_wf_with_state(m: RegistryModel, state: State)
    requires
        m.wf(),
    ensures
        m.with_state(state).wf(),
{
    let m2 = m.with_state(state);
    assert(m2.identities_wf());
    assert(m2.addresses_unique());
    assert(m2.links_wf()) by {
        assert forall|l: int| 0 <= l < m2.links.len() && #[trigger] m2.links[l] is Some implies {
            let k = m2.links[l]->0;
            &&& k.id == l
            &&& m2.has_identity(k.child_id)
            &&& m2.has_identity(k.parent_id)
            &&& m2.children_links(k.child_id).contains(k.id)
            &&& m2.parent_links(k.parent_id).contains(k.id)
        } by {
            assert(m.links[l] is Some);
        }
    }
    assert(m2.link_lists_wf());
    assert(m2.drawers_wf());
    assert(m2.requests_wf());
}

/// Once some element of a prefix satisfies `p`, longer prefixes find the same one.
pub proof fn lemma_first_index_stable<T>(s: Seq<T>, p: spec_fn(T) -> bool, n: int, m: int)
    requires
        first_index(s, p, n) is Some,
        n <= m,
    ensures
        first_index(s, p, m) == first_index(s, p, n),
    decreases m - n,
{
    if m > n {
        lemma_first_index_stable(s, p, n, m - 1);
    }
}

} // verus!
