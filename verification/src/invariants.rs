use vstd::prelude::*;

use crate::model::{
    clear_slot, first_index, has_address, set_insert, set_swap_remove, DrawerModel,
    RegistryModel, StoreModel,
};
use crate::types::{IdentityModel, LinkRequestModel, UnlinkRequestModel, ValueModel};

verus! {

/// When no element of a prefix satisfies `p`, none of them does.
pub proof fn lemma_first_index_none<T>(s: Seq<T>, p: spec_fn(T) -> bool, n: int)
    requires
        first_index(s, p, n) is None,
    ensures
        forall|i: int| 0 <= i < n ==> !p(#[trigger] s[i]),
    decreases n,
{
    if n > 0 {
        lemma_first_index_none(s, p, n - 1);
    }
}

/// The first element that satisfies `p` does, and none before it does.
pub proof fn lemma_first_index_some<T>(s: Seq<T>, p: spec_fn(T) -> bool, n: int)
    requires
        first_index(s, p, n) is Some,
    ensures
        0 <= first_index(s, p, n)->0 < n,
        p(s[first_index(s, p, n)->0]),
        forall|i: int| 0 <= i < first_index(s, p, n)->0 ==> !p(#[trigger] s[i]),
    decreases n,
{
    if n > 0 {
        if first_index(s, p, n - 1) is Some {
            lemma_first_index_some(s, p, n - 1);
        } else {
            lemma_first_index_none(s, p, n - 1);
        }
    }
}

/// Some element of a prefix satisfies `p` exactly when the search finds one.
pub proof fn lemma_first_index_exists<T>(s: Seq<T>, p: spec_fn(T) -> bool, n: int, i: int)
    requires
        0 <= i < n,
        p(s[i]),
    ensures
        first_index(s, p, n) is Some,
{
    if first_index(s, p, n) is None {
        lemma_first_index_none(s, p, n);
    }
}

pub proof fn lemma_set_insert<T>(s: Seq<T>, x: T)
    requires
        s.no_duplicates(),
    ensures
        set_insert(s, x).no_duplicates(),
        forall|y: T| #[trigger] set_insert(s, x).contains(y) <==> (s.contains(y) || y == x),
{
    if !s.contains(x) {
        let t = s.push(x);
        assert forall|y: T| #[trigger] t.contains(y) <==> (s.contains(y) || y == x) by {
            if t.contains(y) {
                let i = choose|i: int| 0 <= i < t.len() && t[i] == y;
                if i < s.len() {
                    assert(s[i] == y);
                }
            }
            if s.contains(y) {
                let i = choose|i: int| 0 <= i < s.len() && s[i] == y;
                assert(t[i] == y);
            }
            if y == x {
                assert(t[s.len() as int] == y);
            }
        }
    }
}

pub proof fn lemma_set_swap_remove<T>(s: Seq<T>, x: T)
    requires
        s.no_duplicates(),
    ensures
        set_swap_remove(s, x).no_duplicates(),
        forall|y: T| #[trigger] set_swap_remove(s, x).contains(y) <==> (s.contains(y) && y != x),
{
    if s.contains(x) {
        let i = s.index_of(x);
        let t = s.update(i, s.last()).drop_last();
        let n = s.len() - 1;
        assert(0 <= i < s.len() && s[i] == x);
        assert forall|a: int| 0 <= a < t.len() implies #[trigger] t[a] == s[if a == i { n } else { a }] by {}
        assert forall|a: int, b: int| 0 <= a < t.len() && 0 <= b < t.len() && a != b implies t[a] != t[b] by {
            assert(t[a] == s[if a == i { n } else { a }]);
            assert(t[b] == s[if b == i { n } else { b }]);
        }
        assert forall|y: T| #[trigger] t.contains(y) <==> (s.contains(y) && y != x) by {
            if t.contains(y) {
                let a = choose|a: int| 0 <= a < t.len() && t[a] == y;
                let a2 = if a == i { n } else { a };
                assert(s[a2] == y);
                assert(a2 != i);
            }
            if s.contains(y) && y != x {
                let a = choose|a: int| 0 <= a < s.len() && s[a] == y;
                assert(a != i);
                if a == n {
                    assert(t[i] == y);
                } else {
                    assert(t[a] == y);
                }
            }
        }
    }
}

/// A slot table keeps every slot but the cleared one.
pub proof fn lemma_clear_slot<T>(s: Seq<Option<T>>, i: int)
    requires
        0 <= i < s.len(),
    ensures
        clear_slot(s, i).len() == if i == s.len() - 1 {
            s.len() - 1
        } else {
            s.len() as int
        },
        forall|j: int| 0 <= j < clear_slot(s, i).len() && j != i ==> #[trigger] clear_slot(s, i)[j] == s[j],
        i < clear_slot(s, i).len() ==> clear_slot(s, i)[i] is None,
{
}


/// No identity holds an address that the search by address does not find.
pub proof fn lemma_address_free(m: RegistryModel, address: Seq<u8>)
    requires
        m.identity_by_address(address) is None,
    ensures
        forall|i: int|
            0 <= i < m.identities.len() && #[trigger] m.identities[i] is Some
                ==> m.identities[i]->0.address != address,
{
    let p = has_address(address);
    let n = m.identities.len() as int;
    if first_index(m.identities, p, n) is Some {
        lemma_first_index_some(m.identities, p, n);
    } else {
        lemma_first_index_none(m.identities, p, n);
    }
}

pub proof fn lemma_wf_push_identity(m: RegistryModel, identity: IdentityModel)
    requires
        m.wf(),
        identity.id == m.identities.len(),
        m.identity_by_address(identity.address) is None,
    ensures
        m.push_identity(identity).wf(),
{
    lemma_address_free(m, identity.address);
    let m2 = m.push_identity(identity);
    assert(m2.wf()) by {
        assert forall|id: u64| m.has_identity(id) implies #[trigger] m2.has_identity(id) by {}
        assert(m2.identities_wf());
        assert(m2.addresses_unique()) by {
            assert forall|i: int, j: int|
                0 <= i < m2.identities.len() && 0 <= j < m2.identities.len() && i != j
                    && #[trigger] m2.identities[i] is Some && #[trigger] m2.identities[j] is Some
                    implies m2.identities[i]->0.address != m2.identities[j]->0.address by {
                if i < m.identities.len() && j < m.identities.len() {
                    assert(m.identities[i] is Some && m.identities[j] is Some);
                } else if i < m.identities.len() {
                    assert(m.identities[i] is Some);
                } else {
                    assert(m.identities[j] is Some);
                }
            }
        }
        assert(m2.links_wf()) by {
            assert forall|l: int| 0 <= l < m2.links.len() && #[trigger] m2.links[l] is Some implies {
                let k = m2.links[l]->0;
                &&& k.id == l
                &&& m2.has_identity(k.child_id)
                &&& m2.has_identity(k.parent_id)
                &&& m2.children_links(k.child_id).contains(k.id)
                &&& m2.parent_links(k.parent_id).contains(k.id)
            } by {
                assert(m.links[l] is Some);
            }
        }
    }
}

pub proof fn lemma_wf_set_identity(m: RegistryModel, id: u64, identity: IdentityModel)
    requires
        m.wf(),
        m.has_identity(id),
        identity.id == id,
        identity.address == m.identity(id)->0.address || m.identity_by_address(identity.address) is None,
    ensures
        m.set_identity(id, identity).wf(),
{
    if m.identity_by_address(identity.address) is None {
        lemma_address_free(m, identity.address);
    }
    let m2 = m.set_identity(id, identity);
    assert(m2.wf()) by {
        assert forall|x: u64| m.has_identity(x) implies #[trigger] m2.has_identity(x) by {}
        assert(m2.identities_wf());
        assert(m2.addresses_unique()) by {
            assert forall|i: int, j: int|
                0 <= i < m2.identities.len() && 0 <= j < m2.identities.len() && i != j
                    && #[trigger] m2.identities[i] is Some && #[trigger] m2.identities[j] is Some
                    implies m2.identities[i]->0.address != m2.identities[j]->0.address by {
                assert(m.identities[i] is Some && m.identities[j] is Some);
            }
        }
        assert(m2.links_wf()) by {
            assert forall|l: int| 0 <= l < m2.links.len() && #[trigger] m2.links[l] is Some implies {
                let k = m2.links[l]->0;
                &&& k.id == l
                &&& m2.has_identity(k.child_id)
                &&& m2.has_identity(k.parent_id)
                &&& m2.children_links(k.child_id).contains(k.id)
                &&& m2.parent_links(k.parent_id).contains(k.id)
            } by {
                assert(m.links[l] is Some);
            }
        }
    }
}

/// What a store must satisfy for the registry to stay well-formed.
pub open spec fn store_drawers_ok(s: StoreModel) -> bool {
    &&& forall|k: Seq<u8>| #[trigger] s.drawers.dom().contains(k)
    &&& s.keys.no_duplicates()
    &&& forall|k: Seq<u8>| #![trigger s.drawers[k]] s.drawers[k].modifiers.no_duplicates()
    &&& forall|k: Seq<u8>, v: int|
        0 <= v < s.drawers[k].values.len() && #[trigger] s.drawers[k].values[v] is Some
            ==> s.drawers[k].values[v]->0.id == v
}

/// Replacing what the store of an identity holds under its keys keeps the
/// registry well-formed, when the new keys and drawers are well-formed.
pub proof fn lemma_wf_with_store(m: RegistryModel, id: u64, s: StoreModel)
    requires
        m.wf(),
        s.children_links == m.stores[id].children_links,
        s.parent_links == m.stores[id].parent_links,
        store_drawers_ok(s),
        m.has_identity(id) || (s.keys.len() == 0 && forall|k: Seq<u8>|
            #[trigger] s.drawers[k] == DrawerModel::empty()),
    ensures
        m.with_store(id, s).wf(),
{
    let m2 = m.with_store(id, s);
    assert(m2.vacant_stores_empty()) by {
        assert forall|x: u64| #![trigger m2.stores[x]] !m2.has_identity(x) implies m2.stores[x].keys.len() == 0
            && forall|k: Seq<u8>| #[trigger] m2.stores[x].drawers[k] == DrawerModel::empty() by {
            if x != id {
                assert(m2.stores[x] == m.stores[x]);
            }
        }
    }
    assert forall|x: u64| #![trigger m2.stores[x]]
        m2.stores[x].children_links == m.stores[x].children_links
        && m2.stores[x].parent_links == m.stores[x].parent_links by {}
    assert(m2.links_wf()) by {
        assert forall|l: int| 0 <= l < m2.links.len() && #[trigger] m2.links[l] is Some implies {
            let k = m2.links[l]->0;
            &&& k.id == l
            &&& m2.has_identity(k.child_id)
            &&& m2.has_identity(k.parent_id)
            &&& m2.children_links(k.child_id).contains(k.id)
            &&& m2.parent_links(k.parent_id).contains(k.id)
        } by {
            assert(m.links[l] is Some);
            let k = m.links[l]->0;
            assert(m2.stores[k.child_id].children_links == m.stores[k.child_id].children_links);
            assert(m2.stores[k.parent_id].parent_links == m.stores[k.parent_id].parent_links);
        }
    }
    assert(m2.link_lists_wf()) by {
        assert forall|x: u64, j: int| 0 <= j < m2.stores[x].children_links.len() implies {
            let l = #[trigger] m2.stores[x].children_links[j];
            &&& m2.link(l) is Some
            &&& m2.link(l)->0.child_id == x
        } by {
            assert(m2.stores[x].children_links == m.stores[x].children_links);
            assert(m.stores[x].children_links[j] == m2.stores[x].children_links[j]);
        }
        assert forall|x: u64, j: int| 0 <= j < m2.stores[x].parent_links.len() implies {
            let l = #[trigger] m2.stores[x].parent_links[j];
            &&& m2.link(l) is Some
            &&& m2.link(l)->0.parent_id == x
        } by {
            assert(m2.stores[x].parent_links == m.stores[x].parent_links);
            assert(m.stores[x].parent_links[j] == m2.stores[x].parent_links[j]);
        }
    }
    assert(m2.drawers_wf()) by {
        assert forall|x: u64, k: Seq<u8>, v: int|
            0 <= v < m2.stores[x].drawers[k].values.len()
                && #[trigger] m2.stores[x].drawers[k].values[v] is Some
                implies m2.stores[x].drawers[k].values[v]->0.id == v by {
            if x != id {
                assert(m2.stores[x] == m.stores[x]);
                assert(m.stores[x].drawers[k].values[v] is Some);
                assert(m.stores[x].drawers[k].values[v]->0.id == v);
            } else {
                assert(m2.stores[x] == s);
                assert(s.drawers[k].values[v] is Some);
                assert(s.drawers[k].values[v]->0.id == v);
            }
        }
    }
}

/// A drawer that keeps its modifiers a set and its values at their ids.
pub open spec fn drawer_ok(d: DrawerModel) -> bool {
    &&& d.modifiers.no_duplicates()
    &&& forall|v: int| 0 <= v < d.values.len() && #[trigger] d.values[v] is Some ==> d.values[v]->0.id == v
}

/// Replacing one drawer with a well-formed one keeps the registry well-formed.
pub proof fn lemma_wf_with_drawer(m: RegistryModel, id: u64, key: Seq<u8>, d: DrawerModel)
    requires
        m.wf(),
        m.has_identity(id),
        drawer_ok(d),
    ensures
        m.with_drawer(id, key, d).wf(),
{
    let s = StoreModel { drawers: m.stores[id].drawers.insert(key, d), ..m.stores[id] };
    assert(store_drawers_ok(s)) by {
        assert forall|k: Seq<u8>, v: int|
            0 <= v < s.drawers[k].values.len() && #[trigger] s.drawers[k].values[v] is Some
                implies s.drawers[k].values[v]->0.id == v by {
            if k != key {
                assert(s.drawers[k] == m.stores[id].drawers[k]);
            }
        }
    }
    lemma_wf_with_store(m, id, s);
}

pub proof fn lemma_wf_insert_modifier(m: RegistryModel, id: u64, key: Seq<u8>, address: Seq<u8>)
    requires
        m.wf(),
        m.has_identity(id),
    ensures
        m.insert_modifier(id, key, address).wf(),
{
    let d = m.drawer(id, key);
    assert(m.stores[id].drawers[key] == d);
    lemma_set_insert(d.modifiers, address);
    lemma_wf_with_drawer(m, id, key, DrawerModel { modifiers: set_insert(d.modifiers, address), ..d });
}

pub proof fn lemma_wf_remove_modifier(m: RegistryModel, id: u64, key: Seq<u8>, address: Seq<u8>)
    requires
        m.wf(),
        m.has_identity(id),
    ensures
        m.remove_modifier(id, key, address).wf(),
{
    let d = m.drawer(id, key);
    assert(m.stores[id].drawers[key] == d);
    lemma_set_swap_remove(d.modifiers, address);
    lemma_wf_with_drawer(
        m,
        id,
        key,
        DrawerModel { modifiers: set_swap_remove(d.modifiers, address), ..d },
    );
}

pub proof fn lemma_wf_grant_keys(m: RegistryModel, id: u64, keys: Seq<Seq<u8>>, address: Seq<u8>)
    requires
        m.wf(),
        m.has_identity(id),
    ensures
        m.grant_keys(id, keys, address).wf(),
    decreases keys.len(),
{
    if keys.len() > 0 {
        lemma_wf_grant_keys(m, id, keys.drop_last(), address);
        lemma_grant_keys_frame(m, id, keys.drop_last(), address);
        lemma_wf_insert_modifier(m.grant_keys(id, keys.drop_last(), address), id, keys.last(), address);
    }
}

pub proof fn lemma_wf_revoke(m: RegistryModel, id: u64, address: Seq<u8>)
    requires
        m.wf(),
        m.has_identity(id),
    ensures
        m.revoke(id, address).wf(),
{
    let store = m.stores[id];
    let s = StoreModel {
        drawers: Map::new(
            |k: Seq<u8>| true,
            |k: Seq<u8>|
                if store.drawers[k].modifiers.contains(address) {
                    DrawerModel { modifiers: Seq::empty(), ..store.drawers[k] }
                } else {
                    store.drawers[k]
                },
        ),
        ..store
    };
    assert(store_drawers_ok(s)) by {
        assert(store.keys.no_duplicates());
        assert forall|k: Seq<u8>| #![trigger s.drawers[k]] s.drawers[k].modifiers.no_duplicates() by {
            assert(store.drawers[k].modifiers.no_duplicates());
        }
        assert forall|k: Seq<u8>, v: int|
            0 <= v < s.drawers[k].values.len() && #[trigger] s.drawers[k].values[v] is Some
                implies s.drawers[k].values[v]->0.id == v by {
            assert(s.drawers[k].values == store.drawers[k].values);
        }
    }
    lemma_wf_with_store(m, id, s);
}

pub proof fn lemma_wf_add_value(m: RegistryModel, id: u64, key: Seq<u8>, value: ValueModel)
    requires
        m.wf(),
        m.has_identity(id),
        value.id == m.last_key_id(id, key),
    ensures
        m.add_value(id, key, value).wf(),
{
    let d = m.drawer(id, key);
    assert(m.stores[id].drawers[key] == d);
    let d2 = DrawerModel { values: d.values.push(Some(value)), ..d };
    assert(drawer_ok(d2)) by {
        assert forall|v: int| 0 <= v < d2.values.len() && #[trigger] d2.values[v] is Some implies d2.values[v]->0.id == v by {
            if v < d.values.len() {
                assert(d2.values[v] == d.values[v]);
                assert(m.stores[id].drawers[key].values[v] == d.values[v]);
            }
        }
    }
    lemma_wf_with_drawer(m, id, key, d2);
    let m1 = m.with_drawer(id, key, d2);
    lemma_set_insert(m1.keys(id), key);
    let s = StoreModel { keys: set_insert(m1.keys(id), key), ..m1.stores[id] };
    assert(store_drawers_ok(s)) by {
        assert forall|k: Seq<u8>| #![trigger s.drawers[k]] s.drawers[k].modifiers.no_duplicates() by {
            assert(m1.stores[id].drawers[k] == s.drawers[k]);
        }
        assert forall|k: Seq<u8>, v: int|
            0 <= v < s.drawers[k].values.len() && #[trigger] s.drawers[k].values[v] is Some
                implies s.drawers[k].values[v]->0.id == v by {
            assert(m1.stores[id].drawers[k] == s.drawers[k]);
        }
    }
    lemma_wf_with_store(m1, id, s);
}

pub proof fn lemma_wf_set_value(m: RegistryModel, id: u64, key: Seq<u8>, value_id: u64, value: ValueModel)
    requires
        m.wf(),
        m.has_identity(id),
        value.id == value_id,
        value_id < m.last_key_id(id, key),
    ensures
        m.set_value(id, key, value_id, value).wf(),
{
    let d = m.drawer(id, key);
    assert(m.stores[id].drawers[key] == d);
    let d2 = DrawerModel { values: d.values.update(value_id as int, Some(value)), ..d };
    assert(drawer_ok(d2)) by {
        assert forall|v: int| 0 <= v < d2.values.len() && #[trigger] d2.values[v] is Some implies d2.values[v]->0.id == v by {
            if v != value_id {
                assert(d2.values[v] == d.values[v]);
                assert(m.stores[id].drawers[key].values[v] == d.values[v]);
            }
        }
    }
    lemma_wf_with_drawer(m, id, key, d2);
}

pub proof fn lemma_wf_clear_value(m: RegistryModel, id: u64, key: Seq<u8>, value_id: u64)
    requires
        m.wf(),
        m.has_identity(id),
        value_id < m.last_key_id(id, key),
    ensures
        m.clear_value(id, key, value_id).wf(),
{
    let d = m.drawer(id, key);
    assert(m.stores[id].drawers[key] == d);
    let d2 = DrawerModel { values: clear_slot(d.values, value_id as int), ..d };
    lemma_clear_slot(d.values, value_id as int);
    assert(drawer_ok(d2)) by {
        assert forall|v: int| 0 <= v < d2.values.len() && #[trigger] d2.values[v] is Some implies d2.values[v]->0.id == v by {
            assert(d2.values[v] == d.values[v]);
            assert(m.stores[id].drawers[key].values[v] == d.values[v]);
        }
    }
    lemma_wf_with_drawer(m, id, key, d2);
}

pub proof fn lemma_wf_remove_identity(m: RegistryModel, id: u64)
    requires
        m.wf(),
        m.has_identity(id),
        !m.has_links(id),
    ensures
        m.remove_identity(id).wf(),
{
    let store = m.stores[id];
    let s = StoreModel {
        keys: Seq::empty(),
        drawers: Map::new(|k: Seq<u8>| true, |k: Seq<u8>| DrawerModel::empty()),
        ..store
    };
    assert(store_drawers_ok(s)) by {
        assert forall|k: Seq<u8>| #![trigger s.drawers[k]] s.drawers[k].modifiers.no_duplicates() by {
            assert(s.drawers[k].modifiers =~= Seq::<Seq<u8>>::empty());
        }
    }
    lemma_wf_with_store(m, id, s);
    let m1 = m.with_store(id, s);
    let m2 = m.remove_identity(id);
    assert(m2 == RegistryModel { identities: clear_slot(m1.identities, id as int), ..m1 });
    lemma_clear_slot(m1.identities, id as int);
    assert(m2.identities_wf()) by {
        assert forall|i: int| 0 <= i < m2.identities.len() && #[trigger] m2.identities[i] is Some implies m2.identities[i]->0.id == i by {
            assert(m2.identities[i] == m1.identities[i]);
        }
    }
    assert(m2.addresses_unique()) by {
        assert forall|i: int, j: int|
            0 <= i < m2.identities.len() && 0 <= j < m2.identities.len() && i != j
                && #[trigger] m2.identities[i] is Some && #[trigger] m2.identities[j] is Some
                implies m2.identities[i]->0.address != m2.identities[j]->0.address by {
            assert(m2.identities[i] == m1.identities[i]);
            assert(m2.identities[j] == m1.identities[j]);
        }
    }
    assert(m2.links_wf()) by {
        assert forall|l: int| 0 <= l < m2.links.len() && #[trigger] m2.links[l] is Some implies {
            let k = m2.links[l]->0;
            &&& k.id == l
            &&& m2.has_identity(k.child_id)
            &&& m2.has_identity(k.parent_id)
            &&& m2.children_links(k.child_id).contains(k.id)
            &&& m2.parent_links(k.parent_id).contains(k.id)
        } by {
            assert(m1.links[l] is Some);
            let k = m1.links[l]->0;
            assert(m1.children_links(k.child_id).contains(k.id));
            assert(m1.parent_links(k.parent_id).contains(k.id));
            if k.child_id == id {
                assert(m.children_links(id).len() > 0);
            }
            if k.parent_id == id {
                assert(m.parent_links(id).len() > 0);
            }
            assert(m2.identities[k.child_id as int] == m1.identities[k.child_id as int]);
            assert(m2.identities[k.parent_id as int] == m1.identities[k.parent_id as int]);
        }
    }
    assert(m2.link_lists_wf());
    assert(m2.drawers_wf());
    assert(m2.requests_wf());
}

pub proof fn lemma_wf_add_link(m: RegistryModel, child_id: u64, parent_id: u64, relation: Seq<u8>)
    requires
        m.wf(),
        m.has_identity(child_id),
        m.has_identity(parent_id),
        m.links.len() <= u64::MAX,
    ensures
        m.add_link(child_id, parent_id, relation).wf(),
{
    let l = m.links.len() as u64;
    let m2 = m.add_link(child_id, parent_id, relation);
    assert forall|x: u64| #![trigger m2.stores[x]]
        m2.stores[x].children_links == (if x == child_id {
            m.stores[x].children_links.push(l)
        } else {
            m.stores[x].children_links
        }) && m2.stores[x].parent_links == (if x == parent_id {
            m.stores[x].parent_links.push(l)
        } else {
            m.stores[x].parent_links
        }) && m2.stores[x].keys == m.stores[x].keys && m2.stores[x].drawers == m.stores[x].drawers by {}
    assert forall|x: u64| #![trigger m.stores[x]] !m.stores[x].children_links.contains(l)
        && !m.stores[x].parent_links.contains(l) by {
        if m.stores[x].children_links.contains(l) {
            let j = choose|j: int| 0 <= j < m.stores[x].children_links.len() && m.stores[x].children_links[j] == l;
            assert(m.link(m.stores[x].children_links[j]) is Some);
        }
        if m.stores[x].parent_links.contains(l) {
            let j = choose|j: int| 0 <= j < m.stores[x].parent_links.len() && m.stores[x].parent_links[j] == l;
            assert(m.link(m.stores[x].parent_links[j]) is Some);
        }
    }
    assert(m2.links_wf()) by {
        assert forall|a: int| 0 <= a < m2.links.len() && #[trigger] m2.links[a] is Some implies {
            let k = m2.links[a]->0;
            &&& k.id == a
            &&& m2.has_identity(k.child_id)
            &&& m2.has_identity(k.parent_id)
            &&& m2.children_links(k.child_id).contains(k.id)
            &&& m2.parent_links(k.parent_id).contains(k.id)
        } by {
            let k = m2.links[a]->0;
            assert(m2.stores[k.child_id].children_links == m2.children_links(k.child_id));
            assert(m2.stores[k.parent_id].parent_links == m2.parent_links(k.parent_id));
            if a < m.links.len() {
                assert(m.links[a] is Some);
                assert(m2.links[a] == m.links[a]);
                let c = m.children_links(k.child_id);
                let p = m.parent_links(k.parent_id);
                assert(c.contains(k.id));
                assert(p.contains(k.id));
                let jc = choose|j: int| 0 <= j < c.len() && c[j] == k.id;
                let jp = choose|j: int| 0 <= j < p.len() && p[j] == k.id;
                assert(m2.children_links(k.child_id)[jc] == k.id);
                assert(m2.parent_links(k.parent_id)[jp] == k.id);
            } else {
                let c = m2.children_links(k.child_id);
                let p = m2.parent_links(k.parent_id);
                assert(c[c.len() - 1] == l);
                assert(p[p.len() - 1] == l);
            }
        }
    }
    assert(m2.link_lists_wf()) by {
        assert forall|x: u64| #![trigger m2.stores[x]]
            m2.stores[x].children_links.no_duplicates() && m2.stores[x].parent_links.no_duplicates() by {
            assert(m.stores[x].children_links.no_duplicates());
            assert(m.stores[x].parent_links.no_duplicates());
            assert(!m.stores[x].children_links.contains(l));
            assert(!m.stores[x].parent_links.contains(l));
            lemma_set_insert(m.stores[x].children_links, l);
            lemma_set_insert(m.stores[x].parent_links, l);
        }
        assert forall|x: u64, j: int| 0 <= j < m2.stores[x].children_links.len() implies {
            let e = #[trigger] m2.stores[x].children_links[j];
            &&& m2.link(e) is Some
            &&& m2.link(e)->0.child_id == x
        } by {
            if j < m.stores[x].children_links.len() {
                assert(m2.stores[x].children_links[j] == m.stores[x].children_links[j]);
                let e = m.stores[x].children_links[j];
                assert(m.link(e) is Some);
            }
        }
        assert forall|x: u64, j: int| 0 <= j < m2.stores[x].parent_links.len() implies {
            let e = #[trigger] m2.stores[x].parent_links[j];
            &&& m2.link(e) is Some
            &&& m2.link(e)->0.parent_id == x
        } by {
            if j < m.stores[x].parent_links.len() {
                assert(m2.stores[x].parent_links[j] == m.stores[x].parent_links[j]);
                let e = m.stores[x].parent_links[j];
                assert(m.link(e) is Some);
            }
        }
    }
    assert(m2.drawers_wf()) by {
        assert forall|x: u64, k: Seq<u8>, v: int|
            0 <= v < m2.stores[x].drawers[k].values.len()
                && #[trigger] m2.stores[x].drawers[k].values[v] is Some
                implies m2.stores[x].drawers[k].values[v]->0.id == v by {
            assert(m2.stores[x].drawers == m.stores[x].drawers);
        }
    }
}

pub proof fn lemma_wf_remove_link(m: RegistryModel, link_id: u64)
    requires
        m.wf(),
        m.link(link_id) is Some,
    ensures
        m.remove_link(link_id).wf(),
{
    let k = m.link(link_id)->0;
    let m2 = m.remove_link(link_id);
    assert(m.links[link_id as int] is Some);
    lemma_clear_slot(m.links, link_id as int);
    assert forall|x: u64| #![trigger m2.stores[x]]
        m2.stores[x].children_links == (if x == k.child_id {
            set_swap_remove(m.stores[x].children_links, link_id)
        } else {
            m.stores[x].children_links
        }) && m2.stores[x].parent_links == (if x == k.parent_id {
            set_swap_remove(m.stores[x].parent_links, link_id)
        } else {
            m.stores[x].parent_links
        }) && m2.stores[x].keys == m.stores[x].keys && m2.stores[x].drawers == m.stores[x].drawers by {}
    assert forall|x: u64| #![trigger m.stores[x]]
        m.stores[x].children_links.no_duplicates() && m.stores[x].parent_links.no_duplicates()
        && (forall|y: u64| #[trigger] m2.stores[x].children_links.contains(y) <==> (
            m.stores[x].children_links.contains(y) && y != link_id))
        && (forall|y: u64| #[trigger] m2.stores[x].parent_links.contains(y) <==> (
            m.stores[x].parent_links.contains(y) && y != link_id))
        && m2.stores[x].children_links.no_duplicates()
        && m2.stores[x].parent_links.no_duplicates() by {
        lemma_set_swap_remove(m.stores[x].children_links, link_id);
        lemma_set_swap_remove(m.stores[x].parent_links, link_id);
        if x != k.child_id {
            assert forall|y: u64| #[trigger] m.stores[x].children_links.contains(y) implies y != link_id by {
                let j = choose|j: int| 0 <= j < m.stores[x].children_links.len() && m.stores[x].children_links[j] == y;
                assert(m.link(m.stores[x].children_links[j])->0.child_id == x);
            }
        }
        if x != k.parent_id {
            assert forall|y: u64| #[trigger] m.stores[x].parent_links.contains(y) implies y != link_id by {
                let j = choose|j: int| 0 <= j < m.stores[x].parent_links.len() && m.stores[x].parent_links[j] == y;
                assert(m.link(m.stores[x].parent_links[j])->0.parent_id == x);
            }
        }
    }
    assert(m2.links_wf()) by {
        assert forall|a: int| 0 <= a < m2.links.len() && #[trigger] m2.links[a] is Some implies {
            let k2 = m2.links[a]->0;
            &&& k2.id == a
            &&& m2.has_identity(k2.child_id)
            &&& m2.has_identity(k2.parent_id)
            &&& m2.children_links(k2.child_id).contains(k2.id)
            &&& m2.parent_links(k2.parent_id).contains(k2.id)
        } by {
            assert(a != link_id);
            assert(m2.links[a] == m.links[a]);
            assert(m.links[a] is Some);
            let k2 = m.links[a]->0;
            assert(m.children_links(k2.child_id).contains(k2.id));
            assert(m.parent_links(k2.parent_id).contains(k2.id));
            assert(m2.stores[k2.child_id].children_links.contains(k2.id));
            assert(m2.stores[k2.parent_id].parent_links.contains(k2.id));
        }
    }
    assert(m2.link_lists_wf()) by {
        assert forall|x: u64, j: int| 0 <= j < m2.stores[x].children_links.len() implies {
            let e = #[trigger] m2.stores[x].children_links[j];
            &&& m2.link(e) is Some
            &&& m2.link(e)->0.child_id == x
        } by {
            let e = m2.stores[x].children_links[j];
            assert(m2.stores[x].children_links.contains(e));
            assert(m.stores[x].children_links.contains(e) && e != link_id);
            let i = choose|i: int| 0 <= i < m.stores[x].children_links.len() && m.stores[x].children_links[i] == e;
            assert(m.link(m.stores[x].children_links[i]) is Some);
            assert(m2.links[e as int] == m.links[e as int]);
        }
        assert forall|x: u64, j: int| 0 <= j < m2.stores[x].parent_links.len() implies {
            let e = #[trigger] m2.stores[x].parent_links[j];
            &&& m2.link(e) is Some
            &&& m2.link(e)->0.parent_id == x
        } by {
            let e = m2.stores[x].parent_links[j];
            assert(m2.stores[x].parent_links.contains(e));
            assert(m.stores[x].parent_links.contains(e) && e != link_id);
            let i = choose|i: int| 0 <= i < m.stores[x].parent_links.len() && m.stores[x].parent_links[i] == e;
            assert(m.link(m.stores[x].parent_links[i]) is Some);
            assert(m2.links[e as int] == m.links[e as int]);
        }
    }
    assert(m2.drawers_wf()) by {
        assert forall|x: u64, kk: Seq<u8>, v: int|
            0 <= v < m2.stores[x].drawers[kk].values.len()
                && #[trigger] m2.stores[x].drawers[kk].values[v] is Some
                implies m2.stores[x].drawers[kk].values[v]->0.id == v by {
            assert(m2.stores[x].drawers == m.stores[x].drawers);
        }
    }
}

pub proof fn lemma_wf_push_link_request(m: RegistryModel, r: LinkRequestModel)
    requires
        m.wf(),
        r.id == m.link_requests.len(),
    ensures
        m.push_link_request(r).wf(),
{
    let m2 = m.push_link_request(r);
    assert(m2.links_wf()) by {
        assert forall|l: int| 0 <= l < m2.links.len() && #[trigger] m2.links[l] is Some implies {
            let k = m2.links[l]->0;
            &&& k.id == l
            &&& m2.has_identity(k.child_id)
            &&& m2.has_identity(k.parent_id)
            &&& m2.children_links(k.child_id).contains(k.id)
            &&& m2.parent_links(k.parent_id).contains(k.id)
        } by {
            assert(m.links[l] is Some);
        }
    }
    assert(m2.requests_wf()) by {
        assert forall|a: int| 0 <= a < m2.link_requests.len() && #[trigger] m2.link_requests[a] is Some implies m2.link_requests[a]->0.id == a by {
            if a < m.link_requests.len() {
                assert(m.link_requests[a] is Some);
            }
        }
    }
}

pub proof fn lemma_wf_clear_link_request(m: RegistryModel, request_id: u64)
    requires
        m.wf(),
        request_id < m.link_requests.len(),
    ensures
        m.clear_link_request(request_id).wf(),
{
    let m2 = m.clear_link_request(request_id);
    lemma_clear_slot(m.link_requests, request_id as int);
    assert(m2.links_wf()) by {
        assert forall|l: int| 0 <= l < m2.links.len() && #[trigger] m2.links[l] is Some implies {
            let k = m2.links[l]->0;
            &&& k.id == l
            &&& m2.has_identity(k.child_id)
            &&& m2.has_identity(k.parent_id)
            &&& m2.children_links(k.child_id).contains(k.id)
            &&& m2.parent_links(k.parent_id).contains(k.id)
        } by {
            assert(m.links[l] is Some);
        }
    }
    assert(m2.requests_wf()) by {
        assert forall|a: int| 0 <= a < m2.link_requests.len() && #[trigger] m2.link_requests[a] is Some implies m2.link_requests[a]->0.id == a by {
            assert(m2.link_requests[a] == m.link_requests[a]);
        }
    }
}

pub proof fn lemma_wf_push_unlink_request(m: RegistryModel, r: UnlinkRequestModel)
    requires
        m.wf(),
        r.id == m.unlink_requests.len(),
    ensures
        m.push_unlink_request(r).wf(),
{
    let m2 = m.push_unlink_request(r);
    assert(m2.links_wf()) by {
        assert forall|l: int| 0 <= l < m2.links.len() && #[trigger] m2.links[l] is Some implies {
            let k = m2.links[l]->0;
            &&& k.id == l
            &&& m2.has_identity(k.child_id)
            &&& m2.has_identity(k.parent_id)
            &&& m2.children_links(k.child_id).contains(k.id)
            &&& m2.parent_links(k.parent_id).contains(k.id)
        } by {
            assert(m.links[l] is Some);
        }
    }
    assert(m2.requests_wf()) by {
        assert forall|a: int| 0 <= a < m2.unlink_requests.len() && #[trigger] m2.unlink_requests[a] is Some implies m2.unlink_requests[a]->0.id == a by {
            if a < m.unlink_requests.len() {
                assert(m.unlink_requests[a] is Some);
            }
        }
    }
}

pub proof fn lemma_wf_clear_unlink_request(m: RegistryModel, request_id: u64)
    requires
        m.wf(),
        request_id < m.unlink_requests.len(),
    ensures
        m.clear_unlink_request(request_id).wf(),
{
    let m2 = m.clear_unlink_request(request_id);
    lemma_clear_slot(m.unlink_requests, request_id as int);
    assert(m2.links_wf()) by {
        assert forall|l: int| 0 <= l < m2.links.len() && #[trigger] m2.links[l] is Some implies {
            let k = m2.links[l]->0;
            &&& k.id == l
            &&& m2.has_identity(k.child_id)
            &&& m2.has_identity(k.parent_id)
            &&& m2.children_links(k.child_id).contains(k.id)
            &&& m2.parent_links(k.parent_id).contains(k.id)
        } by {
            assert(m.links[l] is Some);
        }
    }
    assert(m2.requests_wf()) by {
        assert forall|a: int| 0 <= a < m2.unlink_requests.len() && #[trigger] m2.unlink_requests[a] is Some implies m2.unlink_requests[a]->0.id == a by {
            assert(m2.unlink_requests[a] == m.unlink_requests[a]);
        }
    }
}

/// The link found between a parent and a child exists at its id, joins them,
/// and both identities exist.
pub proof fn lemma_link_by_ids(m: RegistryModel, parent_id: u64, child_id: u64)
    requires
        m.wf(),
        m.link_by_ids(parent_id, child_id) is Some,
    ensures
        ({
            let k = m.link_by_ids(parent_id, child_id)->0;
            &&& m.link(k.id) == Some(k)
            &&& k.child_id == child_id
            &&& k.parent_id == parent_id
            &&& m.has_identity(child_id)
            &&& m.has_identity(parent_id)
        }),
{
    let s = m.children_links(child_id);
    let p = m.links_to_parent(parent_id);
    lemma_first_index_some(s, p, s.len() as int);
    let j = first_index(s, p, s.len() as int)->0;
    let l = s[j];
    assert(m.stores[child_id].children_links[j] == l);
    assert(m.link(l) is Some);
    assert(m.links[l as int] is Some);
}

/// Revoking write access changes neither identities nor links.
pub proof fn lemma_revoke_frame(m: RegistryModel, id: u64, address: Seq<u8>)
    ensures
        m.revoke(id, address).identities == m.identities,
        m.revoke(id, address).links == m.links,
        forall|x: u64| #![trigger m.revoke(id, address).stores[x]]
            m.revoke(id, address).stores[x].children_links == m.stores[x].children_links
            && m.revoke(id, address).stores[x].parent_links == m.stores[x].parent_links,
{
}

/// Adding a value changes neither the state, the identities, nor who may write where.
pub proof fn lemma_add_value_frame(m: RegistryModel, id: u64, key: Seq<u8>, value: ValueModel)
    ensures
        m.add_value(id, key, value).state == m.state,
        m.add_value(id, key, value).identities == m.identities,
        forall|x: u64, k: Seq<u8>| #[trigger] m.add_value(id, key, value).modifiers(x, k) == m.modifiers(x, k),
{
    let m2 = m.add_value(id, key, value);
    assert forall|x: u64, k: Seq<u8>| #[trigger] m2.modifiers(x, k) == m.modifiers(x, k) by {
        if x == id && k == key {
        }
    }
}

pub proof fn lemma_set_insert_contains<T>(s: Seq<T>, x: T)
    ensures
        set_insert(s, x).contains(x),
{
    if !s.contains(x) {
        assert(s.push(x)[s.len() as int] == x);
    }
}

/// Granting write access changes neither identities nor links.
pub proof fn lemma_grant_keys_frame(m: RegistryModel, id: u64, keys: Seq<Seq<u8>>, address: Seq<u8>)
    ensures
        m.grant_keys(id, keys, address).identities == m.identities,
        m.grant_keys(id, keys, address).links == m.links,
        m.grant_keys(id, keys, address).link_requests == m.link_requests,
        m.grant_keys(id, keys, address).unlink_requests == m.unlink_requests,
        forall|x: u64| #![trigger m.grant_keys(id, keys, address).stores[x]]
            m.grant_keys(id, keys, address).stores[x].children_links == m.stores[x].children_links
            && m.grant_keys(id, keys, address).stores[x].parent_links == m.stores[x].parent_links,
    decreases keys.len(),
{
    if keys.len() > 0 {
        lemma_grant_keys_frame(m, id, keys.drop_last(), address);
    }
}

/// Granting write access under keys leaves `address` among the modifiers of each.
pub proof fn lemma_grant_keys_grants(
    m: RegistryModel,
    id: u64,
    keys: Seq<Seq<u8>>,
    address: Seq<u8>,
    key: Seq<u8>,
)
    requires
        keys.contains(key),
    ensures
        m.grant_keys(id, keys, address).modifiers(id, key).contains(address),
    decreases keys.len(),
{
    let m1 = m.grant_keys(id, keys.drop_last(), address);
    if keys.last() == key {
        lemma_set_insert_contains(m1.modifiers(id, key), address);
    } else {
        let i = choose|i: int| 0 <= i < keys.len() && keys[i] == key;
        assert(keys.drop_last()[i] == key);
        lemma_grant_keys_grants(m, id, keys.drop_last(), address, key);
        let s = m1.modifiers(id, keys.last());
        if m1.modifiers(id, key).contains(address) {
            let j = choose|j: int| 0 <= j < m1.modifiers(id, key).len() && m1.modifiers(id, key)[j] == address;
            assert(m.grant_keys(id, keys, address).modifiers(id, key)[j] == address);
        }
    }
}
/// Removing the element just appended to an ordered set that lacked it gives the set back.
pub proof fn lemma_swap_remove_pushed<T>(s: Seq<T>, x: T)
    requires
        !s.contains(x),
    ensures
        crate::model::set_swap_remove(s.push(x), x) == s,
{
    let t = s.push(x);
    assert(t[s.len() as int] == x);
    assert(t.contains(x));
    let i = t.index_of(x);
    assert(t[i] == x);
    if i < s.len() {
        assert(s[i] == x);
    }
    assert(i == s.len());
    assert(t.update(i, t.last()).drop_last() =~= s);
}

/// Granting write access leaves the state as it was.
pub proof fn lemma_grant_keys_state(m: RegistryModel, id: u64, keys: Seq<Seq<u8>>, address: Seq<u8>)
    ensures
        m.grant_keys(id, keys, address).state == m.state,
    decreases keys.len(),
{
    if keys.len() > 0 {
        lemma_grant_keys_state(m, id, keys.drop_last(), address);
    }
}

/// Inserting into an ordered set adds exactly the inserted element.
pub proof fn lemma_set_insert_has<T>(s: Seq<T>, x: T, y: T)
    ensures
        set_insert(s, x).contains(y) <==> (s.contains(y) || y == x),
{
    if !s.contains(x) {
        let t = s.push(x);
        assert(t[s.len() as int] == x);
        if t.contains(y) {
            let j = choose|j: int| 0 <= j < t.len() && t[j] == y;
            if j < s.len() {
                assert(s[j] == y);
            }
        }
        if s.contains(y) {
            let j = choose|j: int| 0 <= j < s.len() && s[j] == y;
            assert(t[j] == y);
        }
    }
}

/// An identity found by its address has that address and sits at its own id.
pub proof fn lemma_identity_by_address_found(m: RegistryModel, address: Seq<u8>)
    requires
        m.wf(),
        m.identity_by_address(address) is Some,
    ensures
        m.identity_by_address(address)->0.address == address,
        m.identity(m.identity_by_address(address)->0.id) == m.identity_by_address(address),
{
    let p = has_address(address);
    let n = m.identities.len() as int;
    lemma_first_index_some(m.identities, p, n);
    let i = first_index(m.identities, p, n)->0;
    assert(p(m.identities[i]));
    assert(m.identities[i] is Some);
}

/// After a link is added, an identity is a parent of another exactly when it
/// was before or the new link joins them.
pub proof fn lemma_add_link_parents(
    m: RegistryModel,
    child_id: u64,
    parent_id: u64,
    relation: Seq<u8>,
    q: u64,
    x: u64,
)
    requires
        m.wf(),
        m.links.len() < u64::MAX,
    ensures
        m.add_link(child_id, parent_id, relation).is_parent_of(q, x) <==> (m.is_parent_of(q, x) || (q
            == parent_id && x == child_id)),
{
    let m1 = m.add_link(child_id, parent_id, relation);
    let l = m.links.len() as u64;
    let old_list = m.children_links(x);
    let new_list = m1.children_links(x);
    if x == child_id {
        assert(new_list == old_list.push(l));
    } else {
        assert(new_list == old_list);
    }
    assert forall|j: int| 0 <= j < old_list.len() implies m1.link(#[trigger] old_list[j]) == m.link(
        old_list[j],
    ) && new_list[j] == old_list[j] by {
        assert(m.link(m.stores[x].children_links[j]) is Some);
    }
    if m1.is_parent_of(q, x) {
        let j = choose|j: int|
            0 <= j < new_list.len() && (#[trigger] m1.link(new_list[j]))->0.parent_id == q;
        if j < old_list.len() {
            assert(m.link(old_list[j])->0.parent_id == q);
        } else {
            assert(new_list[j] == l);
            assert(m1.link(l)->0.parent_id == parent_id);
        }
    }
    if m.is_parent_of(q, x) {
        let j = choose|j: int|
            0 <= j < old_list.len() && (#[trigger] m.link(old_list[j]))->0.parent_id == q;
        assert(m1.link(new_list[j])->0.parent_id == q);
    }
    if q == parent_id && x == child_id {
        let j = old_list.len() as int;
        assert(new_list[j] == l);
        assert(m1.link(new_list[j])->0.parent_id == q);
    }
}

/// Granting write access under keys adds exactly the address, under exactly those keys.
pub proof fn lemma_grant_keys_modifiers(
    m: RegistryModel,
    id: u64,
    keys: Seq<Seq<u8>>,
    address: Seq<u8>,
    x: u64,
    k: Seq<u8>,
    y: Seq<u8>,
)
    ensures
        m.grant_keys(id, keys, address).modifiers(x, k).contains(y) <==> (m.modifiers(x, k).contains(y)
            || (x == id && keys.contains(k) && y == address)),
        !(x == id && keys.contains(k)) ==> m.grant_keys(id, keys, address).modifiers(x, k)
            == m.modifiers(x, k),
    decreases keys.len(),
{
    if keys.len() > 0 {
        let ks = keys.drop_last();
        lemma_grant_keys_modifiers(m, id, ks, address, x, k, y);
        let m1 = m.grant_keys(id, ks, address);
        if x == id && k == keys.last() {
            lemma_set_insert_has(m1.modifiers(x, k), address, y);
            assert(keys[keys.len() - 1] == k);
        }
        if keys.contains(k) && k != keys.last() {
            let i = choose|i: int| 0 <= i < keys.len() && keys[i] == k;
            assert(ks[i] == k);
        }
        if ks.contains(k) {
            let i = choose|i: int| 0 <= i < ks.len() && ks[i] == k;
            assert(keys[i] == k);
        }
    }
}
} // verus!
