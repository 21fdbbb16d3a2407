use vstd::prelude::*;

use crate::contract::{
    accept_link_error, accept_unlink_error, add_modifier_error, add_value_error,
    delete_link_request_error, delete_unlink_request_error, edit_identity_error, edited_identity,
    edit_value_error, is_other_parent, is_owner, modifier_removed, linked, modifier_added, new_identity_error, new_value,
    remove_identity_error, remove_identity_link_error, remove_modifier_error, remove_value_error,
    request_link_error, request_unlink_error, unlinked, value_added, values_added,
};
use crate::model::{first_index, has_address, set_insert, RegistryModel};
use crate::types::{
    CallModel, ContractError, IdentityModel, LinkRequestModel, State, UnlinkRequestModel,
};

verus! {

/// While the registry is inactive, every request but those on the state itself
/// is refused as inactive.
pub proof fn law_inactive_refuses_all(
    m: RegistryModel,
    ctx: CallModel,
    id: u64,
    other_id: u64,
    key: Seq<u8>,
    bytes: Seq<u8>,
    keys: Seq<Seq<u8>>,
)
    requires
        m.state == State::Inactive,
    ensures
        new_identity_error(m, bytes, key) == Some(ContractError::NotActive),
        edit_identity_error(m, ctx, id) == Some(ContractError::NotActive),
        remove_identity_error(m, ctx, id) == Some(ContractError::NotActive),
        request_link_error(m, ctx, id, other_id, bytes, keys) == Some(ContractError::NotActive),
        delete_link_request_error(m, ctx, id) == Some(ContractError::NotActive),
        accept_link_error(m, ctx, id) == Some(ContractError::NotActive),
        request_unlink_error(m, ctx, id, other_id) == Some(ContractError::NotActive),
        delete_unlink_request_error(m, ctx, id) == Some(ContractError::NotActive),
        accept_unlink_error(m, ctx, id) == Some(ContractError::NotActive),
        remove_identity_link_error(m, ctx, id, other_id) == Some(ContractError::NotActive),
        add_modifier_error(m, ctx, id, key, bytes) == Some(ContractError::NotActive),
        remove_modifier_error(m, ctx, id, key, bytes) == Some(ContractError::NotActive),
        add_value_error(m, ctx, id, key) == Some(ContractError::NotActive),
        edit_value_error(m, ctx, id, key, other_id) == Some(ContractError::NotActive),
        remove_value_error(m, ctx, id, key, other_id) == Some(ContractError::NotActive),
{
}

/// In a well-formed registry an address belongs to at most one identity, and
/// the search by address finds exactly that one.
pub proof fn law_address_identifies(m: RegistryModel, id: u64)
    requires
        m.wf(),
        m.has_identity(id),
    ensures
        m.identity_by_address(m.identity(id)->0.address) == m.identity(id),
{
    let a = m.identity(id)->0.address;
    let p = has_address(a);
    let n = m.identities.len() as int;
    assert(p(m.identities[id as int]));
    crate::invariants::lemma_first_index_exists(m.identities, p, n, id as int);
    crate::invariants::lemma_first_index_some(m.identities, p, n);
    let i = first_index(m.identities, p, n)->0;
    assert(m.identities[i] is Some);
    if i != id {
        assert(m.identities[i]->0.address != m.identities[id as int]->0.address);
    }
}

/// A newly registered identity is found at its id, and by its address.
pub proof fn law_new_identity_readable(m: RegistryModel, identity: IdentityModel)
    requires
        m.wf(),
        identity.id == m.last_identity_id(),
        m.identity_by_address(identity.address) is None,
    ensures
        m.push_identity(identity).identity(identity.id) == Some(identity),
        m.push_identity(identity).last_identity_id() == m.last_identity_id() + 1,
        m.push_identity(identity).identity_by_address(identity.address) == Some(identity),
{
    crate::invariants::lemma_wf_push_identity(m, identity);
    law_address_identifies(m.push_identity(identity), identity.id);
}

/// A removed identity is gone, with its keys, the values under them, and
/// every address that could write under any key of it.
pub proof fn law_removed_identity_gone(m: RegistryModel, id: u64, key: Seq<u8>, value_id: u64)
    requires
        m.has_identity(id),
    ensures
        m.remove_identity(id).identity(id) is None,
        m.remove_identity(id).keys(id).len() == 0,
        m.remove_identity(id).value(id, key, value_id) is None,
        m.remove_identity(id).modifiers(id, key).len() == 0,
{
}

/// A value added under a key is found at the value id that was returned, and
/// the key is among the keys of the identity.
pub proof fn law_added_value_readable(
    m: RegistryModel,
    ctx: CallModel,
    id: u64,
    key: Seq<u8>,
    value: Seq<u8>,
)
    requires
        m.last_key_id(id, key) < u64::MAX,
    ensures
        value_added(m, ctx, id, key, value).value(id, key, m.last_key_id(id, key) as u64) == Some(
            new_value(m, ctx, id, key, value),
        ),
        value_added(m, ctx, id, key, value).last_key_id(id, key) == m.last_key_id(id, key) + 1,
        value_added(m, ctx, id, key, value).keys(id).contains(key),
{
    let m2 = value_added(m, ctx, id, key, value);
    crate::invariants::lemma_set_insert_contains(m.keys(id), key);
}

/// A removed value is gone.
pub proof fn law_removed_value_gone(m: RegistryModel, id: u64, key: Seq<u8>, value_id: u64)
    requires
        value_id < m.last_key_id(id, key),
    ensures
        m.clear_value(id, key, value_id).value(id, key, value_id) is None,
{
}

/// An accepted link request links the parent to the child, and the parent
/// may then write under each requested key of the child.
pub proof fn law_accepted_link(m: RegistryModel, r: LinkRequestModel, key: Seq<u8>)
    requires
        m.wf(),
        m.has_identity(r.child_id),
        m.has_identity(r.parent_id),
        m.links.len() < u64::MAX,
    ensures
        linked(m, r).is_parent_of(r.parent_id, r.child_id),
        r.keys.contains(key) ==> linked(m, r).modifiers(r.child_id, key).contains(
            m.identity(r.parent_id)->0.address,
        ),
{
    let m1 = m.add_link(r.child_id, r.parent_id, r.relation);
    let address = m.identity(r.parent_id)->0.address;
    let l = m.links.len() as u64;
    let c = m1.children_links(r.child_id);
    assert(c[c.len() - 1] == l);
    assert(m1.link(l) is Some);
    crate::invariants::lemma_grant_keys_frame(m1, r.child_id, r.keys, address);
    assert(linked(m, r).link(c[c.len() - 1]) == m1.link(c[c.len() - 1]));
    if r.keys.contains(key) {
        crate::invariants::lemma_grant_keys_grants(m1, r.child_id, r.keys, address, key);
    }
}

/// After an unlink, the parent may no longer write under any key of the
/// child, whether or not a value was ever added under it.
pub proof fn law_unlinked_revokes(m: RegistryModel, parent_id: u64, child_id: u64, key: Seq<u8>)
    requires
        m.wf(),
        m.link_by_ids(parent_id, child_id) is Some,
    ensures
        !unlinked(m, parent_id, child_id).modifiers(child_id, key).contains(
            m.identity(parent_id)->0.address,
        ),
        unlinked(m, parent_id, child_id).link(m.link_by_ids(parent_id, child_id)->0.id) is None,
{
    crate::invariants::lemma_link_by_ids(m, parent_id, child_id);
    let k = m.link_by_ids(parent_id, child_id)->0;
    let address = m.identity(parent_id)->0.address;
    let m1 = m.revoke(child_id, address);
    assert(m1.modifiers(child_id, key) == (if m.modifiers(child_id, key).contains(address) {
        Seq::<Seq<u8>>::empty()
    } else {
        m.modifiers(child_id, key)
    }));
    crate::invariants::lemma_clear_slot(m1.links, k.id as int);
    assert(m1.links[k.id as int] is Some);
}

/// A key that someone may already write under, or that holds a value, gains
/// no modifier unless the owner asks: once a parent writes under a key, no
/// other parent may.
pub proof fn law_key_held_by_first(
    m: RegistryModel,
    ctx: CallModel,
    id: u64,
    key: Seq<u8>,
    modifier: Seq<u8>,
)
    requires
        !is_owner(ctx),
        m.modifiers(id, key).len() > 0 || m.key_values(id, key).len() > 0,
    ensures
        add_modifier_error(m, ctx, id, key, modifier) is None ==> modifier_added(
            m,
            ctx,
            id,
            key,
            modifier,
        ) == m,
{
}


/// Withdrawing a link request right after making it leaves the registry as it was.
pub proof fn law_withdrawn_link_request_undoes(m: RegistryModel, r: LinkRequestModel)
    requires
        m.link_requests.len() < u64::MAX,
    ensures
        m.push_link_request(r).clear_link_request(m.link_requests.len() as u64) == m,
{
    let m2 = m.push_link_request(r).clear_link_request(m.link_requests.len() as u64);
    assert(m2.link_requests =~= m.link_requests);
}

/// Withdrawing an unlink request right after making it leaves the registry as it was.
pub proof fn law_withdrawn_unlink_request_undoes(m: RegistryModel, r: UnlinkRequestModel)
    requires
        m.unlink_requests.len() < u64::MAX,
    ensures
        m.push_unlink_request(r).clear_unlink_request(m.unlink_requests.len() as u64) == m,
{
    let m2 = m.push_unlink_request(r).clear_unlink_request(m.unlink_requests.len() as u64);
    assert(m2.unlink_requests =~= m.unlink_requests);
}

/// Removing a link right after creating it leaves the registry as it was.
pub proof fn law_removed_link_undoes(m: RegistryModel, child_id: u64, parent_id: u64, relation: Seq<u8>)
    requires
        m.wf(),
        m.links.len() < u64::MAX,
    ensures
        m.add_link(child_id, parent_id, relation).remove_link(m.links.len() as u64) =~~= m,
{
    let l = m.links.len() as u64;
    let m1 = m.add_link(child_id, parent_id, relation);
    let m2 = m1.remove_link(l);
    assert forall|x: u64| #![trigger m.stores[x]]
        !m.stores[x].children_links.contains(l) && !m.stores[x].parent_links.contains(l) by {
        if m.stores[x].children_links.contains(l) {
            let j = choose|j: int| 0 <= j < m.stores[x].children_links.len() && m.stores[x].children_links[j] == l;
            assert(m.link(m.stores[x].children_links[j]) is Some);
        }
        if m.stores[x].parent_links.contains(l) {
            let j = choose|j: int| 0 <= j < m.stores[x].parent_links.len() && m.stores[x].parent_links[j] == l;
            assert(m.link(m.stores[x].parent_links[j]) is Some);
        }
    }
    assert(m1.link(l) == Some(crate::types::LinkModel { id: l, child_id, parent_id, relation }));
    crate::invariants::lemma_swap_remove_pushed(m.children_links(child_id), l);
    let c1 = m1.children_links(child_id);
    assert(c1 == m.children_links(child_id).push(l));
    let p1 = m1.parent_links(parent_id);
    if parent_id == child_id {
        assert(p1 == m.parent_links(parent_id).push(l));
    } else {
        assert(p1 == m.parent_links(parent_id).push(l));
    }
    crate::invariants::lemma_swap_remove_pushed(m.parent_links(parent_id), l);
    assert forall|x: u64| #![auto] m2.stores[x] =~~= m.stores[x] by {}
    assert(m2.stores =~~= m.stores);
    assert(m2.links =~= m.links);
}


/// Once a link request is accepted, the parent may add values under each key it named.
pub proof fn law_parent_writes_granted_keys(
    m: RegistryModel,
    r: LinkRequestModel,
    ctx: CallModel,
    key: Seq<u8>,
)
    requires
        m.wf(),
        m.state == State::Active,
        m.has_identity(r.child_id),
        m.has_identity(r.parent_id),
        ctx.caller == m.identity(r.parent_id)->0.address,
        r.keys.contains(key),
    ensures
        add_value_error(linked(m, r), ctx, r.child_id, key) is None,
{
    let m1 = m.add_link(r.child_id, r.parent_id, r.relation);
    crate::invariants::lemma_grant_keys_frame(m1, r.child_id, r.keys, ctx.caller);
    crate::invariants::lemma_grant_keys_grants(m1, r.child_id, r.keys, ctx.caller, key);
    crate::invariants::lemma_grant_keys_state(m1, r.child_id, r.keys, ctx.caller);
}

/// In a well-formed registry the link lists agree with the links: a link is
/// listed for an identity as child (as parent) exactly when it exists and has
/// that identity as its child (its parent), and every link sits at its own id.
pub proof fn law_link_lists_agree(m: RegistryModel, link_id: u64, id: u64)
    requires
        m.wf(),
    ensures
        m.children_links(id).contains(link_id) <==> (m.link(link_id) is Some && m.link(link_id)->0.child_id
            == id),
        m.parent_links(id).contains(link_id) <==> (m.link(link_id) is Some && m.link(link_id)->0.parent_id
            == id),
        m.link(link_id) is Some ==> m.link(link_id)->0.id == link_id,
{
    if m.children_links(id).contains(link_id) {
        let j = choose|j: int| 0 <= j < m.stores[id].children_links.len() && m.stores[id].children_links[j] == link_id;
        assert(m.link(m.stores[id].children_links[j]) is Some);
    }
    if m.parent_links(id).contains(link_id) {
        let j = choose|j: int| 0 <= j < m.stores[id].parent_links.len() && m.stores[id].parent_links[j] == link_id;
        assert(m.link(m.stores[id].parent_links[j]) is Some);
    }
    if m.link(link_id) is Some {
        assert(m.links[link_id as int] is Some);
    }
}

/// Creating a link from a request, and removing a link, keep the registry
/// well-formed, so its link lists keep agreeing with its links.
pub proof fn law_linking_keeps_wf(m: RegistryModel, r: LinkRequestModel, parent_id: u64, child_id: u64)
    requires
        m.wf(),
    ensures
        m.has_identity(r.child_id) && m.has_identity(r.parent_id) && m.links.len() < u64::MAX
            ==> linked(m, r).wf(),
        m.link_by_ids(parent_id, child_id) is Some ==> unlinked(m, parent_id, child_id).wf(),
{
    if m.has_identity(r.child_id) && m.has_identity(r.parent_id) && m.links.len() < u64::MAX {
        crate::invariants::lemma_wf_add_link(m, r.child_id, r.parent_id, r.relation);
        let m1 = m.add_link(r.child_id, r.parent_id, r.relation);
        assert(m1.identities == m.identities);
        crate::invariants::lemma_wf_grant_keys(m1, r.child_id, r.keys, m.identity(r.parent_id)->0.address);
    }
    if m.link_by_ids(parent_id, child_id) is Some {
        crate::invariants::lemma_link_by_ids(m, parent_id, child_id);
        let k = m.link_by_ids(parent_id, child_id)->0;
        assert(m.links[k.id as int] is Some);
        let address = m.identity(k.parent_id)->0.address;
        crate::invariants::lemma_wf_revoke(m, child_id, address);
        crate::invariants::lemma_revoke_frame(m, child_id, address);
        crate::invariants::lemma_wf_remove_link(m.revoke(child_id, address), k.id);
    }
}

/// Removing an identity right after registering it succeeds for its address
/// and leaves the registry as it was.
pub proof fn law_removed_new_identity_undoes(m: RegistryModel, ctx: CallModel, identity: IdentityModel)
    requires
        m.wf(),
        m.state == State::Active,
        identity.id == m.last_identity_id(),
        ctx.caller == identity.address,
    ensures
        remove_identity_error(m.push_identity(identity), ctx, identity.id) is None,
        m.push_identity(identity).remove_identity(identity.id) =~~= m,
{
    let id = identity.id;
    let m1 = m.push_identity(identity);
    assert(!m.has_identity(id));
    assert(m.stores.dom().contains(id));
    if m.children_links(id).len() > 0 {
        assert(m.link(m.stores[id].children_links[0]) is Some);
        assert(m.links[m.stores[id].children_links[0] as int] is Some);
    }
    if m.parent_links(id).len() > 0 {
        assert(m.link(m.stores[id].parent_links[0]) is Some);
        assert(m.links[m.stores[id].parent_links[0] as int] is Some);
    }
    assert(!m1.has_links(id));
    let m2 = m1.remove_identity(id);
    assert(m2.identities =~= m.identities);
    let s = m.stores[id];
    assert(s.drawers =~~= Map::new(|k: Seq<u8>| true, |k: Seq<u8>| crate::model::DrawerModel::empty()));
    assert(m2.stores[id] =~~= s);
    assert(m2.stores =~~= m.stores);
}

/// Taking away a modifier right after adding it leaves the registry as it was.
pub proof fn law_removed_modifier_undoes(m: RegistryModel, id: u64, key: Seq<u8>, address: Seq<u8>)
    requires
        m.wf(),
        !m.modifiers(id, key).contains(address),
    ensures
        m.insert_modifier(id, key, address).remove_modifier(id, key, address) =~~= m,
{
    let m1 = m.insert_modifier(id, key, address);
    let m2 = m1.remove_modifier(id, key, address);
    assert(m.stores.dom().contains(id));
    assert(m.stores[id].drawers.dom().contains(key));
    crate::invariants::lemma_swap_remove_pushed(m.modifiers(id, key), address);
    assert(m1.modifiers(id, key) == m.modifiers(id, key).push(address));
    assert(m2.drawer(id, key) =~~= m.drawer(id, key));
    assert(m2.stores[id].drawers =~~= m.stores[id].drawers);
    assert(m2.stores =~~= m.stores);
}

/// A link request that names a key under which another parent of the child
/// may write is refused.
pub proof fn law_held_key_blocks_request(
    m: RegistryModel,
    ctx: CallModel,
    parent_id: u64,
    child_id: u64,
    relation: Seq<u8>,
    keys: Seq<Seq<u8>>,
    i: int,
    other_id: u64,
)
    requires
        m.wf(),
        0 <= i < keys.len(),
        m.has_identity(parent_id),
        m.has_identity(other_id),
        m.is_parent_of(other_id, child_id),
        m.identity(other_id)->0.address != m.identity(parent_id)->0.address,
        m.modifiers(child_id, keys[i]).contains(m.identity(other_id)->0.address),
    ensures
        request_link_error(m, ctx, parent_id, child_id, relation, keys) is Some,
{
    let a = m.identity(other_id)->0.address;
    law_address_identifies(m, other_id);
    let s = m.modifiers(child_id, keys[i]);
    let j = choose|j: int| 0 <= j < s.len() && s[j] == a;
    assert(is_other_parent(m, child_id, m.modifiers(child_id, keys[i])[j], m.identity(parent_id)->0.address));
}

/// What a parent address is after a link request is accepted: a parent's
/// address before, or the address of the new parent of the child.
proof fn lemma_linked_parent_address(m: RegistryModel, r: LinkRequestModel, request_id: u64, x: u64, a: Seq<u8>)
    requires
        m.wf(),
        m.links.len() < u64::MAX,
        m.has_identity(r.child_id),
        m.has_identity(r.parent_id),
    ensures
        linked(m, r).clear_link_request(request_id).is_parent_address(x, a) <==> (m.is_parent_address(x, a)
            || (x == r.child_id && a == m.identity(r.parent_id)->0.address)),
{
    let bb = m.identity(r.parent_id)->0.address;
    let m1 = m.add_link(r.child_id, r.parent_id, r.relation);
    let m3 = linked(m, r).clear_link_request(request_id);
    crate::invariants::lemma_grant_keys_frame(m1, r.child_id, r.keys, bb);
    assert(m3.identities == m.identities);
    assert(m3.identity_by_address(a) == m.identity_by_address(a));
    assert(m3.children_links(x) == m1.children_links(x));
    assert(m3.links == m1.links);
    law_address_identifies(m, r.parent_id);
    match m.identity_by_address(a) {
        Some(p) => {
            crate::invariants::lemma_identity_by_address_found(m, a);
            crate::invariants::lemma_add_link_parents(m, r.child_id, r.parent_id, r.relation, p.id, x);
            if m1.is_parent_of(p.id, x) {
                let j = choose|j: int|
                    0 <= j < m1.children_links(x).len() && (#[trigger] m1.link(m1.children_links(x)[j]))->0.parent_id
                        == p.id;
                assert(m3.link(m3.children_links(x)[j])->0.parent_id == p.id);
            }
            if m3.is_parent_of(p.id, x) {
                let j = choose|j: int|
                    0 <= j < m3.children_links(x).len() && (#[trigger] m3.link(m3.children_links(x)[j]))->0.parent_id
                        == p.id;
                assert(m1.link(m1.children_links(x)[j])->0.parent_id == p.id);
            }
            if p.id == r.parent_id {
                assert(a == bb);
            }
        },
        None => {
            if x == r.child_id && a == bb {
                assert(m.identity_by_address(bb) == m.identity(r.parent_id));
            }
        },
    }
}

/// Accepting a link request keeps every key writable by at most one parent
/// of the child, when the new parent was already a parent of the child or
/// may write under no key of it.
pub proof fn law_accept_keeps_keys_exclusive(m: RegistryModel, ctx: CallModel, request_id: u64)
    requires
        m.wf(),
        m.keys_exclusive(),
        m.links.len() < u64::MAX,
        accept_link_error(m, ctx, request_id) is None,
        ({
            let r = m.link_request(request_id)->0;
            m.is_parent_of(r.parent_id, r.child_id) || forall|k: Seq<u8>|
                !(#[trigger] m.modifiers(r.child_id, k).contains(m.identity(r.parent_id)->0.address))
        }),
    ensures
        linked(m, m.link_request(request_id)->0).clear_link_request(request_id).keys_exclusive(),
{
    let r = m.link_request(request_id)->0;
    let c = r.child_id;
    let bb = m.identity(r.parent_id)->0.address;
    let m1 = m.add_link(c, r.parent_id, r.relation);
    let m3 = linked(m, r).clear_link_request(request_id);
    law_address_identifies(m, r.parent_id);
    assert forall|x: u64, k: Seq<u8>| #[trigger] m3.key_exclusive(x, k) by {
        assert forall|a: Seq<u8>, b: Seq<u8>|
            m3.modifiers(x, k).contains(a) && m3.modifiers(x, k).contains(b) && m3.is_parent_address(x, a)
                && m3.is_parent_address(x, b) implies a == b by {
            assert(m1.modifiers(x, k) == m.modifiers(x, k));
            crate::invariants::lemma_grant_keys_modifiers(m1, c, r.keys, bb, x, k, a);
            crate::invariants::lemma_grant_keys_modifiers(m1, c, r.keys, bb, x, k, b);
            lemma_linked_parent_address(m, r, request_id, x, a);
            lemma_linked_parent_address(m, r, request_id, x, b);
            if x == c && r.keys.contains(k) {
                let i = choose|i: int| 0 <= i < r.keys.len() && r.keys[i] == k;
                if a != bb {
                    let s = m.modifiers(c, r.keys[i]);
                    let j = choose|j: int| 0 <= j < s.len() && s[j] == a;
                    assert(!is_other_parent(m, c, m.modifiers(c, r.keys[i])[j], bb));
                }
                if b != bb {
                    let s = m.modifiers(c, r.keys[i]);
                    let j = choose|j: int| 0 <= j < s.len() && s[j] == b;
                    assert(!is_other_parent(m, c, m.modifiers(c, r.keys[i])[j], bb));
                }
            } else {
                if x == c && (a == bb || b == bb) && m.modifiers(c, k).contains(bb) {
                    assert(m.is_parent_of(r.parent_id, c));
                    assert(m.is_parent_address(c, bb));
                }
                assert(m.key_exclusive(x, k));
                assert(m.modifiers(x, k).contains(a) && m.modifiers(x, k).contains(b));
            }
        }
    }
}

/// Two registries with the same identities, links and links of an identity
/// agree on which addresses are those of its parents.
proof fn lemma_same_parent_addresses(m: RegistryModel, m2: RegistryModel, x: u64, a: Seq<u8>)
    requires
        m2.identities == m.identities,
        m2.links == m.links,
        m2.children_links(x) == m.children_links(x),
    ensures
        m2.is_parent_address(x, a) == m.is_parent_address(x, a),
{
    assert(m2.identity_by_address(a) == m.identity_by_address(a));
    match m.identity_by_address(a) {
        Some(p) => {
            if m.is_parent_of(p.id, x) {
                let j = choose|j: int|
                    0 <= j < m.children_links(x).len() && (#[trigger] m.link(m.children_links(x)[j]))->0.parent_id
                        == p.id;
                assert(m2.link(m2.children_links(x)[j])->0.parent_id == p.id);
            }
            if m2.is_parent_of(p.id, x) {
                let j = choose|j: int|
                    0 <= j < m2.children_links(x).len() && (#[trigger] m2.link(m2.children_links(x)[j]))->0.parent_id
                        == p.id;
                assert(m.link(m.children_links(x)[j])->0.parent_id == p.id);
            }
        },
        None => {},
    }
}

/// A modifier added by a parent keeps every key writable by at most one
/// parent of the identity, when the parent names itself or an address that
/// is no parent's.
pub proof fn law_add_modifier_keeps_keys_exclusive(
    m: RegistryModel,
    ctx: CallModel,
    id: u64,
    key: Seq<u8>,
    modifier: Seq<u8>,
)
    requires
        m.keys_exclusive(),
        !is_owner(ctx),
        add_modifier_error(m, ctx, id, key, modifier) is None,
        modifier == ctx.caller || !m.is_parent_address(id, modifier),
    ensures
        modifier_added(m, ctx, id, key, modifier).keys_exclusive(),
{
    let m2 = modifier_added(m, ctx, id, key, modifier);
    if !m.modifiers(id, key).contains(modifier) {
        let m1 = if ctx.caller != modifier {
            m.insert_modifier(id, key, ctx.caller)
        } else {
            m
        };
        assert forall|x: u64, k: Seq<u8>| #[trigger] m2.key_exclusive(x, k) by {
            assert forall|a: Seq<u8>, b: Seq<u8>|
                m2.modifiers(x, k).contains(a) && m2.modifiers(x, k).contains(b) && m2.is_parent_address(x, a)
                    && m2.is_parent_address(x, b) implies a == b by {
                lemma_same_parent_addresses(m, m2, x, a);
                lemma_same_parent_addresses(m, m2, x, b);
                if x == id && k == key {
                    assert(m.modifiers(id, key).len() == 0);
                    crate::invariants::lemma_set_insert_has(m.modifiers(id, key), ctx.caller, a);
                    crate::invariants::lemma_set_insert_has(m.modifiers(id, key), ctx.caller, b);
                    crate::invariants::lemma_set_insert_has(m1.modifiers(id, key), modifier, a);
                    crate::invariants::lemma_set_insert_has(m1.modifiers(id, key), modifier, b);
                } else {
                    assert(m2.modifiers(x, k) == m.modifiers(x, k));
                    assert(m.key_exclusive(x, k));
                }
            }
        }
    }
}

/// Taking away a modifier keeps every key writable by at most one parent.
pub proof fn law_remove_modifier_keeps_keys_exclusive(m: RegistryModel, id: u64, key: Seq<u8>, modifier: Seq<u8>)
    requires
        m.wf(),
        m.keys_exclusive(),
    ensures
        modifier_removed(m, id, key, modifier).keys_exclusive(),
{
    let m2 = modifier_removed(m, id, key, modifier);
    assert forall|x: u64, k: Seq<u8>| #[trigger] m2.key_exclusive(x, k) by {
        assert forall|a: Seq<u8>, b: Seq<u8>|
            m2.modifiers(x, k).contains(a) && m2.modifiers(x, k).contains(b) && m2.is_parent_address(x, a)
                && m2.is_parent_address(x, b) implies a == b by {
            lemma_same_parent_addresses(m, m2, x, a);
            lemma_same_parent_addresses(m, m2, x, b);
            if x == id && k == key && m.modifiers(id, key).contains(modifier) {
                assert(m.stores[id].drawers[key].modifiers.no_duplicates());
                crate::invariants::lemma_set_swap_remove(m.modifiers(id, key), modifier);
                assert(m2.modifiers(id, key) == crate::model::set_swap_remove(m.modifiers(id, key), modifier));
                assert(m.modifiers(x, k).contains(a) && m.modifiers(x, k).contains(b));
            } else {
                assert(m2.modifiers(x, k) == m.modifiers(x, k));
            }
            assert(m.key_exclusive(x, k));
        }
    }
}

/// After an unlink, an identity is a parent of another only if it was before.
proof fn lemma_unlinked_parents(m: RegistryModel, parent_id: u64, child_id: u64, q: u64, x: u64)
    requires
        m.wf(),
        m.link_by_ids(parent_id, child_id) is Some,
    ensures
        unlinked(m, parent_id, child_id).is_parent_of(q, x) ==> m.is_parent_of(q, x),
{
    crate::invariants::lemma_link_by_ids(m, parent_id, child_id);
    let k = m.link_by_ids(parent_id, child_id)->0;
    let bb = m.identity(k.parent_id)->0.address;
    let m1 = m.revoke(child_id, bb);
    let m2 = unlinked(m, parent_id, child_id);
    crate::invariants::lemma_revoke_frame(m, child_id, bb);
    assert(m1.link(k.id) == Some(k));
    crate::invariants::lemma_clear_slot(m.links, k.id as int);
    if m2.is_parent_of(q, x) {
        let list = m2.children_links(x);
        let j = choose|j: int| 0 <= j < list.len() && (#[trigger] m2.link(list[j]))->0.parent_id == q;
        let l = list[j];
        assert(m.children_links(x).contains(l) && l != k.id) by {
            if x == child_id {
                assert(m.stores[child_id].children_links.no_duplicates());
                crate::invariants::lemma_set_swap_remove(m.children_links(x), k.id);
                assert(list == crate::model::set_swap_remove(m.children_links(x), k.id));
                assert(list.contains(l));
            } else {
                assert(list == m.children_links(x));
                assert(list.contains(l));
                assert(m.link(m.stores[x].children_links[j])->0.child_id == x);
            }
        }
        let j2 = choose|j2: int| 0 <= j2 < m.children_links(x).len() && m.children_links(x)[j2] == l;
        assert(m.link(m.stores[x].children_links[j2]) is Some);
        assert(m2.link(l) == m.link(l));
        assert(m.link(m.children_links(x)[j2])->0.parent_id == q);
    }
}

/// Breaking a link keeps every key writable by at most one parent.
pub proof fn law_unlink_keeps_keys_exclusive(m: RegistryModel, parent_id: u64, child_id: u64, request_id: u64)
    requires
        m.wf(),
        m.keys_exclusive(),
        m.link_by_ids(parent_id, child_id) is Some,
    ensures
        unlinked(m, parent_id, child_id).keys_exclusive(),
        unlinked(m, parent_id, child_id).clear_unlink_request(request_id).keys_exclusive(),
{
    crate::invariants::lemma_link_by_ids(m, parent_id, child_id);
    let k = m.link_by_ids(parent_id, child_id)->0;
    let bb = m.identity(k.parent_id)->0.address;
    let m2 = unlinked(m, parent_id, child_id);
    let m3 = m2.clear_unlink_request(request_id);
    crate::invariants::lemma_revoke_frame(m, child_id, bb);
    assert forall|x: u64, key: Seq<u8>| #[trigger] m2.key_exclusive(x, key) by {
        assert forall|a: Seq<u8>, b: Seq<u8>|
            m2.modifiers(x, key).contains(a) && m2.modifiers(x, key).contains(b) && m2.is_parent_address(x, a)
                && m2.is_parent_address(x, b) implies a == b by {
            assert(m2.identity_by_address(a) == m.identity_by_address(a));
            assert(m2.identity_by_address(b) == m.identity_by_address(b));
            match m.identity_by_address(a) {
                Some(p) => lemma_unlinked_parents(m, parent_id, child_id, p.id, x),
                None => {},
            }
            match m.identity_by_address(b) {
                Some(p) => lemma_unlinked_parents(m, parent_id, child_id, p.id, x),
                None => {},
            }
            assert(m2.modifiers(x, key) == m.revoke(child_id, bb).modifiers(x, key));
            if m2.modifiers(x, key) != m.modifiers(x, key) {
                assert(m2.modifiers(x, key).len() == 0);
            }
            assert(m.key_exclusive(x, key));
        }
    }
    assert forall|x: u64, key: Seq<u8>| #[trigger] m3.key_exclusive(x, key) by {
        assert(m2.key_exclusive(x, key));
        assert forall|a: Seq<u8>, b: Seq<u8>|
            m3.modifiers(x, key).contains(a) && m3.modifiers(x, key).contains(b) && m3.is_parent_address(x, a)
                && m3.is_parent_address(x, b) implies a == b by {
            lemma_same_parent_addresses(m2, m3, x, a);
            lemma_same_parent_addresses(m2, m3, x, b);
            assert(m3.modifiers(x, key) == m2.modifiers(x, key));
        }
    }
}

/// Accepting a link request between two identities not linked before, then
/// having the parent (or the owner) remove the link, succeeds and leaves the
/// links, and the links of every identity, as they were; the two identities
/// are no longer linked.
pub proof fn law_accepted_link_removed_undoes_links(
    m: RegistryModel,
    ctx: CallModel,
    request_id: u64,
    remover: CallModel,
)
    requires
        m.wf(),
        m.links.len() < u64::MAX,
        accept_link_error(m, ctx, request_id) is None,
        ({
            let r = m.link_request(request_id)->0;
            &&& m.link_by_ids(r.parent_id, r.child_id) is None
            &&& is_owner(remover) || remover.caller == m.identity(r.parent_id)->0.address
        }),
    ensures
        ({
            let r = m.link_request(request_id)->0;
            let m3 = linked(m, r).clear_link_request(request_id);
            let m5 = unlinked(m3, r.parent_id, r.child_id);
            &&& remove_identity_link_error(m3, remover, r.parent_id, r.child_id) is None
            &&& m5.links == m.links
            &&& forall|x: u64| #[trigger] m5.children_links(x) == m.children_links(x)
            &&& forall|x: u64| #[trigger] m5.parent_links(x) == m.parent_links(x)
            &&& !m5.is_parent_of(r.parent_id, r.child_id)
        }),
{
    let r = m.link_request(request_id)->0;
    let c = r.child_id;
    let p = r.parent_id;
    let bb = m.identity(p)->0.address;
    let l = m.links.len() as u64;
    let m1 = m.add_link(c, p, r.relation);
    let m3 = linked(m, r).clear_link_request(request_id);
    crate::invariants::lemma_grant_keys_frame(m1, c, r.keys, bb);
    crate::invariants::lemma_grant_keys_state(m1, c, r.keys, bb);
    assert(m3.links == m1.links);
    assert forall|x: u64| #![trigger m3.stores[x]]
        m3.stores[x].children_links == m1.stores[x].children_links
        && m3.stores[x].parent_links == m1.stores[x].parent_links by {}
    // The new link is the first link of the child to the parent.
    let s0 = m.children_links(c);
    let n = s0.len() as int;
    let s3 = m3.children_links(c);
    assert(s3 == s0.push(l));
    let pred0 = m.links_to_parent(p);
    let pred3 = m3.links_to_parent(p);
    assert forall|i: int| 0 <= i < n implies !pred3(#[trigger] s3[i]) by {
        assert(s3[i] == s0[i]);
        assert(m.link(m.stores[c].children_links[i]) is Some);
        assert(m3.link(s0[i]) == m.link(s0[i]));
        if pred0(s0[i]) {
            crate::invariants::lemma_first_index_exists(s0, pred0, n, i);
            crate::invariants::lemma_first_index_some(s0, pred0, n);
            let j = first_index(s0, pred0, n)->0;
            assert(m.link(m.stores[c].children_links[j]) is Some);
        }
    }
    if first_index(s3, pred3, n) is Some {
        crate::invariants::lemma_first_index_some(s3, pred3, n);
    }
    assert(s3[n] == l);
    assert(m3.link(l) == Some(crate::types::LinkModel { id: l, child_id: c, parent_id: p, relation: r.relation }));
    assert(pred3(s3[n]));
    assert(first_index(s3, pred3, n + 1) == Some(n));
    assert(m3.link_by_ids(p, c) == m3.link(l));
    // The removal is allowed.
    assert(m3.identities == m.identities);
    assert(m3.state == m.state);
    // What the removal leaves.
    let bb3 = m3.identity(p)->0.address;
    let m4 = m3.revoke(c, bb3);
    let m5 = unlinked(m3, p, c);
    crate::invariants::lemma_revoke_frame(m3, c, bb3);
    law_removed_link_undoes(m, c, p, r.relation);
    let m6 = m1.remove_link(l);
    assert(m5.links == m6.links);
    assert forall|x: u64| #[trigger] m5.children_links(x) == m.children_links(x) by {
        assert(m5.children_links(x) == m6.children_links(x));
        assert(m6.stores[x] =~~= m.stores[x]);
    }
    assert forall|x: u64| #[trigger] m5.parent_links(x) == m.parent_links(x) by {
        assert(m5.parent_links(x) == m6.parent_links(x));
        assert(m6.stores[x] =~~= m.stores[x]);
    }
    assert(m5.links == m.links);
    if m5.is_parent_of(p, c) {
        let j = choose|j: int|
            0 <= j < m5.children_links(c).len() && (#[trigger] m5.link(m5.children_links(c)[j]))->0.parent_id == p;
        assert(m.link(s0[j])->0.parent_id == p);
        assert(m.link(m.stores[c].children_links[j]) is Some);
        crate::invariants::lemma_first_index_exists(s0, pred0, n, j);
        crate::invariants::lemma_first_index_some(s0, pred0, n);
        let j2 = first_index(s0, pred0, n)->0;
        assert(m.link(m.stores[c].children_links[j2]) is Some);
    }
}

/// An address is a parent's address exactly when some identity with that
/// address is a parent.
proof fn lemma_parent_address_witness(m: RegistryModel, x: u64, a: Seq<u8>)
    requires
        m.wf(),
    ensures
        m.is_parent_address(x, a) <==> exists|q: u64|
            #![trigger m.identity(q), m.is_parent_of(q, x)]
            m.has_identity(q) && m.identity(q)->0.address == a && m.is_parent_of(q, x),
{
    if m.is_parent_address(x, a) {
        crate::invariants::lemma_identity_by_address_found(m, a);
        let p = m.identity_by_address(a)->0;
        assert(m.identity(p.id) == Some(p) && m.is_parent_of(p.id, x));
    }
    if exists|q: u64|
        #![trigger m.identity(q), m.is_parent_of(q, x)]
        m.has_identity(q) && m.identity(q)->0.address == a && m.is_parent_of(q, x) {
        let q = choose|q: u64|
            #![trigger m.identity(q), m.is_parent_of(q, x)]
            m.has_identity(q) && m.identity(q)->0.address == a && m.is_parent_of(q, x);
        law_address_identifies(m, q);
        assert(m.identities[q as int] is Some);
    }
}

/// A parent of some identity has links.
proof fn lemma_parent_has_links(m: RegistryModel, q: u64, x: u64)
    requires
        m.wf(),
        m.is_parent_of(q, x),
    ensures
        m.has_links(q),
{
    let j = choose|j: int|
        0 <= j < m.children_links(x).len() && (#[trigger] m.link(m.children_links(x)[j]))->0.parent_id == q;
    let l = m.children_links(x)[j];
    assert(m.link(m.stores[x].children_links[j]) is Some);
    assert(m.links[l as int] is Some);
    assert(m.parent_links(q).contains(l));
}

/// A change that keeps the links, keeps every identity that has links, and
/// adds no modifier keeps every key writable by at most one parent.
proof fn lemma_keys_exclusive_frame(m: RegistryModel, m2: RegistryModel)
    requires
        m.wf(),
        m2.wf(),
        m.keys_exclusive(),
        m2.links == m.links,
        forall|x: u64| #[trigger] m2.stores[x].children_links == m.stores[x].children_links,
        forall|q: u64|
            m.has_links(q) ==> m2.has_identity(q) == m.has_identity(q) && (#[trigger] m2.identity(q))->0.address
                == m.identity(q)->0.address,
        forall|x: u64, k: Seq<u8>, y: Seq<u8>|
            #[trigger] m2.modifiers(x, k).contains(y) ==> m.modifiers(x, k).contains(y),
    ensures
        m2.keys_exclusive(),
{
    assert forall|x: u64, q: u64| #[trigger] m2.is_parent_of(q, x) implies m.is_parent_of(q, x) by {
        assert(m2.stores[x].children_links == m.stores[x].children_links);
        let j = choose|j: int|
            0 <= j < m2.children_links(x).len() && (#[trigger] m2.link(m2.children_links(x)[j]))->0.parent_id == q;
        assert(m.link(m.children_links(x)[j])->0.parent_id == q);
    }
    assert forall|x: u64, a: Seq<u8>| #[trigger] m2.is_parent_address(x, a) implies m.is_parent_address(x, a) by {
        lemma_parent_address_witness(m2, x, a);
        lemma_parent_address_witness(m, x, a);
        let q = choose|q: u64|
            #![trigger m2.identity(q), m2.is_parent_of(q, x)]
            m2.has_identity(q) && m2.identity(q)->0.address == a && m2.is_parent_of(q, x);
        assert(m.is_parent_of(q, x));
        lemma_parent_has_links(m, q, x);
        assert(m2.identity(q)->0.address == m.identity(q)->0.address);
    }
    assert forall|x: u64, k: Seq<u8>| #[trigger] m2.key_exclusive(x, k) by {
        assert forall|a: Seq<u8>, b: Seq<u8>|
            m2.modifiers(x, k).contains(a) && m2.modifiers(x, k).contains(b) && m2.is_parent_address(x, a)
                && m2.is_parent_address(x, b) implies a == b by {
            assert(m.key_exclusive(x, k));
            assert(m.modifiers(x, k).contains(a) && m.modifiers(x, k).contains(b));
            assert(m.is_parent_address(x, a) && m.is_parent_address(x, b));
        }
    }
}

/// Registering, editing and removing identities keep every key writable by
/// at most one parent.
pub proof fn law_identity_changes_keep_keys_exclusive(
    m: RegistryModel,
    ctx: CallModel,
    identity: IdentityModel,
    id: u64,
)
    requires
        m.wf(),
        m.keys_exclusive(),
    ensures
        identity.id == m.last_identity_id() && m.identity_by_address(identity.address) is None
            ==> m.push_identity(identity).keys_exclusive(),
        m.has_identity(identity.id) ==> m.set_identity(identity.id, edited_identity(m, ctx, identity)).keys_exclusive(),
        m.has_identity(id) && !m.has_links(id) ==> m.remove_identity(id).keys_exclusive(),
{
    if identity.id == m.last_identity_id() && m.identity_by_address(identity.address) is None {
        let m2 = m.push_identity(identity);
        crate::invariants::lemma_wf_push_identity(m, identity);
        assert forall|q: u64| m.has_links(q) implies #[trigger] m2.identity(q) == m.identity(q) by {
            if q >= m.identities.len() {
                assert(!m.has_identity(q));
                assert(m.stores[q].children_links.len() == 0 || m.stores[q].children_links.len() > 0);
                if m.parent_links(q).len() > 0 {
                    assert(m.link(m.stores[q].parent_links[0]) is Some);
                    assert(m.links[m.stores[q].parent_links[0] as int] is Some);
                }
                if m.children_links(q).len() > 0 {
                    assert(m.link(m.stores[q].children_links[0]) is Some);
                    assert(m.links[m.stores[q].children_links[0] as int] is Some);
                }
            }
        }
        lemma_keys_exclusive_frame(m, m2);
    }
    if m.has_identity(identity.id) {
        let e = edited_identity(m, ctx, identity);
        let m2 = m.set_identity(identity.id, e);
        if e.address != m.identity(identity.id)->0.address {
            assert(m.identity_by_address(identity.address) is None);
        }
        assert forall|q: u64| m.has_links(q) implies m2.has_identity(q) == m.has_identity(q) && (#[trigger] m2.identity(
            q,
        ))->0.address == m.identity(q)->0.address by {
            if q == identity.id {
                assert(m2.identity(q) == Some(e));
            }
        }
        crate::invariants::lemma_wf_set_identity(m, identity.id, e);
        lemma_keys_exclusive_frame(m, m2);
    }
    if m.has_identity(id) && !m.has_links(id) {
        let m2 = m.remove_identity(id);
        crate::invariants::lemma_wf_remove_identity(m, id);
        crate::invariants::lemma_clear_slot(m.identities, id as int);
        assert forall|q: u64| m.has_links(q) implies #[trigger] m2.identity(q) == m.identity(q) by {
            if q < m.identities.len() && q != id {
                assert(m2.identities[q as int] == m.identities[q as int]);
            }
        }
        lemma_keys_exclusive_frame(m, m2);
    }
}

/// A change that keeps identities, links, the links of every identity and
/// every modifier keeps every key writable by at most one parent.
proof fn lemma_keys_exclusive_same(m: RegistryModel, m2: RegistryModel)
    requires
        m.keys_exclusive(),
        m2.identities == m.identities,
        m2.links == m.links,
        forall|x: u64| #[trigger] m2.children_links(x) == m.children_links(x),
        forall|x: u64, k: Seq<u8>| #[trigger] m2.modifiers(x, k) == m.modifiers(x, k),
    ensures
        m2.keys_exclusive(),
{
    assert forall|x: u64, k: Seq<u8>| #[trigger] m2.key_exclusive(x, k) by {
        assert(m2.modifiers(x, k) == m.modifiers(x, k));
        assert(m2.children_links(x) == m.children_links(x));
        assert forall|a: Seq<u8>, b: Seq<u8>|
            m2.modifiers(x, k).contains(a) && m2.modifiers(x, k).contains(b) && m2.is_parent_address(x, a)
                && m2.is_parent_address(x, b) implies a == b by {
            lemma_same_parent_addresses(m, m2, x, a);
            lemma_same_parent_addresses(m, m2, x, b);
            assert(m.key_exclusive(x, k));
        }
    }
}

/// Adding several values keeps identities, links and modifiers.
proof fn lemma_values_added_frame(m: RegistryModel, ctx: CallModel, id: u64, pairs: Seq<(Seq<u8>, Seq<u8>)>)
    ensures
        values_added(m, ctx, id, pairs).identities == m.identities,
        values_added(m, ctx, id, pairs).links == m.links,
        forall|x: u64| #[trigger] values_added(m, ctx, id, pairs).children_links(x) == m.children_links(x),
        forall|x: u64, k: Seq<u8>| #[trigger] values_added(m, ctx, id, pairs).modifiers(x, k) == m.modifiers(x, k),
    decreases pairs.len(),
{
    if pairs.len() > 0 {
        let m1 = values_added(m, ctx, id, pairs.drop_last());
        lemma_values_added_frame(m, ctx, id, pairs.drop_last());
        crate::invariants::lemma_add_value_frame(m1, id, pairs.last().0, new_value(m1, ctx, id, pairs.last().0, pairs.last().1));
        let m2 = values_added(m, ctx, id, pairs);
        assert forall|x: u64| #[trigger] m2.children_links(x) == m.children_links(x) by {
            assert(m2.children_links(x) == m1.children_links(x));
        }
        assert forall|x: u64, k: Seq<u8>| #[trigger] m2.modifiers(x, k) == m.modifiers(x, k) by {
            assert(m2.modifiers(x, k) == m1.modifiers(x, k));
        }
    }
}

/// Adding, editing and removing values, making and withdrawing requests, and
/// switching the state keep every key writable by at most one parent.
pub proof fn law_values_and_requests_keep_keys_exclusive(
    m: RegistryModel,
    ctx: CallModel,
    id: u64,
    key: Seq<u8>,
    value: Seq<u8>,
    pairs: Seq<(Seq<u8>, Seq<u8>)>,
    value_id: u64,
    v: crate::types::ValueModel,
    request: LinkRequestModel,
    unlink_request: UnlinkRequestModel,
    request_id: u64,
    state: State,
)
    requires
        m.keys_exclusive(),
    ensures
        value_added(m, ctx, id, key, value).keys_exclusive(),
        values_added(m, ctx, id, pairs).keys_exclusive(),
        m.set_value(id, key, value_id, v).keys_exclusive(),
        m.clear_value(id, key, value_id).keys_exclusive(),
        m.push_link_request(request).keys_exclusive(),
        m.clear_link_request(request_id).keys_exclusive(),
        m.push_unlink_request(unlink_request).keys_exclusive(),
        m.clear_unlink_request(request_id).keys_exclusive(),
        m.with_state(state).keys_exclusive(),
{
    let m1 = value_added(m, ctx, id, key, value);
    crate::invariants::lemma_add_value_frame(m, id, key, new_value(m, ctx, id, key, value));
    assert forall|x: u64| #[trigger] m1.children_links(x) == m.children_links(x) by {}
    lemma_keys_exclusive_same(m, m1);
    lemma_values_added_frame(m, ctx, id, pairs);
    lemma_keys_exclusive_same(m, values_added(m, ctx, id, pairs));
    let m2 = m.set_value(id, key, value_id, v);
    assert forall|x: u64| #[trigger] m2.children_links(x) == m.children_links(x) by {}
    assert forall|x: u64, k: Seq<u8>| #[trigger] m2.modifiers(x, k) == m.modifiers(x, k) by {}
    lemma_keys_exclusive_same(m, m2);
    let m3 = m.clear_value(id, key, value_id);
    assert forall|x: u64| #[trigger] m3.children_links(x) == m.children_links(x) by {}
    assert forall|x: u64, k: Seq<u8>| #[trigger] m3.modifiers(x, k) == m.modifiers(x, k) by {}
    lemma_keys_exclusive_same(m, m3);
    lemma_keys_exclusive_same(m, m.push_link_request(request));
    lemma_keys_exclusive_same(m, m.clear_link_request(request_id));
    lemma_keys_exclusive_same(m, m.push_unlink_request(unlink_request));
    lemma_keys_exclusive_same(m, m.clear_unlink_request(request_id));
    lemma_keys_exclusive_same(m, m.with_state(state));
}

/// A successful edit stores every detail that was submitted (kind, legal id,
/// birthdate, name, description, image, contacts) at the identity's id; the
/// address becomes the submitted one when the identity has no links and no
/// identity holds that address, and otherwise stays. No other identity changes.
pub proof fn law_edit_stores_submitted_details(
    m: RegistryModel,
    ctx: CallModel,
    new: IdentityModel,
    other: u64,
)
    requires
        edit_identity_error(m, ctx, new.id) is None,
    ensures
        ({
            let old = m.identity(new.id)->0;
            let m2 = m.set_identity(new.id, edited_identity(m, ctx, new));
            let e = m2.identity(new.id)->0;
            &&& m2.identity(new.id) is Some
            &&& e.id == new.id
            &&& e.is_corporate == new.is_corporate
            &&& e.legal_id == new.legal_id
            &&& e.birthdate == new.birthdate
            &&& e.name == new.name
            &&& e.description == new.description
            &&& e.image == new.image
            &&& e.contact == new.contact
            &&& (!m.has_links(new.id) && m.identity_by_address(new.address) is None) ==> e.address
                == new.address
            &&& !(!m.has_links(new.id) && m.identity_by_address(new.address) is None) ==> e.address
                == old.address
            &&& other != new.id ==> m2.identity(other) == m.identity(other)
            &&& m2.identities.len() == m.identities.len()
        }),
{
}

/// The parent's address or the owner may accept an unlink request between two
/// existing, linked identities; anyone else is refused as not allowed.
pub proof fn law_accept_unlink_callers(m: RegistryModel, ctx: CallModel, request_id: u64)
    requires
        m.state == State::Active,
        m.unlink_request(request_id) is Some,
        m.has_identity(m.unlink_request(request_id)->0.parent_id),
        m.has_identity(m.unlink_request(request_id)->0.child_id),
        m.link_by_ids(m.unlink_request(request_id)->0.parent_id, m.unlink_request(request_id)->0.child_id)
            is Some,
    ensures
        is_owner(ctx) ==> accept_unlink_error(m, ctx, request_id) is None,
        ctx.caller == m.identity(m.unlink_request(request_id)->0.parent_id)->0.address ==> accept_unlink_error(
            m,
            ctx,
            request_id,
        ) is None,
        !is_owner(ctx) && ctx.caller != m.identity(m.unlink_request(request_id)->0.parent_id)->0.address
            ==> accept_unlink_error(m, ctx, request_id) == Some(ContractError::NotAllowed),
{
}

/// The parent's address or the owner may remove a link between two existing,
/// linked identities; anyone else is refused as not allowed.
pub proof fn law_remove_link_callers(m: RegistryModel, ctx: CallModel, parent_id: u64, child_id: u64)
    requires
        m.state == State::Active,
        m.has_identity(parent_id),
        m.has_identity(child_id),
        m.link_by_ids(parent_id, child_id) is Some,
    ensures
        is_owner(ctx) ==> remove_identity_link_error(m, ctx, parent_id, child_id) is None,
        ctx.caller == m.identity(parent_id)->0.address ==> remove_identity_link_error(m, ctx, parent_id, child_id)
            is None,
        !is_owner(ctx) && ctx.caller != m.identity(parent_id)->0.address ==> remove_identity_link_error(
            m,
            ctx,
            parent_id,
            child_id,
        ) == Some(ContractError::NotAllowed),
{
}

/// The child's address or the owner may accept a link request between two
/// existing identities whose keys no other parent holds; anyone else is
/// refused as not allowed.
pub proof fn law_accept_link_callers(m: RegistryModel, ctx: CallModel, request_id: u64)
    requires
        m.state == State::Active,
        m.link_request(request_id) is Some,
        m.has_identity(m.link_request(request_id)->0.parent_id),
        m.has_identity(m.link_request(request_id)->0.child_id),
        !crate::contract::keys_held_by_other(
            m,
            m.link_request(request_id)->0.child_id,
            m.link_request(request_id)->0.keys,
            m.identity(m.link_request(request_id)->0.parent_id)->0.address,
        ),
    ensures
        is_owner(ctx) ==> accept_link_error(m, ctx, request_id) is None,
        ctx.caller == m.identity(m.link_request(request_id)->0.child_id)->0.address ==> accept_link_error(
            m,
            ctx,
            request_id,
        ) is None,
        !is_owner(ctx) && ctx.caller != m.identity(m.link_request(request_id)->0.child_id)->0.address
            ==> accept_link_error(m, ctx, request_id) == Some(ContractError::NotAllowed),
{
}

/// Who may remove an existing value: the owner always; otherwise a modifier
/// of the key, or, while nobody may write under the key, the identity's own
/// address. Anyone else is refused as not allowed.
pub proof fn law_remove_value_callers(m: RegistryModel, ctx: CallModel, id: u64, key: Seq<u8>, value_id: u64)
    requires
        m.state == State::Active,
        m.has_identity(id),
        m.keys(id).contains(key),
        m.value(id, key, value_id) is Some,
    ensures
        is_owner(ctx) ==> remove_value_error(m, ctx, id, key, value_id) is None,
        m.modifiers(id, key).contains(ctx.caller) ==> remove_value_error(m, ctx, id, key, value_id) is None,
        m.modifiers(id, key).len() == 0 && ctx.caller == m.identity(id)->0.address ==> remove_value_error(
            m,
            ctx,
            id,
            key,
            value_id,
        ) is None,
        !is_owner(ctx) && !m.modifiers(id, key).contains(ctx.caller) && !(m.modifiers(id, key).len() == 0
            && ctx.caller == m.identity(id)->0.address) ==> remove_value_error(m, ctx, id, key, value_id)
            == Some(ContractError::NotAllowed),
{
    if m.modifiers(id, key).contains(ctx.caller) {
        assert(m.modifiers(id, key).len() > 0);
    }
}

/// Who may edit an existing value: the owner always; otherwise only the
/// value's author while it may still write under the key. Anyone else is
/// refused as not allowed.
pub proof fn law_edit_value_callers(m: RegistryModel, ctx: CallModel, id: u64, key: Seq<u8>, value_id: u64)
    requires
        m.state == State::Active,
        m.has_identity(id),
        m.keys(id).contains(key),
        m.value(id, key, value_id) is Some,
    ensures
        is_owner(ctx) ==> edit_value_error(m, ctx, id, key, value_id) is None,
        ctx.caller == m.value(id, key, value_id)->0.modifier && m.modifiers(id, key).contains(ctx.caller)
            ==> edit_value_error(m, ctx, id, key, value_id) is None,
        !is_owner(ctx) && !(ctx.caller == m.value(id, key, value_id)->0.modifier && m.modifiers(
            id,
            key,
        ).contains(ctx.caller)) ==> edit_value_error(m, ctx, id, key, value_id) == Some(
            ContractError::NotAllowed,
        ),
{
}

/// Only the owner or an address that may write under the key adds values
/// under it: for an existing identity of an active registry, anyone else is
/// refused as not allowed, whoever the identity belongs to.
pub proof fn law_add_value_callers(m: RegistryModel, ctx: CallModel, id: u64, key: Seq<u8>)
    requires
        m.state == State::Active,
        m.has_identity(id),
    ensures
        add_value_error(m, ctx, id, key) is None <==> (is_owner(ctx) || m.modifiers(id, key).contains(
            ctx.caller,
        )),
        !is_owner(ctx) && !m.modifiers(id, key).contains(ctx.caller) ==> add_value_error(m, ctx, id, key)
            == Some(ContractError::NotAllowed),
{
}

/// Adding several values is refused as not allowed as soon as one of the keys
/// may not be written by the caller, who is not the owner.
pub proof fn law_add_values_callers(
    m: RegistryModel,
    ctx: CallModel,
    id: u64,
    pairs: Seq<(Seq<u8>, Seq<u8>)>,
    i: int,
)
    requires
        m.state == State::Active,
        m.has_identity(id),
        0 <= i < pairs.len(),
        !is_owner(ctx),
        !m.modifiers(id, pairs[i].0).contains(ctx.caller),
    ensures
        crate::contract::add_values_error(m, ctx, id, pairs) == Some(ContractError::NotAllowed),
{
    let p = |q: (Seq<u8>, Seq<u8>)| add_value_error(m, ctx, id, q.0) is Some;
    assert(p(pairs[i]));
    crate::invariants::lemma_first_index_exists(pairs, p, pairs.len() as int, i);
    crate::invariants::lemma_first_index_some(pairs, p, pairs.len() as int);
}

/// The children returned for a parent, a key and a value are exactly the
/// children, through a link of the parent (with the relation, if one is named),
/// whose last value under the key is exactly that value.
pub proof fn law_children_with_same_last_value(
    m: RegistryModel,
    parent_id: u64,
    key: Seq<u8>,
    value: Seq<u8>,
    relation: Option<Seq<u8>>,
    child: IdentityModel,
)
    requires
        m.wf(),
    ensures
        m.children_with_same_last_value(parent_id, key, value, relation).contains(child) <==> exists|l: u64|
            #[trigger] m.parent_links(parent_id).contains(l) && m.link(l) is Some && m.link(l)->0.parent_id
                == parent_id && m.link(l)->0.child_id == child.id && m.identity(child.id) == Some(child)
                && (relation is None || relation->0 == m.link(l)->0.relation) && m.last_value(child.id, key)
                is Some && m.last_value(child.id, key)->0.value == value,
{
    let f = m.child_with_last_value(key, value, relation);
    let s = m.parent_links(parent_id);
    if m.children_with_same_last_value(parent_id, key, value, relation).contains(child) {
        s.lemma_filter_map_contains(f, child);
        let l = choose|l: u64| #[trigger] s.contains(l) && f(l) == Some(child);
        law_link_lists_agree(m, l, parent_id);
        let c = m.link(l)->0.child_id;
        assert(m.identities[c as int] is Some);
        assert(child.id == c);
    }
    if exists|l: u64|
        #[trigger] m.parent_links(parent_id).contains(l) && m.link(l) is Some && m.link(l)->0.parent_id
            == parent_id && m.link(l)->0.child_id == child.id && m.identity(child.id) == Some(child)
            && (relation is None || relation->0 == m.link(l)->0.relation) && m.last_value(child.id, key)
            is Some && m.last_value(child.id, key)->0.value == value {
        let l = choose|l: u64|
            #[trigger] m.parent_links(parent_id).contains(l) && m.link(l) is Some && m.link(l)->0.parent_id
                == parent_id && m.link(l)->0.child_id == child.id && m.identity(child.id) == Some(child)
                && (relation is None || relation->0 == m.link(l)->0.relation) && m.last_value(child.id, key)
                is Some && m.last_value(child.id, key)->0.value == value;
        assert(f(l) == Some(child));
        crate::query_laws::lemma_filter_map_keeps(s, f, l, child);
    }
}
} // verus!
