use vstd::prelude::*;

use crate::contract::{
    add_modifier_error, chosen_modifier, is_owner, linked, modifier_added, modifier_removed, unlinked,
    value_added,
};
use crate::model::RegistryModel;
use crate::types::{CallModel, LinkModel, LinkRequestModel, ValueModel};

verus! {

// What each change leaves in the registry, stated over its inputs.

/// The modifier a request names is that address, or else the caller.
pub proof fn law_chosen_modifier(ctx: CallModel, a: Seq<u8>)
    ensures
        chosen_modifier(ctx, Some(a)) == a,
        chosen_modifier(ctx, None) == ctx.caller,
{
}

/// An added value holds the submitted bytes, its author is the caller and its
/// time the time of the call; it takes the next value id under the key, the key
/// joins the identity's keys, and every other value stays.
pub proof fn law_added_value_content(
    m: RegistryModel,
    ctx: CallModel,
    id: u64,
    key: Seq<u8>,
    value: Seq<u8>,
    other_id: u64,
    other_key: Seq<u8>,
    other_value_id: u64,
)
    requires
        m.last_key_id(id, key) < u64::MAX,
    ensures
        ({
            let m2 = value_added(m, ctx, id, key, value);
            let n = m.last_key_id(id, key) as u64;
            &&& m2.value(id, key, n) is Some
            &&& m2.value(id, key, n)->0.id == n
            &&& m2.value(id, key, n)->0.value == value
            &&& m2.value(id, key, n)->0.modifier == ctx.caller
            &&& m2.value(id, key, n)->0.timestamp == ctx.timestamp
            &&& m2.last_key_id(id, key) == n + 1
            &&& m2.keys(id).contains(key)
            &&& !(other_id == id && other_key == key && other_value_id == n) ==> m2.value(
                other_id,
                other_key,
                other_value_id,
            ) == m.value(other_id, other_key, other_value_id)
            &&& m2.identities == m.identities
            &&& m2.modifiers(other_id, other_key) == m.modifiers(other_id, other_key)
        }),
{
    crate::invariants::lemma_set_insert_contains(m.keys(id), key);
    crate::invariants::lemma_add_value_frame(m, id, key, crate::contract::new_value(m, ctx, id, key, value));
}

/// A replaced value reads back as the replacement; every other value stays.
pub proof fn law_set_value_content(
    m: RegistryModel,
    id: u64,
    key: Seq<u8>,
    value_id: u64,
    v: ValueModel,
    other_id: u64,
    other_key: Seq<u8>,
    other_value_id: u64,
)
    requires
        value_id < m.last_key_id(id, key),
    ensures
        m.set_value(id, key, value_id, v).value(id, key, value_id) == Some(v),
        !(other_id == id && other_key == key && other_value_id == value_id) ==> m.set_value(
            id,
            key,
            value_id,
            v,
        ).value(other_id, other_key, other_value_id) == m.value(other_id, other_key, other_value_id),
        m.set_value(id, key, value_id, v).modifiers(other_id, other_key) == m.modifiers(other_id, other_key),
        m.set_value(id, key, value_id, v).keys(other_id) == m.keys(other_id),
{
}

/// A removed value is gone; every other value stays.
pub proof fn law_clear_value_content(
    m: RegistryModel,
    id: u64,
    key: Seq<u8>,
    value_id: u64,
    other_id: u64,
    other_key: Seq<u8>,
    other_value_id: u64,
)
    requires
        value_id < m.last_key_id(id, key),
    ensures
        m.clear_value(id, key, value_id).value(id, key, value_id) is None,
        !(other_id == id && other_key == key && other_value_id == value_id) ==> m.clear_value(
            id,
            key,
            value_id,
        ).value(other_id, other_key, other_value_id) == m.value(other_id, other_key, other_value_id),
        m.clear_value(id, key, value_id).modifiers(other_id, other_key) == m.modifiers(other_id, other_key),
{
    crate::invariants::lemma_clear_slot(m.drawer(id, key).values, value_id as int);
}

/// After an accepted new modifier, exactly the named modifier can newly write
/// under the key, and also the caller when it is not the owner; nothing else
/// changes in who may write anywhere.
pub proof fn law_modifier_added_content(
    m: RegistryModel,
    ctx: CallModel,
    id: u64,
    key: Seq<u8>,
    modifier: Seq<u8>,
    x: u64,
    k: Seq<u8>,
    y: Seq<u8>,
)
    requires
        add_modifier_error(m, ctx, id, key, modifier) is None,
    ensures
        modifier_added(m, ctx, id, key, modifier).modifiers(id, key).contains(modifier),
        modifier_added(m, ctx, id, key, modifier).modifiers(x, k).contains(y) <==> (m.modifiers(x, k).contains(y)
            || (x == id && k == key && (y == modifier || (!m.modifiers(id, key).contains(modifier) && !is_owner(
            ctx) && y == ctx.caller)))),
        modifier_added(m, ctx, id, key, modifier).identities == m.identities,
        modifier_added(m, ctx, id, key, modifier).links == m.links,
{
    if !m.modifiers(id, key).contains(modifier) {
        let m1 = if !is_owner(ctx) && ctx.caller != modifier {
            m.insert_modifier(id, key, ctx.caller)
        } else {
            m
        };
        crate::invariants::lemma_set_insert_has(m.modifiers(id, key), ctx.caller, y);
        crate::invariants::lemma_set_insert_has(m1.modifiers(id, key), modifier, y);
        crate::invariants::lemma_set_insert_contains(m1.modifiers(id, key), modifier);
    }
}

/// After a modifier is taken away, it can no longer write under the key and
/// everyone else keeps what they had.
pub proof fn law_modifier_removed_content(
    m: RegistryModel,
    id: u64,
    key: Seq<u8>,
    modifier: Seq<u8>,
    x: u64,
    k: Seq<u8>,
    y: Seq<u8>,
)
    requires
        m.wf(),
    ensures
        modifier_removed(m, id, key, modifier).modifiers(x, k).contains(y) <==> (m.modifiers(x, k).contains(y)
            && !(x == id && k == key && y == modifier)),
{
    if m.modifiers(id, key).contains(modifier) {
        assert(m.stores[id].drawers[key].modifiers.no_duplicates());
        crate::invariants::lemma_set_swap_remove(m.modifiers(id, key), modifier);
    }
}

/// Breaking a link removes that link, clears every key of the child under which
/// the parent could write, and keeps every other key, value, identity and
/// request as it was.
pub proof fn law_unlinked_content(
    m: RegistryModel,
    parent_id: u64,
    child_id: u64,
    x: u64,
    k: Seq<u8>,
    value_id: u64,
)
    requires
        m.wf(),
        m.link_by_ids(parent_id, child_id) is Some,
    ensures
        ({
            let link = m.link_by_ids(parent_id, child_id)->0;
            let a = m.identity(parent_id)->0.address;
            let m2 = unlinked(m, parent_id, child_id);
            &&& m2.link(link.id) is None
            &&& (x == child_id && m.modifiers(x, k).contains(a)) ==> m2.modifiers(x, k).len() == 0
            &&& !(x == child_id && m.modifiers(x, k).contains(a)) ==> m2.modifiers(x, k) == m.modifiers(x, k)
            &&& m2.value(x, k, value_id) == m.value(x, k, value_id)
            &&& m2.keys(x) == m.keys(x)
            &&& m2.identities == m.identities
            &&& m2.link_requests == m.link_requests
            &&& m2.unlink_requests == m.unlink_requests
        }),
{
    crate::invariants::lemma_link_by_ids(m, parent_id, child_id);
    let link = m.link_by_ids(parent_id, child_id)->0;
    crate::invariants::lemma_clear_slot(m.links, link.id as int);
    assert(m.links[link.id as int] is Some);
}


/// Accepting a link request adds one link, at the next link id, from the
/// request's parent to its child with its relation; the parent's address may
/// then write under exactly the requested keys of the child, and nobody gains
/// anything else.
pub proof fn law_linked_content(
    m: RegistryModel,
    r: LinkRequestModel,
    x: u64,
    k: Seq<u8>,
    y: Seq<u8>,
    value_id: u64,
)
    requires
        m.wf(),
        m.has_identity(r.child_id),
        m.has_identity(r.parent_id),
        m.links.len() < u64::MAX,
    ensures
        ({
            let m2 = linked(m, r);
            let l = m.links.len() as u64;
            &&& m2.link(l) == Some(LinkModel { id: l, child_id: r.child_id, parent_id: r.parent_id, relation: r.relation })
            &&& m2.links.len() == m.links.len() + 1
            &&& m2.is_parent_of(r.parent_id, r.child_id)
            &&& m2.modifiers(x, k).contains(y) <==> (m.modifiers(x, k).contains(y) || (x == r.child_id
                && r.keys.contains(k) && y == m.identity(r.parent_id)->0.address))
            &&& m2.identities == m.identities
            &&& m2.value(x, k, value_id) == m.value(x, k, value_id)
        }),
{
    let a = m.identity(r.parent_id)->0.address;
    let m1 = m.add_link(r.child_id, r.parent_id, r.relation);
    crate::invariants::lemma_grant_keys_frame(m1, r.child_id, r.keys, a);
    crate::invariants::lemma_grant_keys_modifiers(m1, r.child_id, r.keys, a, x, k, y);
    assert(m1.modifiers(x, k) == m.modifiers(x, k));
    crate::invariants::lemma_add_link_parents(m, r.child_id, r.parent_id, r.relation, r.parent_id, r.child_id);
    let m2 = linked(m, r);
    let c = m1.children_links(r.child_id);
    if m1.is_parent_of(r.parent_id, r.child_id) {
        let j = choose|j: int| 0 <= j < c.len() && (#[trigger] m1.link(c[j]))->0.parent_id == r.parent_id;
        assert(m2.link(m2.children_links(r.child_id)[j])->0.parent_id == r.parent_id);
    }
    lemma_grant_keys_values(m1, r.child_id, r.keys, a, x, k);
}

proof fn lemma_grant_keys_values(m: RegistryModel, id: u64, keys: Seq<Seq<u8>>, a: Seq<u8>, x: u64, k: Seq<u8>)
    ensures
        m.grant_keys(id, keys, a).drawer(x, k).values == m.drawer(x, k).values,
    decreases keys.len(),
{
    if keys.len() > 0 {
        lemma_grant_keys_values(m, id, keys.drop_last(), a, x, k);
    }
}

/// Removing an identity empties its id: no identity, no keys, no values and
/// nobody who may write under any key; every other identity and its store stay.
pub proof fn law_remove_identity_content(m: RegistryModel, id: u64, other: u64, k: Seq<u8>, value_id: u64)
    requires
        m.has_identity(id),
    ensures
        m.remove_identity(id).identity(id) is None,
        m.remove_identity(id).keys(id).len() == 0,
        m.remove_identity(id).modifiers(id, k).len() == 0,
        m.remove_identity(id).value(id, k, value_id) is None,
        other != id ==> m.remove_identity(id).identity(other) == m.identity(other),
        other != id ==> m.remove_identity(id).stores[other] == m.stores[other],
        m.remove_identity(id).links == m.links,
{
    crate::invariants::lemma_clear_slot(m.identities, id as int);
}

/// For each link of an identity, the identity at its other end together with
/// the link: first those in which it is the parent, then those in which it is
/// the child.
pub proof fn law_linked_identities_content(m: RegistryModel, id: u64, j: int)
    requires
        m.wf(),
    ensures
        m.linked_identities(id).len() == m.parent_links(id).len() + m.children_links(id).len(),
        0 <= j < m.parent_links(id).len() ==> ({
            let l = m.parent_links(id)[j];
            &&& m.linked_identities(id)[j].1 == m.link(l)->0
            &&& m.link(l)->0.parent_id == id
            &&& Some(m.linked_identities(id)[j].0) == m.identity(m.link(l)->0.child_id)
        }),
        0 <= j < m.children_links(id).len() ==> ({
            let l = m.children_links(id)[j];
            let i = m.parent_links(id).len() + j;
            &&& m.linked_identities(id)[i].1 == m.link(l)->0
            &&& m.link(l)->0.child_id == id
            &&& Some(m.linked_identities(id)[i].0) == m.identity(m.link(l)->0.parent_id)
        }),
{
    if 0 <= j < m.parent_links(id).len() {
        let l = m.stores[id].parent_links[j];
        assert(m.link(l) is Some);
        assert(m.links[l as int] is Some);
    }
    if 0 <= j < m.children_links(id).len() {
        let l = m.stores[id].children_links[j];
        assert(m.link(l) is Some);
        assert(m.links[l as int] is Some);
    }
}
} // verus!
