use vstd::prelude::*;

use crate::contract::{
    add_modifier_error, delete_link_request_error, delete_unlink_request_error, edit_identity_error,
    is_owner, keys_held_by_other, new_identity_error, remove_identity_error, remove_modifier_error,
    request_link_error, request_unlink_error,
};
use crate::model::RegistryModel;
use crate::types::{CallModel, ContractError, State};

verus! {

// Who may make each request, on inputs where nothing else refuses it.

/// A new identity is registered exactly when the registry is active, no
/// identity holds its address and none holds its legal id.
pub proof fn law_new_identity_accepted(m: RegistryModel, legal_id: Seq<u8>, address: Seq<u8>)
    ensures
        new_identity_error(m, legal_id, address) is None <==> (m.state == State::Active
            && m.identity_by_address(address) is None && m.identity_by_legal_id(legal_id) is None),
        m.state == State::Active && m.identity_by_address(address) is Some ==> new_identity_error(
            m,
            legal_id,
            address,
        ) == Some(ContractError::WalletAlreadyRegistered),
        m.state == State::Active && m.identity_by_address(address) is None && m.identity_by_legal_id(
            legal_id,
        ) is Some ==> new_identity_error(m, legal_id, address) == Some(
            ContractError::LegalIdAlreadyRegistered,
        ),
{
}

/// The owner or the identity's own address may edit an existing identity;
/// anyone else is refused as not allowed.
pub proof fn law_edit_identity_callers(m: RegistryModel, ctx: CallModel, id: u64)
    requires
        m.state == State::Active,
        m.has_identity(id),
    ensures
        edit_identity_error(m, ctx, id) is None <==> (is_owner(ctx) || ctx.caller == m.identity(id)->0.address),
        !is_owner(ctx) && ctx.caller != m.identity(id)->0.address ==> edit_identity_error(m, ctx, id)
            == Some(ContractError::NotAllowed),
{
}

/// The owner or the identity's own address may remove an existing identity
/// that has no links; anyone else, or an identity with links, is refused as
/// not allowed.
pub proof fn law_remove_identity_callers(m: RegistryModel, ctx: CallModel, id: u64)
    requires
        m.state == State::Active,
        m.has_identity(id),
    ensures
        remove_identity_error(m, ctx, id) is None <==> ((is_owner(ctx) || ctx.caller == m.identity(
            id,
        )->0.address) && !m.has_links(id)),
        remove_identity_error(m, ctx, id) is Some ==> remove_identity_error(m, ctx, id) == Some(
            ContractError::NotAllowed,
        ),
{
}

/// Only the parent's own address may ask for a link between two distinct
/// existing identities (not even the owner), and only for keys that no other
/// parent of the child holds.
pub proof fn law_request_link_callers(
    m: RegistryModel,
    ctx: CallModel,
    parent_id: u64,
    child_id: u64,
    relation: Seq<u8>,
    keys: Seq<Seq<u8>>,
)
    requires
        m.state == State::Active,
        parent_id != child_id,
        relation.len() > 0,
        m.has_identity(parent_id),
        m.has_identity(child_id),
    ensures
        request_link_error(m, ctx, parent_id, child_id, relation, keys) is None <==> (ctx.caller == m.identity(
            parent_id,
        )->0.address && !keys_held_by_other(m, child_id, keys, m.identity(parent_id)->0.address)),
        request_link_error(m, ctx, parent_id, child_id, relation, keys) is Some ==> request_link_error(
            m,
            ctx,
            parent_id,
            child_id,
            relation,
            keys,
        ) == Some(ContractError::NotAllowed),
{
}

/// Only the child's own address may ask to break an existing link (not even
/// the owner).
pub proof fn law_request_unlink_callers(m: RegistryModel, ctx: CallModel, parent_id: u64, child_id: u64)
    requires
        m.state == State::Active,
        m.has_identity(parent_id),
        m.has_identity(child_id),
        m.link_by_ids(parent_id, child_id) is Some,
    ensures
        request_unlink_error(m, ctx, parent_id, child_id) is None <==> ctx.caller == m.identity(
            child_id,
        )->0.address,
        ctx.caller != m.identity(child_id)->0.address ==> request_unlink_error(m, ctx, parent_id, child_id)
            == Some(ContractError::NotAllowed),
{
}

/// A pending link request may be withdrawn by the owner or by the address of
/// its parent or its child, while that identity exists; anyone else is
/// refused as not allowed.
pub proof fn law_delete_link_request_callers(m: RegistryModel, ctx: CallModel, request_id: u64)
    requires
        m.state == State::Active,
        m.link_request(request_id) is Some,
    ensures
        ({
            let r = m.link_request(request_id)->0;
            let allowed = is_owner(ctx) || (m.has_identity(r.child_id) && ctx.caller == m.identity(
                r.child_id,
            )->0.address) || (m.has_identity(r.parent_id) && ctx.caller == m.identity(
                r.parent_id,
            )->0.address);
            &&& delete_link_request_error(m, ctx, request_id) is None <==> allowed
            &&& !allowed ==> delete_link_request_error(m, ctx, request_id) == Some(ContractError::NotAllowed)
        }),
{
}

/// A pending unlink request may be withdrawn by the owner or by the address
/// of its parent or its child, while that identity exists; anyone else is
/// refused as not allowed.
pub proof fn law_delete_unlink_request_callers(m: RegistryModel, ctx: CallModel, request_id: u64)
    requires
        m.state == State::Active,
        m.unlink_request(request_id) is Some,
    ensures
        ({
            let r = m.unlink_request(request_id)->0;
            let allowed = is_owner(ctx) || (m.has_identity(r.child_id) && ctx.caller == m.identity(
                r.child_id,
            )->0.address) || (m.has_identity(r.parent_id) && ctx.caller == m.identity(
                r.parent_id,
            )->0.address);
            &&& delete_unlink_request_error(m, ctx, request_id) is None <==> allowed
            &&& !allowed ==> delete_unlink_request_error(m, ctx, request_id) == Some(
                ContractError::NotAllowed,
            )
        }),
{
}

/// A new modifier for a key (of an existing identity, the key not empty) is
/// accepted from the owner always, and from anyone else only from a parent of
/// the identity while nobody may write under the key and it holds no value.
pub proof fn law_add_modifier_callers(
    m: RegistryModel,
    ctx: CallModel,
    id: u64,
    key: Seq<u8>,
    modifier: Seq<u8>,
)
    requires
        m.state == State::Active,
        key.len() > 0,
        m.has_identity(id),
        !m.modifiers(id, key).contains(modifier),
    ensures
        add_modifier_error(m, ctx, id, key, modifier) is None <==> (is_owner(ctx) || (m.is_parent_address(
            id,
            ctx.caller,
        ) && m.modifiers(id, key).len() == 0 && m.key_values(id, key).len() == 0)),
        add_modifier_error(m, ctx, id, key, modifier) is Some ==> add_modifier_error(m, ctx, id, key, modifier)
            == Some(ContractError::NotAllowed),
{
}

/// A modifier of a key of an existing identity may be taken away by the
/// owner or by that modifier itself; anyone else is refused as not allowed.
pub proof fn law_remove_modifier_callers(
    m: RegistryModel,
    ctx: CallModel,
    id: u64,
    key: Seq<u8>,
    modifier: Seq<u8>,
)
    requires
        m.state == State::Active,
        m.has_identity(id),
        m.modifiers(id, key).contains(modifier),
    ensures
        remove_modifier_error(m, ctx, id, key, modifier) is None <==> (is_owner(ctx) || ctx.caller == modifier),
        !is_owner(ctx) && ctx.caller != modifier ==> remove_modifier_error(m, ctx, id, key, modifier) == Some(
            ContractError::NotAllowed,
        ),
{
}

} // verus!
