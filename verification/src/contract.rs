use vstd::prelude::*;

use crate::bytes::{bytes_list_view, opt_bytes};
use crate::config::{empty_registry, ConfigModule};
use crate::model::RegistryModel;
use crate::types::{
    CallContext, CallModel, ContractError, Identity, IdentityModel, LinkRequestModel, State,
    UnlinkRequestModel, ValueModel,
};

verus! {

/// Whether the caller owns the registry.
pub open spec fn is_owner(ctx: CallModel) -> bool {
    ctx.caller == ctx.owner
}

/// Whether the caller owns the registry or is the identity's address.
pub open spec fn owner_or_wallet(m: RegistryModel, ctx: CallModel, id: u64) -> bool {
    is_owner(ctx) || ctx.caller == m.identity(id)->0.address
}

/// Why `only_owner_or_wallet` refuses, if it does.
pub open spec fn owner_or_wallet_error(m: RegistryModel, ctx: CallModel, id: u64) -> Option<
    ContractError,
> {
    if !m.has_identity(id) {
        Some(ContractError::IdentityNotFound)
    } else if !owner_or_wallet(m, ctx, id) {
        Some(ContractError::NotAllowed)
    } else {
        None
    }
}

/// Why `new_identity` refuses, if it does.
pub open spec fn new_identity_error(
    m: RegistryModel,
    legal_id: Seq<u8>,
    address: Seq<u8>,
) -> Option<ContractError> {
    if m.state != State::Active {
        Some(ContractError::NotActive)
    } else if m.identity_by_address(address) is Some {
        Some(ContractError::WalletAlreadyRegistered)
    } else if m.identity_by_legal_id(legal_id) is Some {
        Some(ContractError::LegalIdAlreadyRegistered)
    } else {
        None
    }
}

/// Why `edit_identity` refuses, if it does.
pub open spec fn edit_identity_error(m: RegistryModel, ctx: CallModel, id: u64) -> Option<
    ContractError,
> {
    if m.state != State::Active {
        Some(ContractError::NotActive)
    } else {
        owner_or_wallet_error(m, ctx, id)
    }
}

/// The identity as `edit_identity` stores it: the new details, and the new
/// address only where the identity has no links and no identity holds it.
pub open spec fn edited_identity(m: RegistryModel, ctx: CallModel, new: IdentityModel) -> IdentityModel {
    let old = m.identity(new.id)->0;
    let may_move = !m.has_links(new.id) && m.identity_by_address(new.address) is None;
    IdentityModel { address: if may_move { new.address } else { old.address }, ..new }
}

/// Why `remove_identity` refuses, if it does.
pub open spec fn remove_identity_error(m: RegistryModel, ctx: CallModel, id: u64) -> Option<
    ContractError,
> {
    if m.state != State::Active {
        Some(ContractError::NotActive)
    } else if owner_or_wallet_error(m, ctx, id) is Some {
        owner_or_wallet_error(m, ctx, id)
    } else if m.has_links(id) {
        Some(ContractError::NotAllowed)
    } else {
        None
    }
}

/// Whether `modifier` is the address of a parent of the identity other than the one at `address`.
pub open spec fn is_other_parent(m: RegistryModel, id: u64, modifier: Seq<u8>, address: Seq<u8>) -> bool {
    modifier != address && match m.identity_by_address(modifier) {
        Some(p) => m.is_parent_of(p.id, id),
        None => false,
    }
}

/// Whether another parent of the identity than the one at `address` may write
/// under some of `keys`.
pub open spec fn keys_held_by_other(m: RegistryModel, id: u64, keys: Seq<Seq<u8>>, address: Seq<u8>) -> bool {
    exists|i: int, j: int|
        0 <= i < keys.len() && 0 <= j < m.modifiers(id, keys[i]).len() && is_other_parent(
            m,
            id,
            #[trigger] m.modifiers(id, keys[i])[j],
            address,
        )
}

/// Why `request_link` refuses, if it does.
pub open spec fn request_link_error(
    m: RegistryModel,
    ctx: CallModel,
    parent_id: u64,
    child_id: u64,
    relation: Seq<u8>,
    keys: Seq<Seq<u8>>,
) -> Option<ContractError> {
    if m.state != State::Active {
        Some(ContractError::NotActive)
    } else if child_id == parent_id {
        Some(ContractError::NotAllowed)
    } else if relation.len() == 0 {
        Some(ContractError::EmptyValue)
    } else if !m.has_identity(parent_id) || !m.has_identity(child_id) {
        Some(ContractError::IdentityNotFound)
    } else if ctx.caller != m.identity(parent_id)->0.address {
        Some(ContractError::NotAllowed)
    } else if keys_held_by_other(m, child_id, keys, m.identity(parent_id)->0.address) {
        Some(ContractError::NotAllowed)
    } else {
        None
    }
}

/// Whether `address` is the address of the identity `id`, which exists.
pub open spec fn is_address_of(m: RegistryModel, address: Seq<u8>, id: u64) -> bool {
    m.has_identity(id) && m.identity(id)->0.address == address
}

/// Why `delete_link_request` refuses, if it does.
pub open spec fn delete_link_request_error(m: RegistryModel, ctx: CallModel, request_id: u64) -> Option<
    ContractError,
> {
    let r = m.link_request(request_id)->0;
    if m.state != State::Active {
        Some(ContractError::NotActive)
    } else if m.link_request(request_id) is None {
        Some(ContractError::RequestNotFound)
    } else if !is_owner(ctx) && !is_address_of(m, ctx.caller, r.child_id) && !is_address_of(
        m,
        ctx.caller,
        r.parent_id,
    ) {
        Some(ContractError::NotAllowed)
    } else {
        None
    }
}

/// Why `accept_link` refuses, if it does.
pub open spec fn accept_link_error(m: RegistryModel, ctx: CallModel, request_id: u64) -> Option<
    ContractError,
> {
    let r = m.link_request(request_id)->0;
    if m.state != State::Active {
        Some(ContractError::NotActive)
    } else if m.link_request(request_id) is None {
        Some(ContractError::RequestNotFound)
    } else if !m.has_identity(r.child_id) || !m.has_identity(r.parent_id) {
        Some(ContractError::IdentityNotFound)
    } else if !owner_or_wallet(m, ctx, r.child_id) {
        Some(ContractError::NotAllowed)
    } else if keys_held_by_other(m, r.child_id, r.keys, m.identity(r.parent_id)->0.address) {
        Some(ContractError::NotAllowed)
    } else {
        None
    }
}

/// A link created from a request: the parent may write under the requested keys of the child.
pub open spec fn linked(m: RegistryModel, r: LinkRequestModel) -> RegistryModel {
    m.add_link(r.child_id, r.parent_id, r.relation).grant_keys(
        r.child_id,
        r.keys,
        m.identity(r.parent_id)->0.address,
    )
}

/// Why `request_unlink` refuses, if it does.
pub open spec fn request_unlink_error(
    m: RegistryModel,
    ctx: CallModel,
    parent_id: u64,
    child_id: u64,
) -> Option<ContractError> {
    if m.state != State::Active {
        Some(ContractError::NotActive)
    } else if !m.has_identity(parent_id) || !m.has_identity(child_id) {
        Some(ContractError::IdentityNotFound)
    } else if m.link_by_ids(parent_id, child_id) is None {
        Some(ContractError::LinkNotFound)
    } else if ctx.caller != m.identity(child_id)->0.address {
        Some(ContractError::NotAllowed)
    } else {
        None
    }
}

/// Why `delete_unlink_request` refuses, if it does.
pub open spec fn delete_unlink_request_error(m: RegistryModel, ctx: CallModel, request_id: u64) -> Option<
    ContractError,
> {
    let r = m.unlink_request(request_id)->0;
    if m.state != State::Active {
        Some(ContractError::NotActive)
    } else if m.unlink_request(request_id) is None {
        Some(ContractError::RequestNotFound)
    } else if !is_owner(ctx) && !is_address_of(m, ctx.caller, r.child_id) && !is_address_of(
        m,
        ctx.caller,
        r.parent_id,
    ) {
        Some(ContractError::NotAllowed)
    } else {
        None
    }
}

/// Why `accept_unlink` refuses, if it does.
pub open spec fn accept_unlink_error(m: RegistryModel, ctx: CallModel, request_id: u64) -> Option<
    ContractError,
> {
    let r = m.unlink_request(request_id)->0;
    if m.state != State::Active {
        Some(ContractError::NotActive)
    } else if m.unlink_request(request_id) is None {
        Some(ContractError::RequestNotFound)
    } else if !m.has_identity(r.child_id) || !m.has_identity(r.parent_id) {
        Some(ContractError::IdentityNotFound)
    } else if !owner_or_wallet(m, ctx, r.parent_id) {
        Some(ContractError::NotAllowed)
    } else if m.link_by_ids(r.parent_id, r.child_id) is None {
        Some(ContractError::LinkNotFound)
    } else {
        None
    }
}

/// Why `remove_identity_link` refuses, if it does.
pub open spec fn remove_identity_link_error(
    m: RegistryModel,
    ctx: CallModel,
    parent_id: u64,
    child_id: u64,
) -> Option<ContractError> {
    if m.state != State::Active {
        Some(ContractError::NotActive)
    } else if !m.has_identity(parent_id) || !m.has_identity(child_id) {
        Some(ContractError::IdentityNotFound)
    } else if m.link_by_ids(parent_id, child_id) is None {
        Some(ContractError::LinkNotFound)
    } else if !owner_or_wallet(m, ctx, parent_id) {
        Some(ContractError::NotAllowed)
    } else {
        None
    }
}

/// The first link between the two identities removed; the parent loses its
/// write access to every key of the child.
pub open spec fn unlinked(m: RegistryModel, parent_id: u64, child_id: u64) -> RegistryModel {
    let link = m.link_by_ids(parent_id, child_id)->0;
    m.revoke(child_id, m.identity(link.parent_id)->0.address).remove_link(link.id)
}

/// The modifier that a request names, or else the caller.
pub open spec fn chosen_modifier(ctx: CallModel, opt_modifier: Option<Seq<u8>>) -> Seq<u8> {
    match opt_modifier {
        Some(a) => a,
        None => ctx.caller,
    }
}

/// Whether the caller is the address of a parent of the identity.
pub open spec fn caller_is_parent(m: RegistryModel, ctx: CallModel, id: u64) -> bool {
    match m.identity_by_address(ctx.caller) {
        Some(p) => m.is_parent_of(p.id, id),
        None => false,
    }
}

/// Why `add_modifier` refuses, if it does.
pub open spec fn add_modifier_error(
    m: RegistryModel,
    ctx: CallModel,
    id: u64,
    key: Seq<u8>,
    modifier: Seq<u8>,
) -> Option<ContractError> {
    if m.state != State::Active {
        Some(ContractError::NotActive)
    } else if key.len() == 0 {
        Some(ContractError::EmptyValue)
    } else if !m.has_identity(id) {
        Some(ContractError::IdentityNotFound)
    } else if m.modifiers(id, key).contains(modifier) {
        None
    } else if !is_owner(ctx) && !caller_is_parent(m, ctx, id) {
        Some(ContractError::NotAllowed)
    } else if (m.modifiers(id, key).len() > 0 || m.key_values(id, key).len() > 0) && !is_owner(
        ctx,
    ) {
        Some(ContractError::NotAllowed)
    } else {
        None
    }
}

/// What `add_modifier` leaves: the modifier may write under the key, and so
/// may a caller who is not the owner.
pub open spec fn modifier_added(
    m: RegistryModel,
    ctx: CallModel,
    id: u64,
    key: Seq<u8>,
    modifier: Seq<u8>,
) -> RegistryModel {
    if m.modifiers(id, key).contains(modifier) {
        m
    } else {
        let m1 = if !is_owner(ctx) && ctx.caller != modifier {
            m.insert_modifier(id, key, ctx.caller)
        } else {
            m
        };
        m1.insert_modifier(id, key, modifier)
    }
}

/// Why `remove_modifier` refuses, if it does.
pub open spec fn remove_modifier_error(
    m: RegistryModel,
    ctx: CallModel,
    id: u64,
    key: Seq<u8>,
    modifier: Seq<u8>,
) -> Option<ContractError> {
    if m.state != State::Active {
        Some(ContractError::NotActive)
    } else if !m.has_identity(id) {
        Some(ContractError::IdentityNotFound)
    } else if !m.modifiers(id, key).contains(modifier) {
        None
    } else if !is_owner(ctx) && ctx.caller != modifier {
        Some(ContractError::NotAllowed)
    } else {
        None
    }
}

/// What `remove_modifier` leaves: the modifier may no longer write under the key.
pub open spec fn modifier_removed(m: RegistryModel, id: u64, key: Seq<u8>, modifier: Seq<u8>) -> RegistryModel {
    if m.modifiers(id, key).contains(modifier) {
        m.remove_modifier(id, key, modifier)
    } else {
        m
    }
}

/// Why `add_identity_key_value` refuses, if it does.
pub open spec fn add_value_error(m: RegistryModel, ctx: CallModel, id: u64, key: Seq<u8>) -> Option<
    ContractError,
> {
    if m.state != State::Active {
        Some(ContractError::NotActive)
    } else if !m.has_identity(id) {
        Some(ContractError::IdentityNotFound)
    } else if !is_owner(ctx) && !m.modifiers(id, key).contains(ctx.caller) {
        Some(ContractError::NotAllowed)
    } else {
        None
    }
}

/// The value that `add_identity_key_value` adds.
pub open spec fn new_value(m: RegistryModel, ctx: CallModel, id: u64, key: Seq<u8>, value: Seq<u8>) -> ValueModel {
    ValueModel {
        id: m.last_key_id(id, key) as u64,
        value,
        modifier: ctx.caller,
        timestamp: ctx.timestamp,
    }
}

/// The registry after adding a value under a key.
pub open spec fn value_added(m: RegistryModel, ctx: CallModel, id: u64, key: Seq<u8>, value: Seq<u8>) -> RegistryModel {
    m.add_value(id, key, new_value(m, ctx, id, key, value))
}

/// Why `add_identity_keys_values` refuses, if it does: the refusal of the first
/// pair that is refused.
pub open spec fn add_values_error(
    m: RegistryModel,
    ctx: CallModel,
    id: u64,
    pairs: Seq<(Seq<u8>, Seq<u8>)>,
) -> Option<ContractError> {
    match crate::model::first_index(
        pairs,
        |p: (Seq<u8>, Seq<u8>)| add_value_error(m, ctx, id, p.0) is Some,
        pairs.len() as int,
    ) {
        Some(i) => add_value_error(m, ctx, id, pairs[i].0),
        None => None,
    }
}

/// The registry after adding each pair's value under its key, in order.
pub open spec fn values_added(
    m: RegistryModel,
    ctx: CallModel,
    id: u64,
    pairs: Seq<(Seq<u8>, Seq<u8>)>,
) -> RegistryModel
    decreases pairs.len(),
{
    if pairs.len() == 0 {
        m
    } else {
        let m1 = values_added(m, ctx, id, pairs.drop_last());
        value_added(m1, ctx, id, pairs.last().0, pairs.last().1)
    }
}

/// Why `edit_identity_key_value` refuses, if it does.
pub open spec fn edit_value_error(
    m: RegistryModel,
    ctx: CallModel,
    id: u64,
    key: Seq<u8>,
    value_id: u64,
) -> Option<ContractError> {
    if m.state != State::Active {
        Some(ContractError::NotActive)
    } else if !m.has_identity(id) {
        Some(ContractError::IdentityNotFound)
    } else if !m.keys(id).contains(key) {
        Some(ContractError::KeyNotFound)
    } else if m.value(id, key, value_id) is None {
        Some(ContractError::ValueNotFound)
    } else if !is_owner(ctx) && ctx.caller != m.value(id, key, value_id)->0.modifier {
        Some(ContractError::NotAllowed)
    } else if !is_owner(ctx) && !m.modifiers(id, key).contains(ctx.caller) {
        Some(ContractError::NotAllowed)
    } else {
        None
    }
}

/// Why `remove_identity_key_value` refuses, if it does.
pub open spec fn remove_value_error(
    m: RegistryModel,
    ctx: CallModel,
    id: u64,
    key: Seq<u8>,
    value_id: u64,
) -> Option<ContractError> {
    if m.state != State::Active {
        Some(ContractError::NotActive)
    } else if !m.has_identity(id) {
        Some(ContractError::IdentityNotFound)
    } else if !m.keys(id).contains(key) {
        Some(ContractError::KeyNotFound)
    } else if m.value(id, key, value_id) is None {
        Some(ContractError::ValueNotFound)
    } else if m.modifiers(id, key).len() == 0 {
        if !owner_or_wallet(m, ctx, id) {
            Some(ContractError::NotAllowed)
        } else {
            None
        }
    } else if !is_owner(ctx) && !m.modifiers(id, key).contains(ctx.caller) {
        Some(ContractError::NotAllowed)
    } else {
        None
    }
}


/// The keys a link request names; none when it names none.
pub open spec fn requested_keys(keys: Option<Vec<Vec<u8>>>) -> Seq<Seq<u8>> {
    match keys {
        Some(k) => bytes_list_view(k@),
        None => Seq::empty(),
    }
}

/// The key-value pairs of a request, as byte strings.
pub open spec fn pairs_view(v: Seq<(Vec<u8>, Vec<u8>)>) -> Seq<(Seq<u8>, Seq<u8>)> {
    v.map_values(|p: (Vec<u8>, Vec<u8>)| (p.0@, p.1@))
}

/// Whether the caller owns the registry.
fn caller_is_owner(ctx: &CallContext) -> (r: bool)
    ensures
        r == is_owner(ctx@),
{
    crate::bytes::bytes_eq(&ctx.caller, &ctx.owner)
}

/// The digital identity registry: identities with their keys and values,
/// parent-child links between them, and the requests that create and break links.
pub struct TFNDigitalIdentityContract {
    config: ConfigModule,
}

impl View for TFNDigitalIdentityContract {
    type V = RegistryModel;

    closed spec fn view(&self) -> RegistryModel {
        self.config@
    }
}

impl TFNDigitalIdentityContract {
    /// What every operation keeps.
    pub closed spec fn inv(&self) -> bool {
        self.config.inv()
    }

    /// The storage of the registry, with its queries.
    pub fn config(&self) -> (r: &ConfigModule)
        ensures
            r@ == self@,
            r.inv() == self.inv(),
    {
        &self.config
    }

    /// A new registry: empty and active.
    pub fn init() -> (c: TFNDigitalIdentityContract)
        ensures
            c.inv(),
            c@ == empty_registry(State::Active),
    {
        let mut config = ConfigModule::new();
        config.put_state(State::Active);
        let c = TFNDigitalIdentityContract { config };
        assert(c@ =~~= empty_registry(State::Active));
        c
    }

    /// An upgrade of the registry's code changes nothing in it.
    pub fn upgrade(&mut self)
        ensures
            final(self)@ == old(self)@,
            final(self).inv() == old(self).inv(),
    {
    }

    /// Activates the registry; only its owner may.
    pub fn set_state_active(&mut self, ctx: &CallContext) -> (r: Result<(), ContractError>)
        requires
            old(self).inv(),
        ensures
            final(self).inv(),
            is_owner(ctx@) ==> r is Ok && final(self)@ == old(self)@.with_state(State::Active),
            !is_owner(ctx@) ==> r == Err::<(), ContractError>(ContractError::OnlyOwner)
                && final(self)@ == old(self)@,
    {
        self.config.set_state_active(ctx)
    }

    /// Deactivates the registry; only its owner may.
    pub fn set_state_inactive(&mut self, ctx: &CallContext) -> (r: Result<(), ContractError>)
        requires
            old(self).inv(),
        ensures
            final(self).inv(),
            is_owner(ctx@) ==> r is Ok && final(self)@ == old(self)@.with_state(State::Inactive),
            !is_owner(ctx@) ==> r == Err::<(), ContractError>(ContractError::OnlyOwner)
                && final(self)@ == old(self)@,
    {
        self.config.set_state_inactive(ctx)
    }

    /// Whether the identity is the parent or the child of some link.
    pub fn has_links(&self, identity_id: u64) -> (r: bool)
        requires
            self.inv(),
        ensures
            r == self@.has_links(identity_id),
    {
        self.config.has_links(identity_id)
    }

    /// Whether `address` is the address of the identity, which exists.
    fn is_address_of(&self, address: &Vec<u8>, identity_id: u64) -> (r: bool)
        ensures
            r == is_address_of(self@, address@, identity_id),
    {
        match self.config.identity_ref(identity_id) {
            Some(identity) => crate::bytes::bytes_eq(address, &identity.address),
            None => false,
        }
    }

    /// Refuses unless the identity exists and the caller owns the registry or
    /// is the identity's address.
    pub fn only_owner_or_wallet(&self, ctx: &CallContext, identity_id: u64) -> (r: Result<(), ContractError>)
        ensures
            match owner_or_wallet_error(self@, ctx@, identity_id) {
                Some(e) => r == Err::<(), ContractError>(e),
                None => r is Ok,
            },
    {
        match self.config.identity_ref(identity_id) {
            None => Err(ContractError::IdentityNotFound),
            Some(identity) => {
                if caller_is_owner(ctx) || crate::bytes::bytes_eq(&ctx.caller, &identity.address) {
                    Ok(())
                } else {
                    Err(ContractError::NotAllowed)
                }
            },
        }
    }

    /// Registers a new identity at the next id and returns its id.
    pub fn new_identity(
        &mut self,
        ctx: &CallContext,
        is_corporate: bool,
        legal_id: Vec<u8>,
        birthdate: u64,
        address: Vec<u8>,
        name: Vec<u8>,
        description: Vec<u8>,
        image: Vec<u8>,
        contact: Vec<Vec<u8>>,
    ) -> (r: Result<u64, ContractError>)
        requires
            old(self).inv(),
        ensures
            final(self).inv(),
            match new_identity_error(old(self)@, legal_id@, address@) {
                Some(e) => r == Err::<u64, ContractError>(e) && final(self)@ == old(self)@,
                None => r == Ok::<u64, ContractError>(old(self)@.last_identity_id() as u64)
                    && final(self)@ == old(self)@.push_identity(
                    IdentityModel {
                        id: old(self)@.last_identity_id() as u64,
                        is_corporate,
                        legal_id: legal_id@,
                        birthdate,
                        address: address@,
                        name: name@,
                        description: description@,
                        image: image@,
                        contact: bytes_list_view(contact@),
                    },
                ),
            },
    {
        if self.config.get_state() != State::Active {
            return Err(ContractError::NotActive);
        }
        if self.config.get_identity_by_address(&address).is_some() {
            return Err(ContractError::WalletAlreadyRegistered);
        }
        if self.config.get_identity_by_legal_id(&legal_id).is_some() {
            return Err(ContractError::LegalIdAlreadyRegistered);
        }
        let id = self.config.get_last_identity_id();
        let identity = Identity {
            id,
            is_corporate,
            legal_id,
            birthdate,
            address,
            name,
            description,
            image,
            contact,
        };
        proof {
            crate::invariants::lemma_wf_push_identity(self@, identity@);
        }
        self.config.push_identity(identity);
        Ok(id)
    }

    /// Replaces the details of an identity. The address changes only where the
    /// identity has no links and no identity holds the new address.
    pub fn edit_identity(&mut self, ctx: &CallContext, new_identity: Identity) -> (r: Result<
        (),
        ContractError,
    >)
        requires
            old(self).inv(),
        ensures
            final(self).inv(),
            match edit_identity_error(old(self)@, ctx@, new_identity.id) {
                Some(e) => r == Err::<(), ContractError>(e) && final(self)@ == old(self)@,
                None => r is Ok && final(self)@ == old(self)@.set_identity(
                    new_identity.id,
                    edited_identity(old(self)@, ctx@, new_identity@),
                ),
            },
    {
        if self.config.get_state() != State::Active {
            return Err(ContractError::NotActive);
        }
        match self.only_owner_or_wallet(ctx, new_identity.id) {
            Err(e) => {
                return Err(e);
            },
            Ok(()) => {},
        }
        let id = new_identity.id;
        let may_move = !self.config.has_links(id) && self.config.get_identity_by_address(&new_identity.address).is_none();
        let old_address = crate::bytes::copy_bytes(&self.config.existing_identity(id).address);
        let address = if may_move {
            new_identity.address
        } else {
            old_address
        };
        let identity = Identity {
            id,
            is_corporate: new_identity.is_corporate,
            legal_id: new_identity.legal_id,
            birthdate: new_identity.birthdate,
            address,
            name: new_identity.name,
            description: new_identity.description,
            image: new_identity.image,
            contact: new_identity.contact,
        };
        assert(identity@ == edited_identity(old(self)@, ctx@, new_identity@));
        proof {
            crate::invariants::lemma_wf_set_identity(self@, id, identity@);
        }
        self.config.set_identity(id, identity);
        Ok(())
    }

    /// Removes an identity with its keys and values; refused while it has links.
    pub fn remove_identity(&mut self, ctx: &CallContext, identity_id: u64) -> (r: Result<
        (),
        ContractError,
    >)
        requires
            old(self).inv(),
        ensures
            final(self).inv(),
            match remove_identity_error(old(self)@, ctx@, identity_id) {
                Some(e) => r == Err::<(), ContractError>(e) && final(self)@ == old(self)@,
                None => r is Ok && final(self)@ == old(self)@.remove_identity(identity_id),
            },
    {
        if self.config.get_state() != State::Active {
            return Err(ContractError::NotActive);
        }
        match self.only_owner_or_wallet(ctx, identity_id) {
            Err(e) => {
                return Err(e);
            },
            Ok(()) => {},
        }
        if self.config.has_links(identity_id) {
            return Err(ContractError::NotAllowed);
        }
        proof {
            crate::invariants::lemma_wf_remove_identity(self@, identity_id);
        }
        self.config.remove_identity_storage(identity_id);
        Ok(())
    }
}

impl TFNDigitalIdentityContract {
    /// Whether another parent of the identity than the one at `address` may
    /// write under some of `keys`.
    fn keys_held_by_other(&self, id: u64, keys: &Vec<Vec<u8>>, address: &Vec<u8>) -> (r: bool)
        requires
            self.inv(),
        ensures
            r == keys_held_by_other(self@, id, bytes_list_view(keys@), address@),
    {
        let ghost kv = bytes_list_view(keys@);
        let mut i: usize = 0;
        while i < keys.len()
            invariant
                self.inv(),
                i <= keys@.len(),
                kv == bytes_list_view(keys@),
                forall|a: int, j: int|
                    0 <= a < i && 0 <= j < self@.modifiers(id, kv[a]).len() ==> !is_other_parent(
                        self@,
                        id,
                        #[trigger] self@.modifiers(id, kv[a])[j],
                        address@,
                    ),
            decreases keys@.len() - i,
        {
            let mods = self.config.get_identity_key_modifiers(id, &keys[i]);
            assert(kv[i as int] == keys@[i as int]@);
            let mut j: usize = 0;
            while j < mods.len()
                invariant
                    self.inv(),
                    i < keys@.len(),
                    kv == bytes_list_view(keys@),
                    j <= mods@.len(),
                    bytes_list_view(mods@) == self@.modifiers(id, kv[i as int]),
                    forall|b: int|
                        0 <= b < j ==> !is_other_parent(
                            self@,
                            id,
                            #[trigger] self@.modifiers(id, kv[i as int])[b],
                            address@,
                        ),
                decreases mods@.len() - j,
            {
                assert(self@.modifiers(id, kv[i as int])[j as int] == mods@[j as int]@);
                if !crate::bytes::bytes_eq(&mods[j], address) {
                    match self.config.get_identity_by_address(&mods[j]) {
                        Some(p) => {
                            if self.config.is_parent_of(p.id, id) {
                                assert(is_other_parent(
                                    self@,
                                    id,
                                    self@.modifiers(id, kv[i as int])[j as int],
                                    address@,
                                ));
                                assert(0 <= j < self@.modifiers(id, kv[i as int]).len());
                                return true;
                            }
                        },
                        None => {},
                    }
                }
                j = j + 1;
            }
            i = i + 1;
        }
        false
    }

    /// A parent asks to link to a child, naming the keys it means to write; returns the request id.
    pub fn request_link(
        &mut self,
        ctx: &CallContext,
        parent_id: u64,
        child_id: u64,
        relation: Vec<u8>,
        keys: Option<Vec<Vec<u8>>>,
    ) -> (r: Result<u64, ContractError>)
        requires
            old(self).inv(),
        ensures
            final(self).inv(),
            match request_link_error(old(self)@, ctx@, parent_id, child_id, relation@, requested_keys(keys)) {
                Some(e) => r == Err::<u64, ContractError>(e) && final(self)@ == old(self)@,
                None => r == Ok::<u64, ContractError>(old(self)@.link_requests.len() as u64)
                    && final(self)@ == old(self)@.push_link_request(
                    LinkRequestModel {
                        id: old(self)@.link_requests.len() as u64,
                        parent_id,
                        child_id,
                        relation: relation@,
                        keys: requested_keys(keys),
                    },
                ),
            },
    {
        if self.config.get_state() != State::Active {
            return Err(ContractError::NotActive);
        }
        if child_id == parent_id {
            return Err(ContractError::NotAllowed);
        }
        if relation.len() == 0 {
            return Err(ContractError::EmptyValue);
        }
        let parent_address = match self.config.identity_ref(parent_id) {
            Some(p) => crate::bytes::copy_bytes(&p.address),
            None => {
                return Err(ContractError::IdentityNotFound);
            },
        };
        if self.config.identity_ref(child_id).is_none() {
            return Err(ContractError::IdentityNotFound);
        }
        if !crate::bytes::bytes_eq(&ctx.caller, &parent_address) {
            return Err(ContractError::NotAllowed);
        }
        let keys = match keys {
            Some(k) => k,
            None => {
                let k: Vec<Vec<u8>> = Vec::new();
                assert(bytes_list_view(k@) =~= Seq::<Seq<u8>>::empty());
                k
            },
        };
        if self.keys_held_by_other(child_id, &keys, &parent_address) {
            return Err(ContractError::NotAllowed);
        }
        let request_id = self.config.get_last_link_request_id();
        let request = crate::types::LinkRequest { id: request_id, parent_id, child_id, relation, keys };
        proof {
            crate::invariants::lemma_wf_push_link_request(self@, request@);
        }
        self.config.push_link_request(request);
        Ok(request_id)
    }

    /// Withdraws a link request before it is accepted.
    pub fn delete_link_request(&mut self, ctx: &CallContext, request_id: u64) -> (r: Result<
        (),
        ContractError,
    >)
        requires
            old(self).inv(),
        ensures
            final(self).inv(),
            match delete_link_request_error(old(self)@, ctx@, request_id) {
                Some(e) => r == Err::<(), ContractError>(e) && final(self)@ == old(self)@,
                None => r is Ok && final(self)@ == old(self)@.clear_link_request(request_id),
            },
    {
        if self.config.get_state() != State::Active {
            return Err(ContractError::NotActive);
        }
        let request = match self.config.get_link_request(request_id) {
            Some(r) => r,
            None => {
                return Err(ContractError::RequestNotFound);
            },
        };
        if !caller_is_owner(ctx) && !self.is_address_of(&ctx.caller, request.child_id)
            && !self.is_address_of(&ctx.caller, request.parent_id) {
            return Err(ContractError::NotAllowed);
        }
        proof {
            crate::invariants::lemma_wf_clear_link_request(self@, request_id);
        }
        self.config.clear_link_request(request_id);
        Ok(())
    }

    /// Links a parent to a child as the request asks; the parent may then write
    /// under the requested keys of the child. Returns the link id.
    pub fn new_identity_link(&mut self, request: &crate::types::LinkRequest) -> (r: u64)
        requires
            old(self).inv(),
            old(self)@.has_identity(request.child_id),
            old(self)@.has_identity(request.parent_id),
        ensures
            final(self).inv(),
            final(self)@ == linked(old(self)@, request@),
            r == old(self)@.links.len(),
    {
        let ghost m0 = self@;
        let parent_address = crate::bytes::copy_bytes(&self.config.existing_identity(request.parent_id).address);
        let n = self.config.get_last_identity_link_id();
        proof {
            crate::invariants::lemma_wf_add_link(self@, request.child_id, request.parent_id, request.relation@);
        }
        let link_id = self.config.add_link(
            request.child_id,
            request.parent_id,
            crate::bytes::copy_bytes(&request.relation),
        );
        let ghost m1 = self@;
        let ghost kv = bytes_list_view(request.keys@);
        let mut i: usize = 0;
        while i < request.keys.len()
            invariant
                self.inv(),
                i <= request.keys@.len(),
                kv == bytes_list_view(request.keys@),
                m1 == m0.add_link(request.child_id, request.parent_id, request.relation@),
                self@ == m1.grant_keys(request.child_id, kv.take(i as int), parent_address@),
                self@.identities == m0.identities,
                m0.has_identity(request.child_id),
            decreases request.keys@.len() - i,
        {
            assert(kv.take(i + 1).drop_last() =~= kv.take(i as int));
            assert(kv[i as int] == request.keys@[i as int]@);
            proof {
                crate::invariants::lemma_wf_insert_modifier(self@, request.child_id, kv[i as int], parent_address@);
            }
            self.config.insert_modifier(request.child_id, &request.keys[i], &parent_address);
            i = i + 1;
        }
        assert(kv.take(i as int) =~= kv);
        link_id
    }

    /// The child accepts a link request: the link is created and the request
    /// is settled. Refused while another parent of the child may write under
    /// one of the requested keys.
    pub fn accept_link(&mut self, ctx: &CallContext, request_id: u64) -> (r: Result<(), ContractError>)
        requires
            old(self).inv(),
        ensures
            final(self).inv(),
            match accept_link_error(old(self)@, ctx@, request_id) {
                Some(e) => r == Err::<(), ContractError>(e) && final(self)@ == old(self)@,
                None => r is Ok && final(self)@ == linked(
                    old(self)@,
                    old(self)@.link_request(request_id)->0,
                ).clear_link_request(request_id),
            },
    {
        if self.config.get_state() != State::Active {
            return Err(ContractError::NotActive);
        }
        let request = match self.config.get_link_request(request_id) {
            Some(r) => r,
            None => {
                return Err(ContractError::RequestNotFound);
            },
        };
        let child_address = match self.config.identity_ref(request.child_id) {
            Some(c) => crate::bytes::copy_bytes(&c.address),
            None => {
                return Err(ContractError::IdentityNotFound);
            },
        };
        if self.config.identity_ref(request.parent_id).is_none() {
            return Err(ContractError::IdentityNotFound);
        }
        if !caller_is_owner(ctx) && !crate::bytes::bytes_eq(&ctx.caller, &child_address) {
            return Err(ContractError::NotAllowed);
        }
        let parent_address = crate::bytes::copy_bytes(&self.config.existing_identity(request.parent_id).address);
        if self.keys_held_by_other(request.child_id, &request.keys, &parent_address) {
            return Err(ContractError::NotAllowed);
        }
        let ghost r = request@;
        self.new_identity_link(&request);
        proof {
            crate::invariants::lemma_grant_keys_frame(
                old(self)@.add_link(r.child_id, r.parent_id, r.relation),
                r.child_id,
                r.keys,
                parent_address@,
            );
            crate::invariants::lemma_wf_clear_link_request(self@, request_id);
        }
        self.config.clear_link_request(request_id);
        Ok(())
    }
}

impl TFNDigitalIdentityContract {
    /// Removes the first link between a parent and a child; the parent loses
    /// its write access to every key of the child.
    pub fn do_remove_identity_link(&mut self, parent_id: u64, child_id: u64) -> (r: Result<
        (),
        ContractError,
    >)
        requires
            old(self).inv(),
        ensures
            final(self).inv(),
            old(self)@.link_by_ids(parent_id, child_id) is None ==> r == Err::<(), ContractError>(
                ContractError::LinkNotFound,
            ) && final(self)@ == old(self)@,
            old(self)@.link_by_ids(parent_id, child_id) is Some ==> r is Ok && final(self)@
                == unlinked(old(self)@, parent_id, child_id),
    {
        let link = match self.config.get_link_by_ids(parent_id, child_id) {
            Some(l) => l,
            None => {
                return Err(ContractError::LinkNotFound);
            },
        };
        let ghost m = self@;
        proof {
            crate::invariants::lemma_link_by_ids(m, parent_id, child_id);
        }
        let address = crate::bytes::copy_bytes(&self.config.existing_identity(link.parent_id).address);
        proof {
            crate::invariants::lemma_wf_revoke(m, child_id, address@);
            crate::invariants::lemma_revoke_frame(m, child_id, address@);
        }
        self.config.revoke(child_id, &address);
        proof {
            crate::invariants::lemma_wf_remove_link(self@, link.id);
        }
        self.config.remove_link(link.id);
        Ok(())
    }

    /// A child asks to break its link with a parent; returns the request id.
    pub fn request_unlink(
        &mut self,
        ctx: &CallContext,
        parent_id: u64,
        child_id: u64,
        reason: Vec<u8>,
    ) -> (r: Result<u64, ContractError>)
        requires
            old(self).inv(),
        ensures
            final(self).inv(),
            match request_unlink_error(old(self)@, ctx@, parent_id, child_id) {
                Some(e) => r == Err::<u64, ContractError>(e) && final(self)@ == old(self)@,
                None => r == Ok::<u64, ContractError>(old(self)@.unlink_requests.len() as u64)
                    && final(self)@ == old(self)@.push_unlink_request(
                    UnlinkRequestModel {
                        id: old(self)@.unlink_requests.len() as u64,
                        parent_id,
                        child_id,
                        reason: reason@,
                    },
                ),
            },
    {
        if self.config.get_state() != State::Active {
            return Err(ContractError::NotActive);
        }
        if self.config.identity_ref(parent_id).is_none() {
            return Err(ContractError::IdentityNotFound);
        }
        let child_address = match self.config.identity_ref(child_id) {
            Some(c) => crate::bytes::copy_bytes(&c.address),
            None => {
                return Err(ContractError::IdentityNotFound);
            },
        };
        if self.config.get_link_by_ids(parent_id, child_id).is_none() {
            return Err(ContractError::LinkNotFound);
        }
        if !crate::bytes::bytes_eq(&ctx.caller, &child_address) {
            return Err(ContractError::NotAllowed);
        }
        let request_id = self.config.get_last_unlink_request_id();
        let request = crate::types::UnlinkRequest { id: request_id, parent_id, child_id, reason };
        proof {
            crate::invariants::lemma_wf_push_unlink_request(self@, request@);
        }
        self.config.push_unlink_request(request);
        Ok(request_id)
    }

    /// Withdraws an unlink request before it is accepted.
    pub fn delete_unlink_request(&mut self, ctx: &CallContext, request_id: u64) -> (r: Result<
        (),
        ContractError,
    >)
        requires
            old(self).inv(),
        ensures
            final(self).inv(),
            match delete_unlink_request_error(old(self)@, ctx@, request_id) {
                Some(e) => r == Err::<(), ContractError>(e) && final(self)@ == old(self)@,
                None => r is Ok && final(self)@ == old(self)@.clear_unlink_request(request_id),
            },
    {
        if self.config.get_state() != State::Active {
            return Err(ContractError::NotActive);
        }
        let request = match self.config.get_unlink_request(request_id) {
            Some(r) => r,
            None => {
                return Err(ContractError::RequestNotFound);
            },
        };
        if !caller_is_owner(ctx) && !self.is_address_of(&ctx.caller, request.child_id)
            && !self.is_address_of(&ctx.caller, request.parent_id) {
            return Err(ContractError::NotAllowed);
        }
        proof {
            crate::invariants::lemma_wf_clear_unlink_request(self@, request_id);
        }
        self.config.clear_unlink_request(request_id);
        Ok(())
    }

    /// The parent accepts an unlink request: the link is removed and the
    /// request is settled.
    pub fn accept_unlink(&mut self, ctx: &CallContext, request_id: u64) -> (r: Result<(), ContractError>)
        requires
            old(self).inv(),
        ensures
            final(self).inv(),
            match accept_unlink_error(old(self)@, ctx@, request_id) {
                Some(e) => r == Err::<(), ContractError>(e) && final(self)@ == old(self)@,
                None => r is Ok && final(self)@ == unlinked(
                    old(self)@,
                    old(self)@.unlink_request(request_id)->0.parent_id,
                    old(self)@.unlink_request(request_id)->0.child_id,
                ).clear_unlink_request(request_id),
            },
    {
        if self.config.get_state() != State::Active {
            return Err(ContractError::NotActive);
        }
        let request = match self.config.get_unlink_request(request_id) {
            Some(r) => r,
            None => {
                return Err(ContractError::RequestNotFound);
            },
        };
        if self.config.identity_ref(request.child_id).is_none() {
            return Err(ContractError::IdentityNotFound);
        }
        let parent_address = match self.config.identity_ref(request.parent_id) {
            Some(p) => crate::bytes::copy_bytes(&p.address),
            None => {
                return Err(ContractError::IdentityNotFound);
            },
        };
        if !caller_is_owner(ctx) && !crate::bytes::bytes_eq(&ctx.caller, &parent_address) {
            return Err(ContractError::NotAllowed);
        }
        match self.do_remove_identity_link(request.parent_id, request.child_id) {
            Err(e) => {
                return Err(e);
            },
            Ok(()) => {},
        }
        proof {
            crate::invariants::lemma_wf_clear_unlink_request(self@, request_id);
        }
        self.config.clear_unlink_request(request_id);
        Ok(())
    }

    /// The parent, or the owner, breaks a link.
    pub fn remove_identity_link(&mut self, ctx: &CallContext, parent_id: u64, child_id: u64) -> (r:
        Result<(), ContractError>)
        requires
            old(self).inv(),
        ensures
            final(self).inv(),
            match remove_identity_link_error(old(self)@, ctx@, parent_id, child_id) {
                Some(e) => r == Err::<(), ContractError>(e) && final(self)@ == old(self)@,
                None => r is Ok && final(self)@ == unlinked(old(self)@, parent_id, child_id),
            },
    {
        if self.config.get_state() != State::Active {
            return Err(ContractError::NotActive);
        }
        let parent_address = match self.config.identity_ref(parent_id) {
            Some(p) => crate::bytes::copy_bytes(&p.address),
            None => {
                return Err(ContractError::IdentityNotFound);
            },
        };
        if self.config.identity_ref(child_id).is_none() {
            return Err(ContractError::IdentityNotFound);
        }
        if self.config.get_link_by_ids(parent_id, child_id).is_none() {
            return Err(ContractError::LinkNotFound);
        }
        if !caller_is_owner(ctx) && !crate::bytes::bytes_eq(&ctx.caller, &parent_address) {
            return Err(ContractError::NotAllowed);
        }
        self.do_remove_identity_link(parent_id, child_id)
    }
}

impl TFNDigitalIdentityContract {
    /// Lets an address write under a key of an identity: the named one, or else the caller.
    pub fn add_modifier(
        &mut self,
        ctx: &CallContext,
        identity_id: u64,
        key: &Vec<u8>,
        opt_modifier: Option<Vec<u8>>,
    ) -> (r: Result<(), ContractError>)
        requires
            old(self).inv(),
        ensures
            final(self).inv(),
            match add_modifier_error(
                old(self)@,
                ctx@,
                identity_id,
                key@,
                chosen_modifier(ctx@, opt_bytes(opt_modifier)),
            ) {
                Some(e) => r == Err::<(), ContractError>(e) && final(self)@ == old(self)@,
                None => r is Ok && final(self)@ == modifier_added(
                    old(self)@,
                    ctx@,
                    identity_id,
                    key@,
                    chosen_modifier(ctx@, opt_bytes(opt_modifier)),
                ),
            },
    {
        if self.config.get_state() != State::Active {
            return Err(ContractError::NotActive);
        }
        if key.len() == 0 {
            return Err(ContractError::EmptyValue);
        }
        if self.config.identity_ref(identity_id).is_none() {
            return Err(ContractError::IdentityNotFound);
        }
        let modifier = match opt_modifier {
            Some(a) => a,
            None => crate::bytes::copy_bytes(&ctx.caller),
        };
        if self.config.key_modifiers_contains(identity_id, key, &modifier) {
            return Ok(());
        }
        let owner = caller_is_owner(ctx);
        let is_parent = match self.config.get_identity_by_address(&ctx.caller) {
            Some(p) => self.config.is_parent_of(p.id, identity_id),
            None => false,
        };
        if !owner && !is_parent {
            return Err(ContractError::NotAllowed);
        }
        if (!self.config.key_modifiers_empty(identity_id, key) || self.config.get_last_value_of_key(
            identity_id,
            key,
        ).is_some()) && !owner {
            return Err(ContractError::NotAllowed);
        }
        if !owner && !crate::bytes::bytes_eq(&ctx.caller, &modifier) {
            proof {
                crate::invariants::lemma_wf_insert_modifier(self@, identity_id, key@, ctx@.caller);
            }
            self.config.insert_modifier(identity_id, key, &ctx.caller);
        }
        proof {
            crate::invariants::lemma_wf_insert_modifier(self@, identity_id, key@, modifier@);
        }
        self.config.insert_modifier(identity_id, key, &modifier);
        Ok(())
    }

    /// Takes from an address its right to write under a key of an identity:
    /// the named one, or else the caller's own.
    pub fn remove_modifier(
        &mut self,
        ctx: &CallContext,
        identity_id: u64,
        key: &Vec<u8>,
        opt_modifier: Option<Vec<u8>>,
    ) -> (r: Result<(), ContractError>)
        requires
            old(self).inv(),
        ensures
            final(self).inv(),
            match remove_modifier_error(
                old(self)@,
                ctx@,
                identity_id,
                key@,
                chosen_modifier(ctx@, opt_bytes(opt_modifier)),
            ) {
                Some(e) => r == Err::<(), ContractError>(e) && final(self)@ == old(self)@,
                None => r is Ok && final(self)@ == modifier_removed(
                    old(self)@,
                    identity_id,
                    key@,
                    chosen_modifier(ctx@, opt_bytes(opt_modifier)),
                ),
            },
    {
        if self.config.get_state() != State::Active {
            return Err(ContractError::NotActive);
        }
        if self.config.identity_ref(identity_id).is_none() {
            return Err(ContractError::IdentityNotFound);
        }
        let modifier = match opt_modifier {
            Some(a) => a,
            None => crate::bytes::copy_bytes(&ctx.caller),
        };
        if !self.config.key_modifiers_contains(identity_id, key, &modifier) {
            return Ok(());
        }
        if !caller_is_owner(ctx) && !crate::bytes::bytes_eq(&ctx.caller, &modifier) {
            return Err(ContractError::NotAllowed);
        }
        proof {
            crate::invariants::lemma_wf_remove_modifier(self@, identity_id, key@, modifier@);
            assert(self@.stores[identity_id].drawers[key@].modifiers.no_duplicates());
        }
        self.config.remove_modifier(identity_id, key, &modifier);
        Ok(())
    }

    /// Adds a value under a key of an identity; returns its value id.
    pub fn add_identity_key_value(
        &mut self,
        ctx: &CallContext,
        identity_id: u64,
        key: Vec<u8>,
        value: Vec<u8>,
    ) -> (r: Result<u64, ContractError>)
        requires
            old(self).inv(),
        ensures
            final(self).inv(),
            match add_value_error(old(self)@, ctx@, identity_id, key@) {
                Some(e) => r == Err::<u64, ContractError>(e) && final(self)@ == old(self)@,
                None => r == Ok::<u64, ContractError>(old(self)@.last_key_id(identity_id, key@) as u64)
                    && final(self)@ == value_added(old(self)@, ctx@, identity_id, key@, value@),
            },
    {
        if self.config.get_state() != State::Active {
            return Err(ContractError::NotActive);
        }
        if self.config.identity_ref(identity_id).is_none() {
            return Err(ContractError::IdentityNotFound);
        }
        if !caller_is_owner(ctx) && !self.config.key_modifiers_contains(identity_id, &key, &ctx.caller) {
            return Err(ContractError::NotAllowed);
        }
        Ok(self.store_value(ctx, identity_id, key, value))
    }

    /// Stores a value under a key of an existing identity; returns its value id.
    fn store_value(&mut self, ctx: &CallContext, identity_id: u64, key: Vec<u8>, value: Vec<u8>) -> (r: u64)
        requires
            old(self).inv(),
            old(self)@.has_identity(identity_id),
        ensures
            final(self).inv(),
            r == old(self)@.last_key_id(identity_id, key@),
            final(self)@ == value_added(old(self)@, ctx@, identity_id, key@, value@),
    {
        let value_id = self.config.get_last_identity_key_id(identity_id, &key);
        let v = crate::types::Value {
            id: value_id,
            value,
            modifier: crate::bytes::copy_bytes(&ctx.caller),
            timestamp: ctx.timestamp,
        };
        proof {
            crate::invariants::lemma_wf_add_value(self@, identity_id, key@, v@);
        }
        self.config.add_value(identity_id, &key, v);
        value_id
    }

    /// Adds each value under its key, in order; refused as a whole if any is refused.
    pub fn add_identity_keys_values(
        &mut self,
        ctx: &CallContext,
        identity_id: u64,
        keys_values: Vec<(Vec<u8>, Vec<u8>)>,
    ) -> (r: Result<(), ContractError>)
        requires
            old(self).inv(),
        ensures
            final(self).inv(),
            match add_values_error(old(self)@, ctx@, identity_id, pairs_view(keys_values@)) {
                Some(e) => r == Err::<(), ContractError>(e) && final(self)@ == old(self)@,
                None => r is Ok && final(self)@ == values_added(
                    old(self)@,
                    ctx@,
                    identity_id,
                    pairs_view(keys_values@),
                ),
            },
    {
        let ghost m = self@;
        let ghost pairs = pairs_view(keys_values@);
        let ghost p = |q: (Seq<u8>, Seq<u8>)| add_value_error(m, ctx@, identity_id, q.0) is Some;
        let mut i: usize = 0;
        while i < keys_values.len()
            invariant
                self.inv(),
                self@ == m,
                i <= keys_values@.len(),
                pairs == pairs_view(keys_values@),
                p == (|q: (Seq<u8>, Seq<u8>)| add_value_error(m, ctx@, identity_id, q.0) is Some),
                crate::model::first_index(pairs, p, i as int) is None,
            decreases keys_values@.len() - i,
        {
            assert(pairs[i as int].0 == keys_values@[i as int].0@);
            let e = self.add_value_refusal(ctx, identity_id, &keys_values[i].0);
            match e {
                Some(err) => {
                    proof {
                        assert(p(pairs[i as int]));
                        assert(crate::model::first_index(pairs, p, i + 1) == Some(i as int));
                        crate::model::lemma_first_index_stable(pairs, p, i + 1, pairs.len() as int);
                    }
                    return Err(err);
                },
                None => {},
            }
            i = i + 1;
        }
        proof {
            crate::invariants::lemma_first_index_none(pairs, p, pairs.len() as int);
        }
        let mut j: usize = 0;
        while j < keys_values.len()
            invariant
                self.inv(),
                j <= keys_values@.len(),
                pairs == pairs_view(keys_values@),
                forall|a: int| 0 <= a < pairs.len() ==> add_value_error(m, ctx@, identity_id, (#[trigger] pairs[a]).0) is None,
                self@ == values_added(m, ctx@, identity_id, pairs.take(j as int)),
                self@.state == m.state,
                self@.identities == m.identities,
                forall|x: u64, k: Seq<u8>| #[trigger] self@.modifiers(x, k) == m.modifiers(x, k),
            decreases keys_values@.len() - j,
        {
            assert(pairs.take(j + 1).drop_last() =~= pairs.take(j as int));
            assert(pairs[j as int] == (keys_values@[j as int].0@, keys_values@[j as int].1@));
            assert(add_value_error(m, ctx@, identity_id, pairs[j as int].0) is None);
            let key = crate::bytes::copy_bytes(&keys_values[j].0);
            let value = crate::bytes::copy_bytes(&keys_values[j].1);
            let ghost before = self@;
            proof {
                crate::invariants::lemma_add_value_frame(
                    before,
                    identity_id,
                    key@,
                    new_value(before, ctx@, identity_id, key@, value@),
                );
            }
            self.store_value(ctx, identity_id, key, value);
            j = j + 1;
        }
        assert(pairs.take(j as int) =~= pairs);
        Ok(())
    }

    /// Why adding a value under the key would be refused, if it would.
    fn add_value_refusal(&self, ctx: &CallContext, identity_id: u64, key: &Vec<u8>) -> (r: Option<ContractError>)
        requires
            self.inv(),
        ensures
            r == add_value_error(self@, ctx@, identity_id, key@),
    {
        if self.config.get_state() != State::Active {
            return Some(ContractError::NotActive);
        }
        if self.config.identity_ref(identity_id).is_none() {
            return Some(ContractError::IdentityNotFound);
        }
        if !caller_is_owner(ctx) && !self.config.key_modifiers_contains(identity_id, key, &ctx.caller) {
            return Some(ContractError::NotAllowed);
        }
        None
    }

    /// Replaces the bytes of a value; its modifier stays and its timestamp
    /// becomes the time of the call.
    pub fn edit_identity_key_value(
        &mut self,
        ctx: &CallContext,
        identity_id: u64,
        key: Vec<u8>,
        value_id: u64,
        new_value: Vec<u8>,
    ) -> (r: Result<(), ContractError>)
        requires
            old(self).inv(),
        ensures
            final(self).inv(),
            match edit_value_error(old(self)@, ctx@, identity_id, key@, value_id) {
                Some(e) => r == Err::<(), ContractError>(e) && final(self)@ == old(self)@,
                None => r is Ok && final(self)@ == old(self)@.set_value(
                    identity_id,
                    key@,
                    value_id,
                    ValueModel {
                        id: value_id,
                        value: new_value@,
                        timestamp: ctx@.timestamp,
                        ..old(self)@.value(identity_id, key@, value_id)->0
                    },
                ),
            },
    {
        if self.config.get_state() != State::Active {
            return Err(ContractError::NotActive);
        }
        if self.config.identity_ref(identity_id).is_none() {
            return Err(ContractError::IdentityNotFound);
        }
        if !self.config.keys_contains(identity_id, &key) {
            return Err(ContractError::KeyNotFound);
        }
        let old_value = match self.config.get_identity_key_value(identity_id, &key, value_id) {
            Some(v) => v,
            None => {
                return Err(ContractError::ValueNotFound);
            },
        };
        let owner = caller_is_owner(ctx);
        if !owner && !crate::bytes::bytes_eq(&ctx.caller, &old_value.modifier) {
            return Err(ContractError::NotAllowed);
        }
        if !owner && !self.config.key_modifiers_contains(identity_id, &key, &ctx.caller) {
            return Err(ContractError::NotAllowed);
        }
        let v = crate::types::Value {
            id: value_id,
            value: new_value,
            modifier: old_value.modifier,
            timestamp: ctx.timestamp,
        };
        proof {
            crate::invariants::lemma_wf_set_value(self@, identity_id, key@, value_id, v@);
        }
        self.config.set_value(identity_id, &key, value_id, v);
        Ok(())
    }

    /// Removes a value from under a key of an identity.
    pub fn remove_identity_key_value(
        &mut self,
        ctx: &CallContext,
        identity_id: u64,
        key: Vec<u8>,
        value_id: u64,
    ) -> (r: Result<(), ContractError>)
        requires
            old(self).inv(),
        ensures
            final(self).inv(),
            match remove_value_error(old(self)@, ctx@, identity_id, key@, value_id) {
                Some(e) => r == Err::<(), ContractError>(e) && final(self)@ == old(self)@,
                None => r is Ok && final(self)@ == old(self)@.clear_value(identity_id, key@, value_id),
            },
    {
        if self.config.get_state() != State::Active {
            return Err(ContractError::NotActive);
        }
        let address = match self.config.identity_ref(identity_id) {
            Some(i) => crate::bytes::copy_bytes(&i.address),
            None => {
                return Err(ContractError::IdentityNotFound);
            },
        };
        if !self.config.keys_contains(identity_id, &key) {
            return Err(ContractError::KeyNotFound);
        }
        if self.config.get_identity_key_value(identity_id, &key, value_id).is_none() {
            return Err(ContractError::ValueNotFound);
        }
        let owner = caller_is_owner(ctx);
        if self.config.key_modifiers_empty(identity_id, &key) {
            if !owner && !crate::bytes::bytes_eq(&ctx.caller, &address) {
                return Err(ContractError::NotAllowed);
            }
        } else {
            if !owner && !self.config.key_modifiers_contains(identity_id, &key, &ctx.caller) {
                return Err(ContractError::NotAllowed);
            }
        }
        proof {
            crate::invariants::lemma_wf_clear_value(self@, identity_id, key@, value_id);
        }
        self.config.clear_value(identity_id, &key, value_id);
        Ok(())
    }
}
} // verus!
