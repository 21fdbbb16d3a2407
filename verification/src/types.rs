use vstd::prelude::*;

use crate::bytes::{bytes_list_view, copy_bytes, copy_bytes_list};

verus! {

/// Whether the registry accepts requests.
#[derive(PartialEq, Eq, Structural, Clone, Copy, Debug)]
pub enum State {
    Inactive,
    Active,
}

/// Why a request was refused. A refused request changes nothing.
#[derive(PartialEq, Eq, Structural, Clone, Copy, Debug)]
pub enum ContractError {
    /// The registry is inactive.
    NotActive,
    /// The address is already the address of an identity.
    WalletAlreadyRegistered,
    /// The legal id is already the legal id of an identity.
    LegalIdAlreadyRegistered,
    /// The caller may not do this.
    NotAllowed,
    /// A value that must not be empty is empty.
    EmptyValue,
    /// No identity has this id.
    IdentityNotFound,
    /// No request has this id.
    RequestNotFound,
    /// The two identities are not linked.
    LinkNotFound,
    /// The identity has no such storage key.
    KeyNotFound,
    /// No value has this id under the key.
    ValueNotFound,
    /// Only the owner of the registry may do this.
    OnlyOwner,
}

/// Who calls, who owns the registry, and when.
pub struct CallContext {
    /// The address of the caller.
    pub caller: Vec<u8>,
    /// The address of the owner of the registry.
    pub owner: Vec<u8>,
    /// The time of the call.
    pub timestamp: u64,
}

/// The abstract contents of a [`CallContext`].
#[verifier::ext_equal]
pub struct CallModel {
    pub caller: Seq<u8>,
    pub owner: Seq<u8>,
    pub timestamp: u64,
}

impl View for CallContext {
    type V = CallModel;

    open spec fn view(&self) -> CallModel {
        CallModel { caller: self.caller@, owner: self.owner@, timestamp: self.timestamp }
    }
}

/// An entity's personal details and contacts.
pub struct Identity {
    pub id: u64,
    pub is_corporate: bool,
    /// The legal id (a VAT number, an ID card number) as big-endian bytes.
    pub legal_id: Vec<u8>,
    pub birthdate: u64,
    pub address: Vec<u8>,
    pub name: Vec<u8>,
    pub description: Vec<u8>,
    /// A link to a logo or an image card.
    pub image: Vec<u8>,
    /// Phone, e-mail and other contacts.
    pub contact: Vec<Vec<u8>>,
}

/// The abstract contents of an [`Identity`].
#[verifier::ext_equal]
pub struct IdentityModel {
    pub id: u64,
    pub is_corporate: bool,
    pub legal_id: Seq<u8>,
    pub birthdate: u64,
    pub address: Seq<u8>,
    pub name: Seq<u8>,
    pub description: Seq<u8>,
    pub image: Seq<u8>,
    pub contact: Seq<Seq<u8>>,
}

impl View for Identity {
    type V = IdentityModel;

    open spec fn view(&self) -> IdentityModel {
        IdentityModel {
            id: self.id,
            is_corporate: self.is_corporate,
            legal_id: self.legal_id@,
            birthdate: self.birthdate,
            address: self.address@,
            name: self.name@,
            description: self.description@,
            image: self.image@,
            contact: bytes_list_view(self.contact@),
        }
    }
}

impl Identity {
    /// A copy of this identity.
    pub fn duplicate(&self) -> (r: Identity)
        ensures
            r@ == self@,
    {
        Identity {
            id: self.id,
            is_corporate: self.is_corporate,
            legal_id: copy_bytes(&self.legal_id),
            birthdate: self.birthdate,
            address: copy_bytes(&self.address),
            name: copy_bytes(&self.name),
            description: copy_bytes(&self.description),
            image: copy_bytes(&self.image),
            contact: copy_bytes_list(&self.contact),
        }
    }
}

/// A value stored under a key of an identity.
pub struct Value {
    pub id: u64,
    pub value: Vec<u8>,
    /// Who added the value.
    pub modifier: Vec<u8>,
    /// When the value was added.
    pub timestamp: u64,
}

/// The abstract contents of a [`Value`].
#[verifier::ext_equal]
pub struct ValueModel {
    pub id: u64,
    pub value: Seq<u8>,
    pub modifier: Seq<u8>,
    pub timestamp: u64,
}

impl View for Value {
    type V = ValueModel;

    open spec fn view(&self) -> ValueModel {
        ValueModel {
            id: self.id,
            value: self.value@,
            modifier: self.modifier@,
            timestamp: self.timestamp,
        }
    }
}

impl Value {
    /// A copy of this value.
    pub fn duplicate(&self) -> (r: Value)
        ensures
            r@ == self@,
    {
        Value {
            id: self.id,
            value: copy_bytes(&self.value),
            modifier: copy_bytes(&self.modifier),
            timestamp: self.timestamp,
        }
    }
}

/// A parent-child link between two identities.
pub struct IdentityLink {
    pub id: u64,
    pub child_id: u64,
    pub parent_id: u64,
    pub relation: Vec<u8>,
}

/// The abstract contents of an [`IdentityLink`].
#[verifier::ext_equal]
pub struct LinkModel {
    pub id: u64,
    pub child_id: u64,
    pub parent_id: u64,
    pub relation: Seq<u8>,
}

impl View for IdentityLink {
    type V = LinkModel;

    open spec fn view(&self) -> LinkModel {
        LinkModel {
            id: self.id,
            child_id: self.child_id,
            parent_id: self.parent_id,
            relation: self.relation@,
        }
    }
}

impl IdentityLink {
    /// A copy of this link.
    pub fn duplicate(&self) -> (r: IdentityLink)
        ensures
            r@ == self@,
    {
        IdentityLink {
            id: self.id,
            child_id: self.child_id,
            parent_id: self.parent_id,
            relation: copy_bytes(&self.relation),
        }
    }
}

/// A parent's request to link to a child, with the keys it means to write.
pub struct LinkRequest {
    pub id: u64,
    pub parent_id: u64,
    pub child_id: u64,
    pub relation: Vec<u8>,
    pub keys: Vec<Vec<u8>>,
}

/// The abstract contents of a [`LinkRequest`].
#[verifier::ext_equal]
pub struct LinkRequestModel {
    pub id: u64,
    pub parent_id: u64,
    pub child_id: u64,
    pub relation: Seq<u8>,
    pub keys: Seq<Seq<u8>>,
}

impl View for LinkRequest {
    type V = LinkRequestModel;

    open spec fn view(&self) -> LinkRequestModel {
        LinkRequestModel {
            id: self.id,
            parent_id: self.parent_id,
            child_id: self.child_id,
            relation: self.relation@,
            keys: bytes_list_view(self.keys@),
        }
    }
}

impl LinkRequest {
    /// A copy of this request.
    pub fn duplicate(&self) -> (r: LinkRequest)
        ensures
            r@ == self@,
    {
        LinkRequest {
            id: self.id,
            parent_id: self.parent_id,
            child_id: self.child_id,
            relation: copy_bytes(&self.relation),
            keys: copy_bytes_list(&self.keys),
        }
    }
}

/// A child's request to break its link with a parent.
pub struct UnlinkRequest {
    pub id: u64,
    pub parent_id: u64,
    pub child_id: u64,
    pub reason: Vec<u8>,
}

/// The abstract contents of an [`UnlinkRequest`].
#[verifier::ext_equal]
pub struct UnlinkRequestModel {
    pub id: u64,
    pub parent_id: u64,
    pub child_id: u64,
    pub reason: Seq<u8>,
}

impl View for UnlinkRequest {
    type V = UnlinkRequestModel;

    open spec fn view(&self) -> UnlinkRequestModel {
        UnlinkRequestModel {
            id: self.id,
            parent_id: self.parent_id,
            child_id: self.child_id,
            reason: self.reason@,
        }
    }
}

impl UnlinkRequest {
    /// A copy of this request.
    pub fn duplicate(&self) -> (r: UnlinkRequest)
        ensures
            r@ == self@,
    {
        UnlinkRequest {
            id: self.id,
            parent_id: self.parent_id,
            child_id: self.child_id,
            reason: copy_bytes(&self.reason),
        }
    }
}

} // verus!
