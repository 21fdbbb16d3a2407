use tfn_digital_identity::{
    CallContext, ConfigModule, ContractError, Identity, State, TFNDigitalIdentityContract,
};

fn owner() -> Vec<u8> {
    vec![0xAA; 32]
}

fn addr(n: u8) -> Vec<u8> {
    vec![n; 32]
}

fn ctx_at(caller: &Vec<u8>, timestamp: u64) -> CallContext {
    CallContext { caller: caller.clone(), owner: owner(), timestamp }
}

fn ctx(caller: &Vec<u8>) -> CallContext {
    ctx_at(caller, 1000)
}

fn b(s: &str) -> Vec<u8> {
    s.as_bytes().to_vec()
}

fn register(c: &mut TFNDigitalIdentityContract, address: &Vec<u8>, legal_id: Vec<u8>) -> Result<u64, ContractError> {
    c.new_identity(
        &ctx(address),
        false,
        legal_id,
        946684800,
        address.clone(),
        b("name"),
        b("description"),
        b("https://image"),
        vec![b("phone"), b("mail")],
    )
}

/// A registry with a parent (id 0) linked to a child (id 1), the parent
/// allowed to write under "marks".
fn linked_pair() -> TFNDigitalIdentityContract {
    let mut c = TFNDigitalIdentityContract::init();
    assert_eq!(register(&mut c, &addr(1), vec![1]), Ok(0));
    assert_eq!(register(&mut c, &addr(2), vec![2]), Ok(1));
    let r = c.request_link(&ctx(&addr(1)), 0, 1, b("school"), Some(vec![b("marks")]));
    assert_eq!(r, Ok(0));
    assert_eq!(c.accept_link(&ctx(&addr(2)), 0), Ok(()));
    c
}

#[test]
fn init_is_active_and_empty() {
    let c = TFNDigitalIdentityContract::init();
    assert_eq!(c.config().get_state(), State::Active);
    assert_eq!(c.config().get_last_identity_id(), 0);
    assert_eq!(c.config().get_last_identity_link_id(), 0);
    assert_eq!(c.config().get_last_link_request_id(), 0);
    assert_eq!(c.config().get_last_unlink_request_id(), 0);
    assert!(c.config().get_identity(0).is_none());
}

#[test]
fn only_owner_sets_state() {
    let mut c = TFNDigitalIdentityContract::init();
    assert_eq!(c.set_state_inactive(&ctx(&addr(1))), Err(ContractError::OnlyOwner));
    assert_eq!(c.config().get_state(), State::Active);
    assert_eq!(c.set_state_inactive(&ctx(&owner())), Ok(()));
    assert_eq!(c.config().get_state(), State::Inactive);
    assert_eq!(c.set_state_active(&ctx(&addr(1))), Err(ContractError::OnlyOwner));
    assert_eq!(c.set_state_active(&ctx(&owner())), Ok(()));
    assert_eq!(c.config().get_state(), State::Active);
}

#[test]
fn inactive_registry_refuses_requests() {
    let mut c = linked_pair();
    assert_eq!(c.set_state_inactive(&ctx(&owner())), Ok(()));
    assert_eq!(register(&mut c, &addr(3), vec![3]), Err(ContractError::NotActive));
    assert_eq!(c.remove_identity(&ctx(&owner()), 0), Err(ContractError::NotActive));
    assert_eq!(c.request_unlink(&ctx(&addr(2)), 0, 1, b("bye")), Err(ContractError::NotActive));
    assert_eq!(
        c.add_identity_key_value(&ctx(&addr(1)), 1, b("marks"), b("10")),
        Err(ContractError::NotActive)
    );
    assert_eq!(c.config().get_last_identity_id(), 2);
}

#[test]
fn new_identities_get_sequential_ids() {
    let mut c = TFNDigitalIdentityContract::init();
    assert_eq!(register(&mut c, &addr(1), vec![7]), Ok(0));
    assert_eq!(register(&mut c, &addr(2), vec![8]), Ok(1));
    assert_eq!(c.config().get_last_identity_id(), 2);
    let i = c.config().get_identity(1).unwrap();
    assert_eq!(i.id, 1);
    assert_eq!(i.address, addr(2));
    assert_eq!(i.legal_id, vec![8]);
    assert_eq!(i.birthdate, 946684800);
    assert_eq!(i.image, b("https://image"));
    assert_eq!(i.contact, vec![b("phone"), b("mail")]);
    assert_eq!(c.config().get_identity_by_address(&addr(1)).unwrap().id, 0);
    assert_eq!(c.config().get_identity_by_legal_id(&vec![8]).unwrap().id, 1);
    assert!(c.config().get_identity_by_address(&addr(9)).is_none());
}

#[test]
fn registered_address_is_refused() {
    let mut c = TFNDigitalIdentityContract::init();
    assert_eq!(register(&mut c, &addr(1), vec![7]), Ok(0));
    assert_eq!(register(&mut c, &addr(1), vec![8]), Err(ContractError::WalletAlreadyRegistered));
    assert_eq!(c.config().get_last_identity_id(), 1);
}

#[test]
fn registered_legal_id_is_refused_by_its_value() {
    let mut c = TFNDigitalIdentityContract::init();
    assert_eq!(register(&mut c, &addr(1), vec![0x01, 0x02]), Ok(0));
    assert_eq!(
        register(&mut c, &addr(2), vec![0x00, 0x01, 0x02]),
        Err(ContractError::LegalIdAlreadyRegistered)
    );
    assert_eq!(c.config().get_identity_by_legal_id(&vec![0, 0, 1, 2]).unwrap().id, 0);
}

#[test]
fn legal_id_zero_is_never_taken() {
    let mut c = TFNDigitalIdentityContract::init();
    assert_eq!(register(&mut c, &addr(1), vec![]), Ok(0));
    assert_eq!(register(&mut c, &addr(2), vec![0]), Ok(1));
    assert!(c.config().get_identity_by_legal_id(&vec![]).is_none());
    assert!(c.config().get_identity_by_legal_id(&vec![0, 0]).is_none());
}

fn edited(id: u64, address: Vec<u8>) -> Identity {
    Identity {
        id,
        is_corporate: true,
        legal_id: vec![42],
        birthdate: 5,
        address,
        name: b("new name"),
        description: b("new description"),
        image: b("new image"),
        contact: vec![b("new contact")],
    }
}

#[test]
fn edit_identity_replaces_details() {
    let mut c = TFNDigitalIdentityContract::init();
    assert_eq!(register(&mut c, &addr(1), vec![1]), Ok(0));
    assert_eq!(c.edit_identity(&ctx(&addr(1)), edited(0, addr(5))), Ok(()));
    let i = c.config().get_identity(0).unwrap();
    assert_eq!(i.name, b("new name"));
    assert_eq!(i.legal_id, vec![42]);
    assert!(i.is_corporate);
    assert_eq!(i.address, addr(5));
    assert_eq!(c.config().get_identity_by_address(&addr(5)).unwrap().id, 0);
}

#[test]
fn edit_identity_refusals() {
    let mut c = TFNDigitalIdentityContract::init();
    assert_eq!(register(&mut c, &addr(1), vec![1]), Ok(0));
    assert_eq!(c.edit_identity(&ctx(&addr(9)), edited(0, addr(5))), Err(ContractError::NotAllowed));
    assert_eq!(c.edit_identity(&ctx(&owner()), edited(3, addr(5))), Err(ContractError::IdentityNotFound));
    assert_eq!(c.config().get_identity(0).unwrap().name, b("name"));
}

#[test]
fn linked_identity_keeps_its_address() {
    let mut c = linked_pair();
    assert_eq!(c.edit_identity(&ctx(&addr(2)), edited(1, addr(7))), Ok(()));
    let i = c.config().get_identity(1).unwrap();
    assert_eq!(i.address, addr(2));
    assert_eq!(i.name, b("new name"));
    assert_eq!(c.edit_identity(&ctx(&owner()), edited(1, addr(7))), Ok(()));
    assert_eq!(c.config().get_identity(1).unwrap().address, addr(2));
    assert!(c.config().get_identity_by_address(&addr(7)).is_none());
    assert_eq!(c.remove_identity_link(&ctx(&addr(1)), 0, 1), Ok(()));
    assert_eq!(c.edit_identity(&ctx(&owner()), edited(1, addr(7))), Ok(()));
    assert_eq!(c.config().get_identity(1).unwrap().address, addr(7));
}

#[test]
fn address_of_another_identity_is_not_taken_by_edit() {
    let mut c = TFNDigitalIdentityContract::init();
    assert_eq!(register(&mut c, &addr(1), vec![1]), Ok(0));
    assert_eq!(register(&mut c, &addr(2), vec![2]), Ok(1));
    assert_eq!(c.edit_identity(&ctx(&owner()), edited(1, addr(1))), Ok(()));
    assert_eq!(c.config().get_identity(1).unwrap().address, addr(2));
    assert_eq!(c.config().get_identity_by_address(&addr(1)).unwrap().id, 0);
}

#[test]
fn remove_identity_clears_keys_and_values() {
    let mut c = TFNDigitalIdentityContract::init();
    assert_eq!(register(&mut c, &addr(1), vec![1]), Ok(0));
    assert_eq!(register(&mut c, &addr(2), vec![2]), Ok(1));
    assert_eq!(c.add_identity_key_value(&ctx(&owner()), 1, b("job"), b("teacher")), Ok(0));
    assert_eq!(c.config().get_identity_keys(1), vec![b("job")]);
    assert_eq!(c.remove_identity(&ctx(&addr(9)), 1), Err(ContractError::NotAllowed));
    assert_eq!(c.remove_identity(&ctx(&addr(2)), 1), Ok(()));
    assert!(c.config().get_identity(1).is_none());
    assert_eq!(c.config().get_last_identity_id(), 1);
    assert!(c.config().get_identity_keys(1).is_empty());
    assert!(c.config().get_identity_key_value(1, &b("job"), 0).is_none());
    assert_eq!(c.config().get_last_identity_key_id(1, &b("job")), 0);
    assert_eq!(c.remove_identity(&ctx(&owner()), 1), Err(ContractError::IdentityNotFound));
}

#[test]
fn removing_a_middle_identity_keeps_the_last_id() {
    let mut c = TFNDigitalIdentityContract::init();
    assert_eq!(register(&mut c, &addr(1), vec![1]), Ok(0));
    assert_eq!(register(&mut c, &addr(2), vec![2]), Ok(1));
    assert_eq!(c.remove_identity(&ctx(&owner()), 0), Ok(()));
    assert_eq!(c.config().get_last_identity_id(), 2);
    assert_eq!(register(&mut c, &addr(3), vec![3]), Ok(2));
}

#[test]
fn linked_identity_cannot_be_removed() {
    let mut c = linked_pair();
    assert_eq!(c.remove_identity(&ctx(&owner()), 0), Err(ContractError::NotAllowed));
    assert_eq!(c.remove_identity(&ctx(&owner()), 1), Err(ContractError::NotAllowed));
    assert!(c.has_links(0));
    assert!(c.has_links(1));
}

#[test]
fn request_link_refusals() {
    let mut c = TFNDigitalIdentityContract::init();
    assert_eq!(register(&mut c, &addr(1), vec![1]), Ok(0));
    assert_eq!(register(&mut c, &addr(2), vec![2]), Ok(1));
    let p = ctx(&addr(1));
    assert_eq!(c.request_link(&p, 0, 0, b("self"), None), Err(ContractError::NotAllowed));
    assert_eq!(c.request_link(&p, 0, 1, vec![], None), Err(ContractError::EmptyValue));
    assert_eq!(c.request_link(&p, 0, 5, b("x"), None), Err(ContractError::IdentityNotFound));
    assert_eq!(c.request_link(&ctx(&addr(2)), 0, 1, b("x"), None), Err(ContractError::NotAllowed));
    assert_eq!(c.config().get_last_link_request_id(), 0);
}

#[test]
fn accepted_link_joins_parent_and_child() {
    let c = linked_pair();
    assert!(c.config().get_link_request(0).is_none());
    assert_eq!(c.config().get_last_link_request_id(), 0);
    let link = c.config().get_identity_link(0).unwrap();
    assert_eq!((link.id, link.parent_id, link.child_id), (0, 0, 1));
    assert_eq!(link.relation, b("school"));
    assert!(c.config().is_parent_of(0, 1));
    assert!(!c.config().is_parent_of(1, 0));
    assert_eq!(c.config().get_children_links(1), vec![0]);
    assert_eq!(c.config().get_parent_links(0), vec![0]);
    let children = c.config().get_children_identities(0);
    assert_eq!(children.len(), 1);
    assert_eq!(children[0].id, 1);
    let parents = c.config().get_parent_identities(1);
    assert_eq!(parents.len(), 1);
    assert_eq!(parents[0].id, 0);
    assert_eq!(c.config().get_identity_key_modifiers(1, &b("marks")), vec![addr(1)]);
    assert_eq!(c.config().get_link_by_ids(0, 1).unwrap().id, 0);
    assert!(c.config().get_link_by_ids(1, 0).is_none());
}

#[test]
fn only_the_child_or_owner_accepts_a_link() {
    let mut c = TFNDigitalIdentityContract::init();
    assert_eq!(register(&mut c, &addr(1), vec![1]), Ok(0));
    assert_eq!(register(&mut c, &addr(2), vec![2]), Ok(1));
    assert_eq!(c.request_link(&ctx(&addr(1)), 0, 1, b("school"), None), Ok(0));
    assert_eq!(c.accept_link(&ctx(&addr(1)), 0), Err(ContractError::NotAllowed));
    assert_eq!(c.accept_link(&ctx(&addr(2)), 3), Err(ContractError::RequestNotFound));
    assert!(!c.config().is_parent_of(0, 1));
    assert_eq!(c.accept_link(&ctx(&owner()), 0), Ok(()));
    assert!(c.config().is_parent_of(0, 1));
}

#[test]
fn delete_link_request() {
    let mut c = TFNDigitalIdentityContract::init();
    assert_eq!(register(&mut c, &addr(1), vec![1]), Ok(0));
    assert_eq!(register(&mut c, &addr(2), vec![2]), Ok(1));
    assert_eq!(c.request_link(&ctx(&addr(1)), 0, 1, b("school"), None), Ok(0));
    assert_eq!(c.delete_link_request(&ctx(&addr(9)), 0), Err(ContractError::NotAllowed));
    assert_eq!(c.delete_link_request(&ctx(&addr(1)), 0), Ok(()));
    assert!(c.config().get_link_request(0).is_none());
    assert_eq!(c.config().get_last_link_request_id(), 0);
    assert_eq!(c.delete_link_request(&ctx(&addr(1)), 0), Err(ContractError::RequestNotFound));
}

#[test]
fn key_held_by_another_parent_blocks_a_request() {
    let mut c = linked_pair();
    assert_eq!(register(&mut c, &addr(3), vec![3]), Ok(2));
    assert_eq!(
        c.request_link(&ctx(&addr(3)), 2, 1, b("club"), Some(vec![b("marks")])),
        Err(ContractError::NotAllowed)
    );
    assert_eq!(c.request_link(&ctx(&addr(3)), 2, 1, b("club"), Some(vec![b("sports")])), Ok(0));
}

#[test]
fn unlink_request_and_acceptance() {
    let mut c = linked_pair();
    assert_eq!(c.add_identity_key_value(&ctx(&addr(1)), 1, b("marks"), b("10")), Ok(0));
    assert_eq!(c.request_unlink(&ctx(&addr(2)), 1, 0, b("bye")), Err(ContractError::LinkNotFound));
    assert_eq!(c.request_unlink(&ctx(&addr(1)), 0, 1, b("bye")), Err(ContractError::NotAllowed));
    assert_eq!(c.request_unlink(&ctx(&addr(2)), 0, 1, b("bye")), Ok(0));
    let u = c.config().get_unlink_request(0).unwrap();
    assert_eq!((u.parent_id, u.child_id), (0, 1));
    assert_eq!(u.reason, b("bye"));
    assert_eq!(c.accept_unlink(&ctx(&addr(2)), 0), Err(ContractError::NotAllowed));
    assert_eq!(c.accept_unlink(&ctx(&addr(1)), 0), Ok(()));
    assert!(!c.config().is_parent_of(0, 1));
    assert!(c.config().get_identity_link(0).is_none());
    assert_eq!(c.config().get_last_identity_link_id(), 0);
    assert!(c.config().get_identity_key_modifiers(1, &b("marks")).is_empty());
    assert!(!c.has_links(0));
    assert!(c.config().get_unlink_request(0).is_none());
    assert_eq!(c.config().get_last_unlink_request_id(), 0);
    assert_eq!(c.accept_unlink(&ctx(&addr(1)), 0), Err(ContractError::RequestNotFound));
}

#[test]
fn delete_unlink_request() {
    let mut c = linked_pair();
    assert_eq!(c.request_unlink(&ctx(&addr(2)), 0, 1, b("bye")), Ok(0));
    assert_eq!(c.delete_unlink_request(&ctx(&addr(9)), 0), Err(ContractError::NotAllowed));
    assert_eq!(c.delete_unlink_request(&ctx(&addr(2)), 0), Ok(()));
    assert!(c.config().get_unlink_request(0).is_none());
    assert_eq!(c.delete_unlink_request(&ctx(&addr(2)), 0), Err(ContractError::RequestNotFound));
    assert!(c.config().is_parent_of(0, 1));
}

#[test]
fn parent_removes_link() {
    let mut c = linked_pair();
    assert_eq!(c.remove_identity_link(&ctx(&addr(2)), 0, 1), Err(ContractError::NotAllowed));
    assert_eq!(c.remove_identity_link(&ctx(&addr(1)), 1, 0), Err(ContractError::LinkNotFound));
    assert_eq!(c.remove_identity_link(&ctx(&addr(1)), 0, 1), Ok(()));
    assert!(!c.config().is_parent_of(0, 1));
    assert!(c.config().get_children_identities(0).is_empty());
    assert_eq!(c.remove_identity(&ctx(&owner()), 1), Ok(()));
}

#[test]
fn add_modifier_rules() {
    let mut c = linked_pair();
    assert_eq!(register(&mut c, &addr(3), vec![3]), Ok(2));
    assert_eq!(c.add_modifier(&ctx(&addr(1)), 1, &vec![], None), Err(ContractError::EmptyValue));
    assert_eq!(c.add_modifier(&ctx(&addr(3)), 1, &b("job"), None), Err(ContractError::NotAllowed));
    assert_eq!(c.add_modifier(&ctx(&addr(1)), 1, &b("job"), Some(addr(4))), Ok(()));
    assert_eq!(c.config().get_identity_key_modifiers(1, &b("job")), vec![addr(1), addr(4)]);
    assert_eq!(c.add_modifier(&ctx(&addr(1)), 1, &b("job"), Some(addr(5))), Err(ContractError::NotAllowed));
    assert_eq!(c.add_modifier(&ctx(&addr(1)), 1, &b("job"), Some(addr(4))), Ok(()));
    assert_eq!(c.add_modifier(&ctx(&owner()), 1, &b("job"), Some(addr(5))), Ok(()));
    assert_eq!(
        c.config().get_identity_key_modifiers(1, &b("job")),
        vec![addr(1), addr(4), addr(5)]
    );
    assert_eq!(c.add_modifier(&ctx(&addr(1)), 9, &b("job"), None), Err(ContractError::IdentityNotFound));
}

#[test]
fn remove_modifier_rules() {
    let mut c = linked_pair();
    assert_eq!(c.add_modifier(&ctx(&owner()), 1, &b("marks"), Some(addr(4))), Ok(()));
    assert_eq!(c.remove_modifier(&ctx(&addr(9)), 1, &b("marks"), Some(addr(4))), Err(ContractError::NotAllowed));
    assert_eq!(c.remove_modifier(&ctx(&addr(9)), 1, &b("marks"), None), Ok(()));
    assert_eq!(c.remove_modifier(&ctx(&addr(1)), 1, &b("marks"), None), Ok(()));
    assert_eq!(c.config().get_identity_key_modifiers(1, &b("marks")), vec![addr(4)]);
    assert_eq!(c.remove_modifier(&ctx(&owner()), 1, &b("marks"), Some(addr(4))), Ok(()));
    assert!(c.config().get_identity_key_modifiers(1, &b("marks")).is_empty());
}

#[test]
fn values_under_a_key() {
    let mut c = linked_pair();
    let p = ctx_at(&addr(1), 77);
    assert_eq!(c.add_identity_key_value(&p, 1, b("marks"), b("9")), Ok(0));
    assert_eq!(c.add_identity_key_value(&p, 1, b("marks"), b("10")), Ok(1));
    assert_eq!(c.add_identity_key_value(&ctx(&addr(2)), 1, b("marks"), b("10")), Err(ContractError::NotAllowed));
    assert_eq!(c.add_identity_key_value(&ctx(&owner()), 1, b("marks"), b("8")), Ok(2));
    assert_eq!(c.config().get_last_identity_key_id(1, &b("marks")), 3);
    assert_eq!(c.config().get_identity_keys(1), vec![b("marks")]);
    let v = c.config().get_identity_key_value(1, &b("marks"), 1).unwrap();
    assert_eq!((v.id, v.timestamp), (1, 77));
    assert_eq!(v.value, b("10"));
    assert_eq!(v.modifier, addr(1));
    let all = c.config().get_identity_key_values(1, &b("marks"));
    let got: Vec<Vec<u8>> = all.iter().map(|v| v.value.clone()).collect();
    assert_eq!(got, vec![b("9"), b("10"), b("8")]);
}

#[test]
fn several_values_are_added_all_or_nothing() {
    let mut c = linked_pair();
    let p = ctx(&addr(1));
    let refused = c.add_identity_keys_values(&p, 1, vec![(b("marks"), b("9")), (b("job"), b("x"))]);
    assert_eq!(refused, Err(ContractError::NotAllowed));
    assert_eq!(c.config().get_last_identity_key_id(1, &b("marks")), 0);
    assert_eq!(c.add_identity_keys_values(&p, 1, vec![(b("marks"), b("9")), (b("marks"), b("7"))]), Ok(()));
    assert_eq!(c.config().get_last_identity_key_id(1, &b("marks")), 2);
    assert_eq!(c.config().get_identity_key_value(1, &b("marks"), 1).unwrap().value, b("7"));
    assert_eq!(c.add_identity_keys_values(&p, 9, vec![]), Ok(()));
}

#[test]
fn edit_value_keeps_author_and_records_time() {
    let mut c = linked_pair();
    assert_eq!(c.add_identity_key_value(&ctx_at(&addr(1), 5), 1, b("marks"), b("9")), Ok(0));
    assert_eq!(
        c.edit_identity_key_value(&ctx_at(&addr(1), 9), 1, b("marks"), 0, b("10")),
        Ok(())
    );
    let v = c.config().get_identity_key_value(1, &b("marks"), 0).unwrap();
    assert_eq!(v.value, b("10"));
    assert_eq!(v.timestamp, 9);
    assert_eq!(v.modifier, addr(1));
    assert_eq!(c.edit_identity_key_value(&ctx(&addr(1)), 1, b("job"), 0, b("x")), Err(ContractError::KeyNotFound));
    assert_eq!(c.edit_identity_key_value(&ctx(&addr(1)), 1, b("marks"), 4, b("x")), Err(ContractError::ValueNotFound));
    assert_eq!(c.edit_identity_key_value(&ctx(&addr(2)), 1, b("marks"), 0, b("x")), Err(ContractError::NotAllowed));
    assert_eq!(c.edit_identity_key_value(&ctx(&owner()), 1, b("marks"), 0, b("11")), Ok(()));
    let v = c.config().get_identity_key_value(1, &b("marks"), 0).unwrap();
    assert_eq!(v.modifier, addr(1));
    assert_eq!(v.timestamp, 1000);
    assert_eq!(v.value, b("11"));
}

#[test]
fn remove_value_rules() {
    let mut c = linked_pair();
    let p = ctx(&addr(1));
    assert_eq!(c.add_identity_key_value(&p, 1, b("marks"), b("9")), Ok(0));
    assert_eq!(c.add_identity_key_value(&p, 1, b("marks"), b("10")), Ok(1));
    assert_eq!(c.remove_identity_key_value(&ctx(&addr(2)), 1, b("marks"), 1), Err(ContractError::NotAllowed));
    assert_eq!(c.remove_identity_key_value(&p, 1, b("marks"), 1), Ok(()));
    assert_eq!(c.config().get_last_identity_key_id(1, &b("marks")), 1);
    assert_eq!(c.remove_identity_key_value(&p, 1, b("marks"), 1), Err(ContractError::ValueNotFound));
    assert_eq!(c.remove_modifier(&p, 1, &b("marks"), None), Ok(()));
    assert_eq!(c.remove_identity_key_value(&ctx(&addr(2)), 1, b("marks"), 0), Ok(()));
    assert!(c.config().get_identity_key_values(1, &b("marks")).is_empty());
}

#[test]
fn only_owner_or_wallet() {
    let mut c = TFNDigitalIdentityContract::init();
    assert_eq!(register(&mut c, &addr(1), vec![1]), Ok(0));
    assert_eq!(c.only_owner_or_wallet(&ctx(&addr(1)), 0), Ok(()));
    assert_eq!(c.only_owner_or_wallet(&ctx(&owner()), 0), Ok(()));
    assert_eq!(c.only_owner_or_wallet(&ctx(&addr(2)), 0), Err(ContractError::NotAllowed));
    assert_eq!(c.only_owner_or_wallet(&ctx(&addr(1)), 1), Err(ContractError::IdentityNotFound));
}

#[test]
fn upgrade_changes_nothing() {
    let mut c = linked_pair();
    c.upgrade();
    assert!(c.config().is_parent_of(0, 1));
    assert_eq!(c.config().get_last_identity_id(), 2);
}

#[test]
fn last_value_of_key() {
    let mut c = linked_pair();
    let p = ctx(&addr(1));
    assert!(c.config().get_last_value_of_key(1, &b("marks")).is_none());
    assert_eq!(c.add_identity_key_value(&p, 1, b("marks"), b("9")), Ok(0));
    assert_eq!(c.add_identity_key_value(&p, 1, b("marks"), b("10")), Ok(1));
    assert_eq!(c.config().get_last_value_of_key(1, &b("marks")).unwrap().value, b("10"));
    assert_eq!(c.remove_identity_key_value(&p, 1, b("marks"), 1), Ok(()));
    assert_eq!(c.config().get_last_value_of_key(1, &b("marks")).unwrap().value, b("9"));
}

#[test]
fn children_with_same_last_value() {
    // A school (0) employs three people (1, 2, 3) under a "job" key.
    let mut c = TFNDigitalIdentityContract::init();
    for n in 1..5u8 {
        assert_eq!(register(&mut c, &addr(n), vec![n]), Ok((n - 1) as u64));
    }
    for child in 1..4u64 {
        let relation = if child == 3 { b("contractor") } else { b("employee") };
        let r = c.request_link(&ctx(&addr(1)), 0, child, relation, Some(vec![b("job")]));
        assert_eq!(r, Ok(0));
        assert_eq!(c.accept_link(&ctx(&owner()), 0), Ok(()));
    }
    let s = ctx(&addr(1));
    assert_eq!(c.add_identity_key_value(&s, 1, b("job"), b("teacher")), Ok(0));
    assert_eq!(c.add_identity_key_value(&s, 2, b("job"), b("teacher")), Ok(0));
    assert_eq!(c.add_identity_key_value(&s, 2, b("job"), b("janitor")), Ok(1));
    assert_eq!(c.add_identity_key_value(&s, 3, b("job"), b("teacher")), Ok(0));
    let teachers = c.config().get_children_with_same_last_value(0, &b("job"), &b("teacher"), None);
    let ids: Vec<u64> = teachers.iter().map(|i| i.id).collect();
    assert_eq!(ids, vec![1, 3]);
    let employed = c.config().get_children_with_same_last_value(
        0,
        &b("job"),
        &b("teacher"),
        Some(b("employee")),
    );
    let ids: Vec<u64> = employed.iter().map(|i| i.id).collect();
    assert_eq!(ids, vec![1]);
}

#[test]
fn multiple_identities_skip_missing_ids() {
    let mut c = TFNDigitalIdentityContract::init();
    assert_eq!(register(&mut c, &addr(1), vec![1]), Ok(0));
    assert_eq!(register(&mut c, &addr(2), vec![2]), Ok(1));
    let got = c.config().get_multiple_identities(&vec![1, 7, 0, 1]);
    let ids: Vec<u64> = got.iter().map(|i| i.id).collect();
    assert_eq!(ids, vec![1, 0, 1]);
}

#[test]
fn requests_by_parent_and_child() {
    let mut c = TFNDigitalIdentityContract::init();
    for n in 1..4u8 {
        assert_eq!(register(&mut c, &addr(n), vec![n]), Ok((n - 1) as u64));
    }
    assert_eq!(c.request_link(&ctx(&addr(1)), 0, 1, b("a"), None), Ok(0));
    assert_eq!(c.request_link(&ctx(&addr(1)), 0, 2, b("b"), None), Ok(1));
    assert_eq!(c.request_link(&ctx(&addr(3)), 2, 1, b("c"), None), Ok(2));
    let by_parent: Vec<u64> = c.config().get_link_requests_by_parent(0).iter().map(|r| r.id).collect();
    assert_eq!(by_parent, vec![0, 1]);
    let by_child: Vec<u64> = c.config().get_link_requests_by_child(1).iter().map(|r| r.id).collect();
    assert_eq!(by_child, vec![0, 2]);
    assert_eq!(c.accept_link(&ctx(&addr(2)), 0), Ok(()));
    assert_eq!(c.accept_link(&ctx(&addr(3)), 1), Ok(()));
    assert_eq!(c.request_unlink(&ctx(&addr(2)), 0, 1, b("bye")), Ok(0));
    assert_eq!(c.request_unlink(&ctx(&addr(3)), 0, 2, b("bye")), Ok(1));
    let to_parent: Vec<u64> = c.config().get_unlink_requests_by_parent(0).iter().map(|r| r.id).collect();
    assert_eq!(to_parent, vec![0, 1]);
    let of_child: Vec<u64> = c.config().get_unlink_requests_by_child(2).iter().map(|r| r.id).collect();
    assert_eq!(of_child, vec![1]);
}

#[test]
fn linked_identities_of_both_ends() {
    let mut c = linked_pair();
    assert_eq!(register(&mut c, &addr(3), vec![3]), Ok(2));
    assert_eq!(c.request_link(&ctx(&addr(2)), 1, 2, b("mentor"), None), Ok(0));
    assert_eq!(c.accept_link(&ctx(&addr(3)), 0), Ok(()));
    let linked = c.config().get_linked_identities(1);
    let got: Vec<(u64, u64)> = linked.iter().map(|(i, l)| (i.id, l.id)).collect();
    assert_eq!(got, vec![(2, 1), (0, 0)]);
    assert!(c.config().is_child_of_parent(1, 0));
    assert!(c.config().is_child_of_parent(2, 1));
    assert!(!c.config().is_child_of_parent(0, 1));
}

#[test]
fn accepted_request_is_settled() {
    let mut c = linked_pair();
    assert_eq!(c.accept_link(&ctx(&addr(2)), 0), Err(ContractError::RequestNotFound));
    assert_eq!(c.delete_link_request(&ctx(&addr(2)), 0), Err(ContractError::RequestNotFound));
    assert_eq!(c.config().get_last_identity_link_id(), 1);
    assert_eq!(c.config().get_children_links(1), vec![0]);
}

#[test]
fn a_second_request_links_the_pair_twice() {
    let mut c = linked_pair();
    assert_eq!(c.request_link(&ctx(&addr(1)), 0, 1, b("school"), None), Ok(0));
    assert_eq!(c.accept_link(&ctx(&addr(2)), 0), Ok(()));
    assert_eq!(c.config().get_last_identity_link_id(), 2);
    assert_eq!(c.config().get_children_links(1), vec![0, 1]);
    assert_eq!(c.remove_identity_link(&ctx(&addr(1)), 0, 1), Ok(()));
    assert_eq!(c.config().get_children_links(1), vec![1]);
    assert!(c.config().is_parent_of(0, 1));
}

#[test]
fn keys_of_a_parent_delegate_or_owner_grant_do_not_block_a_request() {
    let mut c = linked_pair();
    assert_eq!(register(&mut c, &addr(3), vec![3]), Ok(2));
    // The parent's own delegate and an address the owner empowered.
    assert_eq!(c.add_modifier(&ctx(&addr(1)), 1, &b("job"), Some(addr(4))), Ok(()));
    assert_eq!(c.add_modifier(&ctx(&owner()), 1, &b("hobby"), Some(addr(5))), Ok(()));
    assert_eq!(
        c.request_link(&ctx(&addr(1)), 0, 1, b("school"), Some(vec![b("job"), b("hobby")])),
        Ok(0)
    );
    assert_eq!(
        c.request_link(&ctx(&addr(3)), 2, 1, b("club"), Some(vec![b("hobby")])),
        Ok(1)
    );
    // "job" may be written by the first parent itself.
    assert_eq!(
        c.request_link(&ctx(&addr(3)), 2, 1, b("club"), Some(vec![b("job")])),
        Err(ContractError::NotAllowed)
    );
}

#[test]
fn only_the_parent_requests_a_link_and_only_the_child_an_unlink() {
    let mut c = linked_pair();
    assert_eq!(register(&mut c, &addr(3), vec![3]), Ok(2));
    assert_eq!(c.request_link(&ctx(&owner()), 2, 1, b("club"), None), Err(ContractError::NotAllowed));
    assert_eq!(c.request_unlink(&ctx(&owner()), 0, 1, b("bye")), Err(ContractError::NotAllowed));
    assert_eq!(c.config().get_last_link_request_id(), 0);
    assert_eq!(c.config().get_last_unlink_request_id(), 0);
}

#[test]
fn a_key_holding_values_gets_no_new_modifier_from_a_parent() {
    let mut c = linked_pair();
    assert_eq!(c.add_identity_key_value(&ctx(&owner()), 1, b("job"), b("teacher")), Ok(0));
    assert!(c.config().get_identity_key_modifiers(1, &b("job")).is_empty());
    assert_eq!(c.add_modifier(&ctx(&addr(1)), 1, &b("job"), None), Err(ContractError::NotAllowed));
    assert!(c.config().get_identity_key_modifiers(1, &b("job")).is_empty());
    assert_eq!(c.add_modifier(&ctx(&owner()), 1, &b("job"), Some(addr(1))), Ok(()));
    assert_eq!(c.config().get_identity_key_modifiers(1, &b("job")), vec![addr(1)]);
}

#[test]
fn unlinking_revokes_keys_that_never_held_a_value() {
    let mut c = linked_pair();
    assert_eq!(c.add_modifier(&ctx(&addr(1)), 1, &b("job"), None), Ok(()));
    assert_eq!(c.config().get_identity_key_modifiers(1, &b("job")), vec![addr(1)]);
    assert!(c.config().get_identity_keys(1).is_empty());
    assert_eq!(c.request_unlink(&ctx(&addr(2)), 0, 1, b("bye")), Ok(0));
    assert_eq!(c.accept_unlink(&ctx(&addr(1)), 0), Ok(()));
    assert!(c.config().get_identity_key_modifiers(1, &b("job")).is_empty());
    assert!(c.config().get_identity_key_modifiers(1, &b("marks")).is_empty());
}

#[test]
fn removed_identity_leaves_no_modifiers_to_a_later_identity() {
    let mut c = TFNDigitalIdentityContract::init();
    assert_eq!(register(&mut c, &addr(1), vec![1]), Ok(0));
    assert_eq!(c.add_modifier(&ctx(&owner()), 0, &b("job"), Some(addr(4))), Ok(()));
    assert_eq!(c.config().get_identity_key_modifiers(0, &b("job")), vec![addr(4)]);
    assert_eq!(c.remove_identity(&ctx(&addr(1)), 0), Ok(()));
    assert!(c.config().get_identity_key_modifiers(0, &b("job")).is_empty());
    assert_eq!(c.config().get_last_identity_id(), 0);
    assert_eq!(register(&mut c, &addr(2), vec![2]), Ok(0));
    assert!(c.config().get_identity_key_modifiers(0, &b("job")).is_empty());
    assert_eq!(c.add_identity_key_value(&ctx(&addr(4)), 0, b("job"), b("x")), Err(ContractError::NotAllowed));
}

#[test]
fn strangers_cannot_delete_requests_of_removed_identities() {
    let mut c = TFNDigitalIdentityContract::init();
    assert_eq!(register(&mut c, &addr(1), vec![1]), Ok(0));
    assert_eq!(register(&mut c, &addr(2), vec![2]), Ok(1));
    assert_eq!(c.request_link(&ctx(&addr(1)), 0, 1, b("school"), None), Ok(0));
    assert_eq!(c.request_link(&ctx(&addr(1)), 0, 1, b("school"), None), Ok(1));
    assert_eq!(c.remove_identity(&ctx(&addr(1)), 0), Ok(()));
    assert_eq!(c.delete_link_request(&ctx(&addr(9)), 0), Err(ContractError::NotAllowed));
    assert_eq!(c.delete_link_request(&ctx(&addr(1)), 0), Err(ContractError::NotAllowed));
    assert!(c.config().get_link_request(0).is_some());
    assert_eq!(c.delete_link_request(&ctx(&addr(2)), 0), Ok(()));
    assert_eq!(c.delete_link_request(&ctx(&owner()), 1), Ok(()));
}

#[test]
fn strangers_cannot_delete_unlink_requests() {
    let mut c = linked_pair();
    assert_eq!(c.request_unlink(&ctx(&addr(2)), 0, 1, b("bye")), Ok(0));
    assert_eq!(c.delete_unlink_request(&ctx(&addr(9)), 0), Err(ContractError::NotAllowed));
    assert_eq!(c.delete_unlink_request(&ctx(&addr(1)), 0), Ok(()));
    assert_eq!(c.request_unlink(&ctx(&addr(2)), 0, 1, b("bye")), Ok(0));
    assert_eq!(c.delete_unlink_request(&ctx(&owner()), 0), Ok(()));
    assert!(c.config().get_unlink_request(0).is_none());
}

#[test]
fn acceptance_is_refused_for_a_key_another_parent_took_meanwhile() {
    let mut c = linked_pair();
    assert_eq!(register(&mut c, &addr(3), vec![3]), Ok(2));
    // A second parent asks for "job" while nobody holds it.
    assert_eq!(c.request_link(&ctx(&addr(3)), 2, 1, b("club"), Some(vec![b("job")])), Ok(0));
    // The first parent claims "job" before the child accepts.
    assert_eq!(c.add_modifier(&ctx(&addr(1)), 1, &b("job"), None), Ok(()));
    assert_eq!(c.accept_link(&ctx(&addr(2)), 0), Err(ContractError::NotAllowed));
    assert!(!c.config().is_parent_of(2, 1));
    assert_eq!(c.config().get_identity_key_modifiers(1, &b("job")), vec![addr(1)]);
    assert!(c.config().get_link_request(0).is_some());
    // Once the first parent lets go of the key, the request can be accepted.
    assert_eq!(c.remove_modifier(&ctx(&addr(1)), 1, &b("job"), None), Ok(()));
    assert_eq!(c.accept_link(&ctx(&addr(2)), 0), Ok(()));
    assert_eq!(c.config().get_identity_key_modifiers(1, &b("job")), vec![addr(3)]);
}

#[test]
fn storage_state_switches_only_for_the_owner() {
    let mut cfg = ConfigModule::new();
    assert_eq!(cfg.get_state(), State::Inactive);
    assert_eq!(cfg.set_state_active(&ctx(&addr(1))), Err(ContractError::OnlyOwner));
    assert_eq!(cfg.get_state(), State::Inactive);
    assert_eq!(cfg.set_state_active(&ctx(&owner())), Ok(()));
    assert_eq!(cfg.get_state(), State::Active);
    assert_eq!(cfg.set_state_inactive(&ctx(&addr(1))), Err(ContractError::OnlyOwner));
    assert_eq!(cfg.set_state_inactive(&ctx(&owner())), Ok(()));
    assert_eq!(cfg.get_state(), State::Inactive);
}
