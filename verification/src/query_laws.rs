use vstd::prelude::*;

use crate::bytes::{is_zero_number, same_number};
use crate::model::{first_index, has_legal_id, present, RegistryModel};
use crate::types::{IdentityModel, LinkRequestModel, UnlinkRequestModel};

verus! {

// What each lookup of the registry returns, stated over its contents.

/// Filtering with a map keeps exactly the elements that map to something.
pub proof fn lemma_filter_map_has<A, B>(s: Seq<A>, f: spec_fn(A) -> Option<B>, b: B)
    ensures
        s.filter_map(f).contains(b) <==> exists|t: A| #[trigger] s.contains(t) && f(t) == Some(b),
    decreases s.len(),
{
    if s.filter_map(f).contains(b) {
        s.lemma_filter_map_contains(f, b);
    }
    if exists|t: A| #[trigger] s.contains(t) && f(t) == Some(b) {
        let t = choose|t: A| #[trigger] s.contains(t) && f(t) == Some(b);
        lemma_filter_map_keeps(s, f, t, b);
    }
}

/// Filtering with a map keeps every element that maps to something.
pub proof fn lemma_filter_map_keeps<A, B>(s: Seq<A>, f: spec_fn(A) -> Option<B>, t: A, b: B)
    requires
        s.contains(t),
        f(t) == Some(b),
    ensures
        s.filter_map(f).contains(b),
    decreases s.len(),
{
    let rest = s.drop_last();
    if s.last() == t {
        let r = rest.filter_map(f) + seq![b];
        assert(s.filter_map(f) == r);
        assert(r[r.len() - 1] == b);
    } else {
        let j = choose|j: int| 0 <= j < s.len() && s[j] == t;
        assert(rest[j] == t);
        lemma_filter_map_keeps(rest, f, t, b);
        let k = choose|k: int| 0 <= k < rest.filter_map(f).len() && rest.filter_map(f)[k] == b;
        match f(s.last()) {
            Some(x) => {
                assert(s.filter_map(f)[k] == b);
            },
            None => {},
        }
    }
}

/// The identity found by an address is the identity holding it; none is
/// found exactly when no identity holds it.
pub proof fn law_identity_by_address_exact(m: RegistryModel, address: Seq<u8>, other: u64)
    requires
        m.wf(),
    ensures
        m.identity_by_address(address) is Some ==> ({
            let i = m.identity_by_address(address)->0;
            m.identity(i.id) == Some(i) && i.address == address
        }),
        m.identity_by_address(address) is None && m.has_identity(other) ==> m.identity(other)->0.address
            != address,
{
    if m.identity_by_address(address) is Some {
        crate::invariants::lemma_identity_by_address_found(m, address);
    }
    if m.identity_by_address(address) is None && m.has_identity(other) {
        crate::invariants::lemma_address_free(m, address);
        assert(m.identities[other as int] is Some);
    }
}

/// The identity found by a legal id has that legal id as a number (leading
/// zero bytes aside), and legal id zero finds nothing; none is found exactly
/// when the legal id is zero or no identity has it.
pub proof fn law_identity_by_legal_id_exact(m: RegistryModel, legal_id: Seq<u8>, other: u64)
    requires
        m.wf(),
    ensures
        m.identity_by_legal_id(legal_id) is Some ==> ({
            let i = m.identity_by_legal_id(legal_id)->0;
            m.identity(i.id) == Some(i) && same_number(i.legal_id, legal_id) && !is_zero_number(legal_id)
        }),
        m.identity_by_legal_id(legal_id) is None && m.has_identity(other) && !is_zero_number(legal_id)
            ==> !same_number(m.identity(other)->0.legal_id, legal_id),
{
    let p = has_legal_id(legal_id);
    let n = m.identities.len() as int;
    if m.identity_by_legal_id(legal_id) is Some {
        crate::invariants::lemma_first_index_some(m.identities, p, n);
        let i = first_index(m.identities, p, n)->0;
        assert(p(m.identities[i]));
        assert(m.identities[i] is Some);
    }
    if m.identity_by_legal_id(legal_id) is None && m.has_identity(other) && !is_zero_number(legal_id) {
        assert(m.identities[other as int] is Some);
        if p(m.identities[other as int]) {
            crate::invariants::lemma_first_index_exists(m.identities, p, n, other as int);
            crate::invariants::lemma_first_index_some(m.identities, p, n);
            let i = first_index(m.identities, p, n)->0;
            assert(m.identities[i] is Some);
        }
    }
}

/// The children of a parent, one per link of the parent in its order: the
/// identity at the child end of each of its links.
pub proof fn law_children_identities_exact(m: RegistryModel, parent_id: u64, j: int)
    requires
        m.wf(),
        0 <= j < m.parent_links(parent_id).len(),
    ensures
        m.children_identities(parent_id).len() == m.parent_links(parent_id).len(),
        ({
            let l = m.parent_links(parent_id)[j];
            &&& m.link(l) is Some
            &&& m.link(l)->0.parent_id == parent_id
            &&& m.identity(m.link(l)->0.child_id) == Some(m.children_identities(parent_id)[j])
        }),
{
    let l = m.stores[parent_id].parent_links[j];
    assert(m.link(l) is Some);
    assert(m.links[l as int] is Some);
}

/// The parents of a child, one per link of the child in its order: the
/// identity at the parent end of each of its links.
pub proof fn law_parent_identities_exact(m: RegistryModel, child_id: u64, j: int)
    requires
        m.wf(),
        0 <= j < m.children_links(child_id).len(),
    ensures
        m.parent_identities(child_id).len() == m.children_links(child_id).len(),
        ({
            let l = m.children_links(child_id)[j];
            &&& m.link(l) is Some
            &&& m.link(l)->0.child_id == child_id
            &&& m.identity(m.link(l)->0.parent_id) == Some(m.parent_identities(child_id)[j])
        }),
{
    let l = m.stores[child_id].children_links[j];
    assert(m.link(l) is Some);
    assert(m.links[l as int] is Some);
}

/// The identities looked up by ids are exactly the identities at those ids.
pub proof fn law_identities_of_exact(m: RegistryModel, ids: Seq<u64>, i: IdentityModel)
    ensures
        m.identities_of(ids).contains(i) <==> exists|id: u64| #[trigger] ids.contains(id) && m.identity(id)
            == Some(i),
{
    lemma_filter_map_has(ids, |id: u64| m.identity(id), i);
}

/// The link requests of a parent (to a child) are exactly the pending link
/// requests with that parent (that child).
pub proof fn law_link_requests_by_exact(m: RegistryModel, id: u64, r: LinkRequestModel)
    ensures
        m.link_requests_by_parent(id).contains(r) <==> (m.link_requests.contains(Some(r)) && r.parent_id == id),
        m.link_requests_by_child(id).contains(r) <==> (m.link_requests.contains(Some(r)) && r.child_id == id),
{
    let fp = |o: Option<LinkRequestModel>|
        if o is Some && o->0.parent_id == id {
            o
        } else {
            None
        };
    let fc = |o: Option<LinkRequestModel>|
        if o is Some && o->0.child_id == id {
            o
        } else {
            None
        };
    lemma_filter_map_has(m.link_requests, fp, r);
    lemma_filter_map_has(m.link_requests, fc, r);
    assert(m.link_requests_by_parent(id) == m.link_requests.filter_map(fp));
    assert(m.link_requests_by_child(id) == m.link_requests.filter_map(fc));
    if m.link_requests.contains(Some(r)) {
        assert(r.parent_id == id ==> fp(Some(r)) == Some(r));
        assert(r.child_id == id ==> fc(Some(r)) == Some(r));
    }
}

/// The unlink requests to a parent (of a child) are exactly the pending
/// unlink requests with that parent (that child).
pub proof fn law_unlink_requests_by_exact(m: RegistryModel, id: u64, r: UnlinkRequestModel)
    ensures
        m.unlink_requests_by_parent(id).contains(r) <==> (m.unlink_requests.contains(Some(r)) && r.parent_id
            == id),
        m.unlink_requests_by_child(id).contains(r) <==> (m.unlink_requests.contains(Some(r)) && r.child_id
            == id),
{
    let fp = |o: Option<UnlinkRequestModel>|
        if o is Some && o->0.parent_id == id {
            o
        } else {
            None
        };
    let fc = |o: Option<UnlinkRequestModel>|
        if o is Some && o->0.child_id == id {
            o
        } else {
            None
        };
    lemma_filter_map_has(m.unlink_requests, fp, r);
    lemma_filter_map_has(m.unlink_requests, fc, r);
    assert(m.unlink_requests_by_parent(id) == m.unlink_requests.filter_map(fp));
    assert(m.unlink_requests_by_child(id) == m.unlink_requests.filter_map(fc));
    if m.unlink_requests.contains(Some(r)) {
        assert(r.parent_id == id ==> fp(Some(r)) == Some(r));
        assert(r.child_id == id ==> fc(Some(r)) == Some(r));
    }
}

/// A slot table's present entries: none when every slot is empty, otherwise
/// the last one is the entry in the highest filled slot.
proof fn lemma_present_last<T>(s: Seq<Option<T>>)
    ensures
        present(s).len() == 0 ==> forall|k: int| 0 <= k < s.len() ==> #[trigger] s[k] is None,
        present(s).len() > 0 ==> exists|j: int|
            0 <= j < s.len() && s[j] == Some(present(s).last()) && forall|k: int|
                j < k < s.len() ==> #[trigger] s[k] is None,
    decreases s.len(),
{
    if s.len() > 0 {
        let rest = s.drop_last();
        lemma_present_last(rest);
        match s.last() {
            Some(v) => {
                let j = s.len() - 1;
                assert(present(s) == present(rest).push(v));
            },
            None => {
                assert(present(s) == present(rest));
                assert forall|k: int| 0 <= k < s.len() - 1 implies #[trigger] s[k] == rest[k] by {}
                if present(s).len() > 0 {
                    let j = choose|j: int|
                        0 <= j < rest.len() && rest[j] == Some(present(rest).last()) && forall|k: int|
                            j < k < rest.len() ==> #[trigger] rest[k] is None;
                    assert(s[j] == rest[j]);
                    assert forall|k: int| j < k < s.len() implies #[trigger] s[k] is None by {
                        if k < s.len() - 1 {
                            assert(rest[k] is None);
                        }
                    }
                } else {
                    assert forall|k: int| 0 <= k < s.len() implies #[trigger] s[k] is None by {
                        if k < s.len() - 1 {
                            assert(rest[k] is None);
                        }
                    }
                }
            },
        }
    }
}

/// The last value under a key is the value with the highest id there; there
/// is none exactly when no value is there.
pub proof fn law_last_value_exact(m: RegistryModel, id: u64, key: Seq<u8>, value_id: u64)
    requires
        m.wf(),
    ensures
        m.last_value(id, key) is None ==> m.value(id, key, value_id) is None,
        m.last_value(id, key) is Some ==> ({
            let v = m.last_value(id, key)->0;
            &&& m.value(id, key, v.id) == Some(v)
            &&& value_id > v.id ==> m.value(id, key, value_id) is None
        }),
{
    let s = m.drawer(id, key).values;
    lemma_present_last(s);
    if m.last_value(id, key) is None {
        if value_id < s.len() {
            assert(s[value_id as int] is None);
        }
    } else {
        let v = m.last_value(id, key)->0;
        let j = choose|j: int|
            0 <= j < s.len() && s[j] == Some(present(s).last()) && forall|k: int| j < k < s.len() ==> #[trigger] s[k]
                is None;
        assert(m.stores[id].drawers[key].values[j] is Some);
        assert(v.id == j);
        if value_id > v.id && value_id < s.len() {
            assert(s[value_id as int] is None);
        }
    }
}

/// A value read back at an id is the value stored there, at that id.
pub proof fn law_value_sits_at_its_id(m: RegistryModel, id: u64, key: Seq<u8>, value_id: u64)
    requires
        m.wf(),
        m.value(id, key, value_id) is Some,
    ensures
        m.value(id, key, value_id)->0.id == value_id,
        m.key_values(id, key).contains(m.value(id, key, value_id)->0),
{
    assert(m.stores[id].drawers[key].values[value_id as int] is Some);
    lemma_present_has(m.drawer(id, key).values, value_id as int);
}

proof fn lemma_present_has<T>(s: Seq<Option<T>>, j: int)
    requires
        0 <= j < s.len(),
        s[j] is Some,
    ensures
        present(s).contains(s[j]->0),
    decreases s.len(),
{
    let rest = s.drop_last();
    if j == s.len() - 1 {
        let p = present(rest).push(s[j]->0);
        assert(present(s) == p);
        assert(p[p.len() - 1] == s[j]->0);
    } else {
        assert(rest[j] == s[j]);
        lemma_present_has(rest, j);
        let k = choose|k: int| 0 <= k < present(rest).len() && present(rest)[k] == s[j]->0;
        match s.last() {
            Some(v) => {
                assert(present(s) == present(rest).push(v));
                assert(present(s)[k] == s[j]->0);
            },
            None => {},
        }
    }
}

} // verus!
