use vstd::prelude::*;

use crate::bytes::{bytes_eq, bytes_list_view, copy_bytes, position_of};
use crate::model::{clear_slot, set_insert, set_swap_remove, DrawerModel, StoreModel};
use crate::types::{Value, ValueModel};

verus! {

pub open spec fn opt_value(o: Option<Value>) -> Option<ValueModel> {
    match o {
        Some(v) => Some(v@),
        None => None,
    }
}

pub open spec fn values_view(s: Seq<Option<Value>>) -> Seq<Option<ValueModel>> {
    s.map_values(|o: Option<Value>| opt_value(o))
}

/// What one storage key of an identity holds.
pub struct Drawer {
    pub key: Vec<u8>,
    pub modifiers: Vec<Vec<u8>>,
    pub values: Vec<Option<Value>>,
}

impl Drawer {
    pub open spec fn model(&self) -> DrawerModel {
        DrawerModel { modifiers: bytes_list_view(self.modifiers@), values: values_view(self.values@) }
    }

    pub fn new(key: &Vec<u8>) -> (d: Drawer)
        ensures
            d.key@ == key@,
            d.model() == DrawerModel::empty(),
    {
        let d = Drawer { key: copy_bytes(key), modifiers: Vec::new(), values: Vec::new() };
        assert(d.model() =~= DrawerModel::empty());
        d
    }

    pub fn insert_modifier(&mut self, address: &Vec<u8>)
        ensures
            final(self).key == old(self).key,
            final(self).model() == (DrawerModel {
                modifiers: set_insert(old(self).model().modifiers, address@),
                ..old(self).model()
            }),
    {
        match position_of(&self.modifiers, address) {
            Some(_) => {
                assert(self.model() =~= (DrawerModel {
                    modifiers: set_insert(self.model().modifiers, address@),
                    ..self.model()
                }));
            },
            None => {
                let ghost old_mods = self.modifiers@;
                self.modifiers.push(copy_bytes(address));
                assert(bytes_list_view(self.modifiers@) =~= bytes_list_view(old_mods).push(address@));
            },
        }
    }

    pub fn remove_modifier(&mut self, address: &Vec<u8>)
        requires
            old(self).model().modifiers.no_duplicates(),
        ensures
            final(self).key == old(self).key,
            final(self).model() == (DrawerModel {
                modifiers: set_swap_remove(old(self).model().modifiers, address@),
                ..old(self).model()
            }),
    {
        match position_of(&self.modifiers, address) {
            Some(i) => {
                let ghost old_mods = self.modifiers@;
                let ghost v = bytes_list_view(old_mods);
                assert(v[i as int] == address@);
                assert(v.contains(address@));
                let ghost j = v.index_of(address@);
                assert(v[j] == address@);
                assert(j == i);
                self.modifiers.swap_remove(i);
                assert(bytes_list_view(self.modifiers@) =~= v.update(i as int, v.last()).drop_last());
            },
            None => {
            },
        }
    }

    pub fn clear_modifiers(&mut self)
        ensures
            final(self).key == old(self).key,
            final(self).model() == (DrawerModel { modifiers: Seq::empty(), ..old(self).model() }),
    {
        self.modifiers = Vec::new();
        assert(bytes_list_view(self.modifiers@) =~= Seq::<Seq<u8>>::empty());
    }

    pub fn push_value(&mut self, value: Value)
        ensures
            final(self).key == old(self).key,
            final(self).model() == (DrawerModel {
                values: old(self).model().values.push(Some(value@)),
                ..old(self).model()
            }),
    {
        let ghost old_vals = self.values@;
        self.values.push(Some(value));
        assert(values_view(self.values@) =~= values_view(old_vals).push(Some(value@)));
    }

    pub fn set_value(&mut self, value_id: usize, value: Value)
        requires
            value_id < old(self).values@.len(),
        ensures
            final(self).key == old(self).key,
            final(self).model() == (DrawerModel {
                values: old(self).model().values.update(value_id as int, Some(value@)),
                ..old(self).model()
            }),
    {
        let ghost old_vals = self.values@;
        self.values.set(value_id, Some(value));
        assert(values_view(self.values@) =~= values_view(old_vals).update(value_id as int, Some(value@)));
    }

    pub fn clear_value(&mut self, value_id: usize)
        requires
            value_id < old(self).values@.len(),
        ensures
            final(self).key == old(self).key,
            final(self).model() == (DrawerModel {
                values: clear_slot(old(self).model().values, value_id as int),
                ..old(self).model()
            }),
    {
        let ghost old_vals = self.values@;
        if value_id == self.values.len() - 1 {
            self.values.pop();
            assert(values_view(self.values@) =~= values_view(old_vals).drop_last());
        } else {
            self.values.set(value_id, None);
            assert(values_view(self.values@) =~= values_view(old_vals).update(value_id as int, None));
        }
    }
}

pub open spec fn keys_distinct(ds: Seq<Drawer>) -> bool {
    forall|i: int, j: int|
        0 <= i < ds.len() && 0 <= j < ds.len() && i != j ==> #[trigger] ds[i].key@ != #[trigger] ds[j].key@
}

pub open spec fn has_drawer(ds: Seq<Drawer>, k: Seq<u8>) -> bool {
    exists|i: int| 0 <= i < ds.len() && #[trigger] ds[i].key@ == k
}

pub open spec fn drawer_at(ds: Seq<Drawer>, k: Seq<u8>) -> DrawerModel {
    if has_drawer(ds, k) {
        ds[choose|i: int| 0 <= i < ds.len() && #[trigger] ds[i].key@ == k].model()
    } else {
        DrawerModel::empty()
    }
}

pub open spec fn drawers_map(ds: Seq<Drawer>) -> Map<Seq<u8>, DrawerModel> {
    Map::new(|k: Seq<u8>| true, |k: Seq<u8>| drawer_at(ds, k))
}

proof fn lemma_drawer_at_index(ds: Seq<Drawer>, i: int)
    requires
        keys_distinct(ds),
        0 <= i < ds.len(),
    ensures
        drawer_at(ds, ds[i].key@) == ds[i].model(),
{
    let k = ds[i].key@;
    assert(has_drawer(ds, k));
    let j = choose|j: int| 0 <= j < ds.len() && #[trigger] ds[j].key@ == k;
    assert(j == i);
}

proof fn lemma_drawers_update(ds: Seq<Drawer>, i: int, d: Drawer)
    requires
        keys_distinct(ds),
        0 <= i < ds.len(),
        d.key@ == ds[i].key@,
    ensures
        keys_distinct(ds.update(i, d)),
        drawers_map(ds.update(i, d)) =~= drawers_map(ds).insert(d.key@, d.model()),
{
    let ds2 = ds.update(i, d);
    assert forall|k: Seq<u8>| #![auto] drawers_map(ds2)[k] == drawers_map(ds).insert(d.key@, d.model())[k] by {
        if k == d.key@ {
            lemma_drawer_at_index(ds2, i);
        } else {
            if has_drawer(ds, k) {
                let j = choose|j: int| 0 <= j < ds.len() && #[trigger] ds[j].key@ == k;
                assert(ds2[j].key@ == k);
                lemma_drawer_at_index(ds, j);
                lemma_drawer_at_index(ds2, j);
            } else {
                assert(!has_drawer(ds2, k));
            }
        }
    }
}

proof fn lemma_drawers_push(ds: Seq<Drawer>, d: Drawer)
    requires
        keys_distinct(ds),
        !has_drawer(ds, d.key@),
    ensures
        keys_distinct(ds.push(d)),
        drawers_map(ds.push(d)) =~= drawers_map(ds).insert(d.key@, d.model()),
{
    let ds2 = ds.push(d);
    assert(keys_distinct(ds2)) by {
        assert forall|i: int, j: int|
            0 <= i < ds2.len() && 0 <= j < ds2.len() && i != j implies #[trigger] ds2[i].key@
            != #[trigger] ds2[j].key@ by {
            if i == ds.len() {
                assert(ds2[j] == ds[j]);
            } else if j == ds.len() {
                assert(ds2[i] == ds[i]);
            }
        }
    }
    assert forall|k: Seq<u8>| #![auto] drawers_map(ds2)[k] == drawers_map(ds).insert(d.key@, d.model())[k] by {
        if k == d.key@ {
            lemma_drawer_at_index(ds2, ds.len() as int);
        } else {
            if has_drawer(ds, k) {
                let j = choose|j: int| 0 <= j < ds.len() && #[trigger] ds[j].key@ == k;
                assert(ds2[j].key@ == k);
                lemma_drawer_at_index(ds, j);
                lemma_drawer_at_index(ds2, j);
            } else {
                assert forall|j: int| 0 <= j < ds2.len() implies #[trigger] ds2[j].key@ != k by {
                    if j < ds.len() {
                        assert(ds2[j] == ds[j]);
                    }
                }
            }
        }
    }
}


/// Everything the registry keeps for one identity id.
pub struct IdentityStore {
    pub keys: Vec<Vec<u8>>,
    pub drawers: Vec<Drawer>,
    pub children_links: Vec<u64>,
    pub parent_links: Vec<u64>,
}

impl IdentityStore {
    pub open spec fn model(&self) -> StoreModel {
        StoreModel {
            keys: bytes_list_view(self.keys@),
            drawers: drawers_map(self.drawers@),
            children_links: self.children_links@,
            parent_links: self.parent_links@,
        }
    }

    pub open spec fn rep_ok(&self) -> bool {
        keys_distinct(self.drawers@)
    }

    pub fn new() -> (s: IdentityStore)
        ensures
            s.rep_ok(),
            s.model() =~~= StoreModel::empty(),
    {
        let s = IdentityStore {
            keys: Vec::new(),
            drawers: Vec::new(),
            children_links: Vec::new(),
            parent_links: Vec::new(),
        };
        assert(bytes_list_view(s.keys@) =~= Seq::<Seq<u8>>::empty());
        assert(drawers_map(s.drawers@) =~~= StoreModel::empty().drawers);
        s
    }

    fn find_drawer(&self, key: &Vec<u8>) -> (r: Option<usize>)
        requires
            self.rep_ok(),
        ensures
            match r {
                Some(i) => i < self.drawers@.len() && self.drawers@[i as int].key@ == key@,
                None => !has_drawer(self.drawers@, key@),
            },
    {
        let mut i: usize = 0;
        while i < self.drawers.len()
            invariant
                i <= self.drawers@.len(),
                forall|j: int| 0 <= j < i ==> #[trigger] self.drawers@[j].key@ != key@,
            decreases self.drawers@.len() - i,
        {
            if bytes_eq(&self.drawers[i].key, key) {
                return Some(i);
            }
            i = i + 1;
        }
        None
    }

    /// The index of the drawer of `key`, adding an empty one if there is none.
    fn open_drawer(&mut self, key: &Vec<u8>) -> (i: usize)
        requires
            old(self).rep_ok(),
        ensures
            final(self).rep_ok(),
            final(self).model() =~~= old(self).model(),
            i < final(self).drawers@.len(),
            final(self).drawers@[i as int].key@ == key@,
    {
        match self.find_drawer(key) {
            Some(i) => i,
            None => {
                let ghost old_ds = self.drawers@;
                let d = Drawer::new(key);
                proof {
                    lemma_drawers_push(old_ds, d);
                    assert(drawer_at(old_ds, key@) == DrawerModel::empty());
                }
                self.drawers.push(d);
                assert(drawers_map(self.drawers@) =~~= drawers_map(old_ds));
                self.drawers.len() - 1
            },
        }
    }

    /// The drawer of `key`, as the registry sees it.
    pub open spec fn drawer(&self, key: Seq<u8>) -> DrawerModel {
        self.model().drawers[key]
    }

    pub fn insert_modifier(&mut self, key: &Vec<u8>, address: &Vec<u8>)
        requires
            old(self).rep_ok(),
        ensures
            final(self).rep_ok(),
            final(self).model() =~~= (StoreModel {
                drawers: old(self).model().drawers.insert(
                    key@,
                    DrawerModel {
                        modifiers: set_insert(old(self).drawer(key@).modifiers, address@),
                        ..old(self).drawer(key@)
                    },
                ),
                ..old(self).model()
            }),
    {
        let i = self.open_drawer(key);
        let ghost mid = self.drawers@;
        let mut d = Drawer::new(key);
        self.drawers.set_and_swap(i, &mut d);
        d.insert_modifier(address);
        self.drawers.set(i, d);
        proof {
            lemma_drawer_at_index(mid, i as int);
            lemma_drawers_update(mid, i as int, d);
            assert(self.drawers@ == mid.update(i as int, d));
        }
    }

    pub fn remove_modifier(&mut self, key: &Vec<u8>, address: &Vec<u8>)
        requires
            old(self).rep_ok(),
            old(self).drawer(key@).modifiers.no_duplicates(),
        ensures
            final(self).rep_ok(),
            final(self).model() =~~= (StoreModel {
                drawers: old(self).model().drawers.insert(
                    key@,
                    DrawerModel {
                        modifiers: set_swap_remove(old(self).drawer(key@).modifiers, address@),
                        ..old(self).drawer(key@)
                    },
                ),
                ..old(self).model()
            }),
    {
        let i = self.open_drawer(key);
        let ghost mid = self.drawers@;
        let mut d = Drawer::new(key);
        self.drawers.set_and_swap(i, &mut d);
        proof {
            lemma_drawer_at_index(mid, i as int);
        }
        d.remove_modifier(address);
        self.drawers.set(i, d);
        proof {
            lemma_drawers_update(mid, i as int, d);
            assert(self.drawers@ == mid.update(i as int, d));
        }
    }

    pub fn push_value(&mut self, key: &Vec<u8>, value: Value)
        requires
            old(self).rep_ok(),
        ensures
            final(self).rep_ok(),
            final(self).model() =~~= (StoreModel {
                drawers: old(self).model().drawers.insert(
                    key@,
                    DrawerModel {
                        values: old(self).drawer(key@).values.push(Some(value@)),
                        ..old(self).drawer(key@)
                    },
                ),
                ..old(self).model()
            }),
    {
        let i = self.open_drawer(key);
        let ghost mid = self.drawers@;
        let mut d = Drawer::new(key);
        self.drawers.set_and_swap(i, &mut d);
        d.push_value(value);
        self.drawers.set(i, d);
        proof {
            lemma_drawer_at_index(mid, i as int);
            lemma_drawers_update(mid, i as int, d);
            assert(self.drawers@ == mid.update(i as int, d));
        }
    }

    pub fn set_value(&mut self, key: &Vec<u8>, value_id: u64, value: Value)
        requires
            old(self).rep_ok(),
            value_id < old(self).drawer(key@).values.len(),
        ensures
            final(self).rep_ok(),
            final(self).model() =~~= (StoreModel {
                drawers: old(self).model().drawers.insert(
                    key@,
                    DrawerModel {
                        values: old(self).drawer(key@).values.update(value_id as int, Some(value@)),
                        ..old(self).drawer(key@)
                    },
                ),
                ..old(self).model()
            }),
    {
        let i = self.open_drawer(key);
        let ghost mid = self.drawers@;
        let mut d = Drawer::new(key);
        self.drawers.set_and_swap(i, &mut d);
        proof {
            lemma_drawer_at_index(mid, i as int);
            assert(drawers_map(mid)[key@] == d.model());
            assert(values_view(d.values@).len() == d.values@.len());
        }
        let n = d.values.len();
        assert(value_id < n);
        d.set_value(value_id as usize, value);
        self.drawers.set(i, d);
        proof {
            lemma_drawers_update(mid, i as int, d);
            assert(self.drawers@ == mid.update(i as int, d));
        }
    }

    pub fn clear_value(&mut self, key: &Vec<u8>, value_id: u64)
        requires
            old(self).rep_ok(),
            value_id < old(self).drawer(key@).values.len(),
        ensures
            final(self).rep_ok(),
            final(self).model() =~~= (StoreModel {
                drawers: old(self).model().drawers.insert(
                    key@,
                    DrawerModel {
                        values: clear_slot(old(self).drawer(key@).values, value_id as int),
                        ..old(self).drawer(key@)
                    },
                ),
                ..old(self).model()
            }),
    {
        let i = self.open_drawer(key);
        let ghost mid = self.drawers@;
        let mut d = Drawer::new(key);
        self.drawers.set_and_swap(i, &mut d);
        proof {
            lemma_drawer_at_index(mid, i as int);
            assert(drawers_map(mid)[key@] == d.model());
            assert(values_view(d.values@).len() == d.values@.len());
        }
        let n = d.values.len();
        assert(value_id < n);
        d.clear_value(value_id as usize);
        self.drawers.set(i, d);
        proof {
            lemma_drawers_update(mid, i as int, d);
            assert(self.drawers@ == mid.update(i as int, d));
        }
    }

    pub fn insert_key(&mut self, key: &Vec<u8>)
        ensures
            final(self).rep_ok() == old(self).rep_ok(),
            final(self).model() =~~= (StoreModel {
                keys: set_insert(old(self).model().keys, key@),
                ..old(self).model()
            }),
    {
        match position_of(&self.keys, key) {
            Some(_) => {},
            None => {
                let ghost old_keys = self.keys@;
                self.keys.push(copy_bytes(key));
                assert(bytes_list_view(self.keys@) =~= bytes_list_view(old_keys).push(key@));
            },
        }
    }
}

/// A drawer after `address` lost its write access: if it may write, nobody may.
pub open spec fn revoke_drawer(d: DrawerModel, address: Seq<u8>) -> DrawerModel {
    if d.modifiers.contains(address) {
        DrawerModel { modifiers: Seq::empty(), ..d }
    } else {
        d
    }
}

/// Drawers after every key that `address` may write under lost its modifiers.
pub open spec fn revoked_drawers(m: Map<Seq<u8>, DrawerModel>, address: Seq<u8>) -> Map<
    Seq<u8>,
    DrawerModel,
> {
    Map::new(|k: Seq<u8>| true, |k: Seq<u8>| revoke_drawer(m[k], address))
}

fn u64_position(v: &Vec<u64>, x: u64) -> (r: Option<usize>)
    ensures
        match r {
            Some(i) => i < v@.len() && v@[i as int] == x,
            None => !v@.contains(x),
        },
{
    let mut i: usize = 0;
    while i < v.len()
        invariant
            i <= v@.len(),
            forall|j: int| 0 <= j < i ==> v@[j] != x,
        decreases v@.len() - i,
    {
        if v[i] == x {
            return Some(i);
        }
        i = i + 1;
    }
    None
}

/// Removes `x` from an ordered set, the last element taking its place.
fn u64_swap_remove(v: &mut Vec<u64>, x: u64)
    requires
        old(v)@.no_duplicates(),
    ensures
        final(v)@ == set_swap_remove(old(v)@, x),
        final(v)@.no_duplicates(),
{
    let ghost s = v@;
    match u64_position(v, x) {
        Some(i) => {
            assert(s.contains(x));
            let ghost j = s.index_of(x);
            assert(s[j] == x);
            assert(j == i);
            v.swap_remove(i);
            assert(v@ =~= s.update(i as int, s.last()).drop_last());
            assert forall|a: int, b: int|
                0 <= a < v@.len() && 0 <= b < v@.len() && a != b implies v@[a] != v@[b] by {
                let a2 = if a == i { s.len() - 1 } else { a };
                let b2 = if b == i { s.len() - 1 } else { b };
                assert(v@[a] == s[a2]);
                assert(v@[b] == s[b2]);
            }
        },
        None => {},
    }
}

impl IdentityStore {
    /// Every key of the identity loses all it holds, and the identity has no keys left.
    pub fn clear_keys(&mut self)
        ensures
            final(self).rep_ok(),
            final(self).model() =~~= (StoreModel {
                keys: Seq::empty(),
                drawers: Map::new(|k: Seq<u8>| true, |k: Seq<u8>| DrawerModel::empty()),
                ..old(self).model()
            }),
    {
        self.keys = Vec::new();
        self.drawers = Vec::new();
        assert(bytes_list_view(self.keys@) =~= Seq::<Seq<u8>>::empty());
    }

    /// Every key of the identity under which `address` may write loses its modifiers.
    pub fn revoke(&mut self, address: &Vec<u8>)
        requires
            old(self).rep_ok(),
        ensures
            final(self).rep_ok(),
            final(self).model() =~~= (StoreModel {
                drawers: revoked_drawers(old(self).model().drawers, address@),
                ..old(self).model()
            }),
    {
        let ghost old_model = self.model();
        let ghost old_ds = self.drawers@;
        let mut j: usize = 0;
        while j < self.drawers.len()
            invariant
                self.rep_ok(),
                keys_distinct(old_ds),
                j <= self.drawers@.len(),
                self.drawers@.len() == old_ds.len(),
                bytes_list_view(self.keys@) == old_model.keys,
                self.children_links@ == old_model.children_links,
                self.parent_links@ == old_model.parent_links,
                forall|i: int| 0 <= i < old_ds.len() ==> #[trigger] self.drawers@[i].key@ == old_ds[i].key@,
                forall|i: int|
                    0 <= i < j ==> #[trigger] self.drawers@[i].model() == revoke_drawer(
                        old_ds[i].model(),
                        address@,
                    ),
                forall|i: int| j <= i < old_ds.len() ==> #[trigger] self.drawers@[i] == old_ds[i],
            decreases old_ds.len() - j,
        {
            let ghost before = self.drawers@;
            if position_of(&self.drawers[j].modifiers, address).is_some() {
                let mut d = Drawer::new(&self.keys_placeholder());
                self.drawers.set_and_swap(j, &mut d);
                d.clear_modifiers();
                self.drawers.set(j, d);
                assert(self.drawers@ == before.update(j as int, d));
            }
            j = j + 1;
        }
        assert forall|k: Seq<u8>| #![auto] drawers_map(self.drawers@)[k] == revoked_drawers(
            old_model.drawers,
            address@,
        )[k] by {
            if has_drawer(old_ds, k) {
                let i = choose|i: int| 0 <= i < old_ds.len() && #[trigger] old_ds[i].key@ == k;
                lemma_drawer_at_index(old_ds, i);
                lemma_drawer_at_index(self.drawers@, i);
            } else {
                assert(!has_drawer(self.drawers@, k)) by {
                    if has_drawer(self.drawers@, k) {
                        let i = choose|i: int| 0 <= i < self.drawers@.len() && #[trigger] self.drawers@[i].key@ == k;
                        assert(old_ds[i].key@ == k);
                    }
                }
            }
        }
        assert(drawers_map(self.drawers@) =~~= revoked_drawers(old_model.drawers, address@));
    }

    /// An empty key, to stand in a drawer while it is taken out.
    fn keys_placeholder(&self) -> (r: Vec<u8>) {
        Vec::new()
    }

    pub fn push_child_link(&mut self, link_id: u64)
        ensures
            final(self).rep_ok() == old(self).rep_ok(),
            final(self).model() =~~= (StoreModel {
                children_links: old(self).model().children_links.push(link_id),
                ..old(self).model()
            }),
    {
        self.children_links.push(link_id);
    }

    pub fn push_parent_link(&mut self, link_id: u64)
        ensures
            final(self).rep_ok() == old(self).rep_ok(),
            final(self).model() =~~= (StoreModel {
                parent_links: old(self).model().parent_links.push(link_id),
                ..old(self).model()
            }),
    {
        self.parent_links.push(link_id);
    }

    pub fn remove_child_link(&mut self, link_id: u64)
        requires
            old(self).model().children_links.no_duplicates(),
        ensures
            final(self).rep_ok() == old(self).rep_ok(),
            final(self).model() =~~= (StoreModel {
                children_links: set_swap_remove(old(self).model().children_links, link_id),
                ..old(self).model()
            }),
    {
        u64_swap_remove(&mut self.children_links, link_id);
    }

    pub fn remove_parent_link(&mut self, link_id: u64)
        requires
            old(self).model().parent_links.no_duplicates(),
        ensures
            final(self).rep_ok() == old(self).rep_ok(),
            final(self).model() =~~= (StoreModel {
                parent_links: set_swap_remove(old(self).model().parent_links, link_id),
                ..old(self).model()
            }),
    {
        u64_swap_remove(&mut self.parent_links, link_id);
    }
}

pub open spec fn values_models(s: Seq<Value>) -> Seq<ValueModel> {
    s.map_values(|v: Value| v@)
}

impl IdentityStore {
    fn drawer_of(&self, key: &Vec<u8>) -> (r: Option<&Drawer>)
        requires
            self.rep_ok(),
        ensures
            match r {
                Some(d) => d.model() == self.drawer(key@),
                None => self.drawer(key@) == DrawerModel::empty(),
            },
    {
        match self.find_drawer(key) {
            Some(i) => {
                proof {
                    lemma_drawer_at_index(self.drawers@, i as int);
                }
                Some(&self.drawers[i])
            },
            None => None,
        }
    }

    pub fn keys_contains(&self, key: &Vec<u8>) -> (r: bool)
        ensures
            r == self.model().keys.contains(key@),
    {
        position_of(&self.keys, key).is_some()
    }

    pub fn keys_copy(&self) -> (r: Vec<Vec<u8>>)
        ensures
            bytes_list_view(r@) == self.model().keys,
    {
        crate::bytes::copy_bytes_list(&self.keys)
    }

    pub fn modifiers_contains(&self, key: &Vec<u8>, address: &Vec<u8>) -> (r: bool)
        requires
            self.rep_ok(),
        ensures
            r == self.drawer(key@).modifiers.contains(address@),
    {
        match self.drawer_of(key) {
            Some(d) => position_of(&d.modifiers, address).is_some(),
            None => false,
        }
    }

    pub fn modifiers_is_empty(&self, key: &Vec<u8>) -> (r: bool)
        requires
            self.rep_ok(),
        ensures
            r == (self.drawer(key@).modifiers.len() == 0),
    {
        match self.drawer_of(key) {
            Some(d) => d.modifiers.len() == 0,
            None => true,
        }
    }

    pub fn modifiers_copy(&self, key: &Vec<u8>) -> (r: Vec<Vec<u8>>)
        requires
            self.rep_ok(),
        ensures
            bytes_list_view(r@) == self.drawer(key@).modifiers,
    {
        match self.drawer_of(key) {
            Some(d) => crate::bytes::copy_bytes_list(&d.modifiers),
            None => {
                let r: Vec<Vec<u8>> = Vec::new();
                assert(bytes_list_view(r@) =~= Seq::<Seq<u8>>::empty());
                r
            },
        }
    }

    pub fn last_key_id(&self, key: &Vec<u8>) -> (r: u64)
        requires
            self.rep_ok(),
        ensures
            r == self.drawer(key@).values.len(),
    {
        match self.drawer_of(key) {
            Some(d) => d.values.len() as u64,
            None => 0,
        }
    }

    pub fn value(&self, key: &Vec<u8>, value_id: u64) -> (r: Option<Value>)
        requires
            self.rep_ok(),
        ensures
            opt_value(r) == (if value_id < self.drawer(key@).values.len() {
                self.drawer(key@).values[value_id as int]
            } else {
                None
            }),
    {
        match self.drawer_of(key) {
            Some(d) => {
                let n = d.values.len();
                if value_id < n as u64 {
                    match &d.values[value_id as usize] {
                        Some(v) => Some(v.duplicate()),
                        None => None,
                    }
                } else {
                    None
                }
            },
            None => None,
        }
    }

    pub fn key_values(&self, key: &Vec<u8>) -> (r: Vec<Value>)
        requires
            self.rep_ok(),
        ensures
            values_models(r@) == crate::model::present(self.drawer(key@).values),
    {
        let mut r: Vec<Value> = Vec::new();
        match self.drawer_of(key) {
            Some(d) => {
                let ghost vals = values_view(d.values@);
                let mut i: usize = 0;
                while i < d.values.len()
                    invariant
                        i <= d.values@.len(),
                        vals == values_view(d.values@),
                        values_models(r@) == crate::model::present(vals.take(i as int)),
                    decreases d.values@.len() - i,
                {
                    assert(vals.take(i + 1).drop_last() =~= vals.take(i as int));
                    let ghost before = r@;
                    match &d.values[i] {
                        Some(v) => {
                            r.push(v.duplicate());
                            assert(values_models(r@) =~= values_models(before).push(
                                vals[i as int]->0,
                            ));
                        },
                        None => {},
                    }
                    i = i + 1;
                }
                assert(vals.take(i as int) =~= vals);
            },
            None => {
                assert(values_models(r@) =~= Seq::<ValueModel>::empty());
            },
        }
        r
    }
}
} // verus!
