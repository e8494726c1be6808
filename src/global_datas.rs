use std::collections::BTreeMap;

use vstd::prelude::*;

use crate::data_entry::DataEntry;
use crate::parse_tool::{t_persistent, WfParse, WfPersistentObject};
use crate::reference::{group_reference, text_id, zid, Reference, ZidParseError};

verus! {

broadcast use {
    group_reference,
    vstd::std_specs::btree::group_btree_axioms,
    vstd::laws_cmp::group_laws_cmp,
};

/// Why an entry was not added to the store.
#[derive(Debug, PartialEq, Eq)]
pub enum StoreError {
    /// The title is not an identifier.
    Title(ZidParseError),
    /// An entry with this identifier is already there.
    Duplicate(Reference),
    /// The entry is a persistent object whose own identifier (the second)
    /// is not its title (the first).
    IdentityMismatch(Reference, Reference),
}

/// The object store: the root term of each identifier.
pub struct GlobalDatas {
    map: BTreeMap<(u64, u64), DataEntry>,
}

/// A persistent object stored under `id` carries `id` as its own identifier.
pub open spec fn identity_kept(id: Reference, e: DataEntry) -> bool {
    t_persistent(e@) matches Ok((pid, _)) ==> pid == id
}

impl GlobalDatas {
    #[verifier::type_invariant]
    spec fn inv(self) -> bool {
        forall|key: (u64, u64)| #[trigger]
            self.map@.contains_key(key) ==> identity_kept(zid(key.0, key.1), self.map@[key])
    }

    /// The entries, keyed by the components of their identifiers.
    pub closed spec fn spec_map(self) -> Map<(u64, u64), DataEntry> {
        self.map@
    }

    pub open spec fn spec_get(self, id: Reference) -> Option<DataEntry> {
        if self.spec_map().contains_key((id.z_part(), id.k_part())) {
            Some(self.spec_map()[(id.z_part(), id.k_part())])
        } else {
            None
        }
    }

    pub fn new() -> (r: Self)
        ensures
            r.spec_map() == Map::<(u64, u64), DataEntry>::empty(),
    {
        GlobalDatas { map: BTreeMap::new() }
    }

    /// The root term stored under `reference`.
    pub fn get(&self, reference: &Reference) -> (r: Option<&DataEntry>)
        ensures
            r matches Some(v) ==> self.spec_get(*reference) == Some(*v) && identity_kept(
                *reference,
                *v,
            ),
            r is None ==> self.spec_get(*reference) is None,
    {
        proof {
            use_type_invariant(self);
        }
        let key = (reference.get_z_value(), reference.get_k_value());
        let r = self.map.get(&key);
        proof {
            if r is Some {
                assert(self.map@.contains_key(key));
            }
        }
        r
    }

    /// Stores `entry` under the identifier that `title` writes. Fails when
    /// the title is not an identifier, when that identifier is taken, or when
    /// the entry is a persistent object that names another identifier.
    pub fn add_entry(&mut self, title: &str, entry: DataEntry) -> (r: Result<(), StoreError>)
        ensures
            text_id(title@) matches Err(e) ==> r == Err::<(), StoreError>(StoreError::Title(e)),
            text_id(title@) matches Ok(id) ==> {
                if old(self).spec_get(id) is Some {
                    r == Err::<(), StoreError>(StoreError::Duplicate(id))
                } else if t_persistent(entry@) matches Ok((pid, _)) && pid != id {
                    r == Err::<(), StoreError>(StoreError::IdentityMismatch(id, t_persistent(entry@)->Ok_0.0))
                } else {
                    r is Ok
                }
            },
            r is Ok ==> final(self).spec_map() == old(self).spec_map().insert(
                (text_id(title@)->Ok_0.z_part(), text_id(title@)->Ok_0.k_part()),
                entry,
            ),
            r is Err ==> final(self).spec_map() == old(self).spec_map(),
    {
        proof {
            use_type_invariant(&*self);
        }
        let id = match Reference::from_zid(title) {
            Ok(id) => id,
            Err(e) => return Err(StoreError::Title(e)),
        };
        let key = (id.get_z_value(), id.get_k_value());
        if self.map.contains_key(&key) {
            return Err(StoreError::Duplicate(id));
        }
        match WfPersistentObject::parse(&entry) {
            Ok(p) => {
                if p.id != id {
                    return Err(StoreError::IdentityMismatch(id, p.id));
                }
            },
            Err(_) => {},
        }
        let mut map = BTreeMap::new();
        std::mem::swap(&mut map, &mut self.map);
        map.insert(key, entry);
        proof {
            assert forall|k: (u64, u64)| #[trigger] map@.contains_key(k) implies identity_kept(
                zid(k.0, k.1),
                map@[k],
            ) by {
                if k != key {
                    assert(old(self).map@.contains_key(k));
                } else {
                    assert(zid(k.0, k.1) == id);
                }
            }
        }
        self.map = map;
        Ok(())
    }
}

impl Default for GlobalDatas {
    fn default() -> (r: Self)
        ensures
            r.spec_map() == Map::<(u64, u64), DataEntry>::empty(),
    {
        GlobalDatas::new()
    }
}

} // verus!
