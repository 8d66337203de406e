//! Model of the runtime object table: live objects identified by small
//! integers, each carrying the interface it implements and its version.
//! Handles are exclusive, scoped leases: an object on loan is marked leased
//! and is unavailable until the lease is returned.

use vstd::prelude::*;

verus! {

/// One live object: its id, the interface it implements, the version it was
/// created with, and whether an exclusive lease on it is currently out.
#[derive(Clone, Debug)]
pub struct ObjectEntry {
    pub id: u32,
    pub interface: String,
    pub version: u32,
    pub leased: bool,
}

/// The index of the entry with the given id, if any.
pub open spec fn table_index_of(entries: Seq<ObjectEntry>, id: u32) -> Option<int> {
    if exists|i: int| 0 <= i < entries.len() && entries[i].id == id {
        Some(choose|i: int| 0 <= i < entries.len() && entries[i].id == id)
    } else {
        None
    }
}

/// The entry with the given id, if any.
pub open spec fn table_find(entries: Seq<ObjectEntry>, id: u32) -> Option<ObjectEntry> {
    match table_index_of(entries, id) {
        Some(i) => Some(entries[i]),
        None => None,
    }
}

/// Whether some entry carries the given id.
pub open spec fn table_has(entries: Seq<ObjectEntry>, id: u32) -> bool {
    exists|i: int| 0 <= i < entries.len() && entries[i].id == id
}

/// With unique ids, finding by id lands on the one entry that holds it.
pub proof fn lemma_table_find_at(entries: Seq<ObjectEntry>, id: u32, idx: int)
    requires
        forall|i: int, j: int| 0 <= i < j < entries.len() ==> entries[i].id != entries[j].id,
        0 <= idx < entries.len(),
        entries[idx].id == id,
    ensures
        table_index_of(entries, id) == Some(idx),
        table_find(entries, id) == Some(entries[idx]),
{
    assert(table_has(entries, id));
    let i = choose|i: int| 0 <= i < entries.len() && entries[i].id == id;
    if i < idx {
        assert(entries[i].id != entries[idx].id);
    }
    if idx < i {
        assert(entries[idx].id != entries[i].id);
    }
}

/// The id → live object map of the runtime.
#[derive(Clone, Debug)]
pub struct ObjectTable {
    pub entries: Vec<ObjectEntry>,
}

impl ObjectTable {
    /// Structural invariant: object ids are unique.
    pub open spec fn wf(&self) -> bool {
        forall|i: int, j: int|
            0 <= i < j < self.entries@.len() ==> self.entries@[i].id != self.entries@[j].id
    }

    /// An empty table.
    pub fn new() -> (r: ObjectTable)
        ensures
            r.entries@ == Seq::<ObjectEntry>::empty(),
            r.wf(),
    {
        ObjectTable { entries: Vec::new() }
    }

    /// The index of the entry holding `id`, searching in table order.
    pub fn find_index(&self, id: u32) -> (r: Option<usize>)
        ensures
            match r {
                Some(i) => {
                    &&& i < self.entries@.len()
                    &&& self.entries@[i as int].id == id
                    &&& forall|j: int| 0 <= j < i ==> self.entries@[j].id != id
                },
                None => !table_has(self.entries@, id),
            },
    {
        let mut idx: usize = 0;
        while idx < self.entries.len()
            invariant
                0 <= idx <= self.entries@.len(),
                forall|j: int| 0 <= j < idx ==> self.entries@[j].id != id,
            decreases self.entries@.len() - idx,
        {
            if self.entries[idx].id == id {
                return Some(idx);
            }
            idx = idx + 1;
        }
        None
    }

    /// Add a live object. Fails (returning `false`, table unchanged) if the
    /// id is already taken.
    pub fn register(&mut self, id: u32, interface: String, version: u32) -> (r: bool)
        requires
            old(self).wf(),
        ensures
            final(self).wf(),
            r == !table_has(old(self).entries@, id),
            r ==> final(self).entries@ == old(self).entries@.push(
                ObjectEntry { id, interface, version, leased: false },
            ),
            !r ==> *final(self) == *old(self),
    {
        match self.find_index(id) {
            Some(_) => false,
            None => {
                self.entries.push(ObjectEntry { id, interface, version, leased: false });
                true
            },
        }
    }

    /// Return the lease on the object with the given id, if it is live:
    /// its entry is marked available again, all else is untouched.
    pub fn release(&mut self, id: u32)
        requires
            old(self).wf(),
        ensures
            final(self).wf(),
            match table_index_of(old(self).entries@, id) {
                Some(i) => final(self).entries@ == old(self).entries@.update(
                    i,
                    ObjectEntry { leased: false, ..old(self).entries@[i] },
                ),
                None => *final(self) == *old(self),
            },
    {
        match self.find_index(id) {
            Some(idx) => {
                proof {
                    let i = table_index_of(self.entries@, id)->Some_0;
                    assert(self.entries@[i].id == id);
                    assert(i == idx) by {
                        if i < idx {
                            assert(self.entries@[i].id != id);
                        }
                        if i > idx {
                            assert(self.entries@[i].id == self.entries@[idx as int].id);
                        }
                    }
                }
                let entry = &mut self.entries[idx];
                entry.leased = false;
            },
            None => {},
        }
    }
}

} // verus!
