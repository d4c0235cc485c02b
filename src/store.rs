//! The object store: every object of a document, addressed by number and
//! generation, with the highest number in use.
use vstd::prelude::*;
use std::collections::BTreeMap;
use crate::object::{obj_view, Obj, ObjectId, PdfObject};

verus! {

broadcast use vstd::laws_cmp::group_laws_cmp;

/// The map key of an object: number and generation in one integer.
pub open spec fn key_of(id: ObjectId) -> u64 {
    (id.num as u64 * 65536 + id.gen as u64) as u64
}

pub fn object_key(id: ObjectId) -> (r: u64)
    ensures
        r == key_of(id),
{
    id.num as u64 * 65536 + id.gen as u64
}

proof fn lemma_key_injective(a: ObjectId, b: ObjectId)
    ensures
        key_of(a) == key_of(b) ==> a == b,
{
}

/// The objects of one document.
pub struct ObjectStore {
    pub objects: BTreeMap<u64, PdfObject>,
    pub max_id: u32,
}

impl ObjectStore {
    /// Every object's number is at most `max_id`, so each added object gets
    /// a number no object has.
    pub open spec fn wf(&self) -> bool {
        forall|id: ObjectId| #[trigger] self.obj(id) is Some ==> id.num <= self.max_id
    }

    /// An empty store.
    pub fn new() -> (r: ObjectStore)
        ensures
            r.wf(),
            r.max_id == 0,
            forall|id: ObjectId| r.obj(id) is None,
    {
        ObjectStore { objects: BTreeMap::new(), max_id: 0 }
    }

    /// Puts an object read from a document under its own id, raising
    /// `max_id` to its number where that is higher.
    pub fn insert_loaded(&mut self, id: ObjectId, o: PdfObject)
        requires
            old(self).wf(),
        ensures
            final(self).wf(),
            final(self).max_id == if id.num > old(self).max_id {
                id.num
            } else {
                old(self).max_id
            },
            final(self).obj(id) == Some(obj_view(o)),
            forall|other: ObjectId| other != id ==> final(self).obj(other) == old(self).obj(other),
    {
        if id.num > self.max_id {
            self.max_id = id.num;
        }
        self.objects.insert(object_key(id), o);
        proof {
            assert forall|other: ObjectId| other != id implies self.obj(other) == old(self).obj(
                other,
            ) by {
                lemma_key_injective(other, id);
            }
        }
    }

    /// The value of the object with this id, if there is one.
    pub open spec fn obj(&self, id: ObjectId) -> Option<Obj> {
        if self.objects@.contains_key(key_of(id)) {
            Some(obj_view(self.objects@[key_of(id)]))
        } else {
            None
        }
    }

    /// The object with this id.
    pub fn get(&self, id: ObjectId) -> (r: Option<&PdfObject>)
        ensures
            r matches Some(o) ==> self.obj(id) == Some(obj_view(*o)),
            r is None ==> self.obj(id) is None,
    {
        self.objects.get(&object_key(id))
    }

    /// Adds an object under the next free number, generation 0.
    pub fn add_object(&mut self, o: PdfObject) -> (id: ObjectId)
        requires
            old(self).max_id < u32::MAX,
        ensures
            old(self).wf() ==> final(self).wf(),
            old(self).wf() ==> old(self).obj(id) is None,
            id == (ObjectId { num: (old(self).max_id + 1) as u32, gen: 0 }),
            final(self).max_id == old(self).max_id + 1,
            final(self).obj(id) == Some(obj_view(o)),
            forall|other: ObjectId| other != id ==> final(self).obj(other) == old(self).obj(other),
    {
        self.max_id = self.max_id + 1;
        let id = ObjectId { num: self.max_id, gen: 0 };
        let ghost o_view = obj_view(o);
        self.objects.insert(object_key(id), o);
        proof {
            assert forall|other: ObjectId| other != id implies self.obj(other) == old(self).obj(
                other,
            ) by {
                lemma_key_injective(other, id);
            }
        }
        id
    }

    /// Puts an object under an id, in place of what was there.
    pub fn set_object(&mut self, id: ObjectId, o: PdfObject)
        requires
            id.num <= old(self).max_id,
        ensures
            old(self).wf() ==> final(self).wf(),
            final(self).max_id == old(self).max_id,
            final(self).obj(id) == Some(obj_view(o)),
            forall|other: ObjectId| other != id ==> final(self).obj(other) == old(self).obj(other),
    {
        self.objects.insert(object_key(id), o);
        proof {
            assert forall|other: ObjectId| other != id implies self.obj(other) == old(self).obj(
                other,
            ) by {
                lemma_key_injective(other, id);
            }
        }
    }
}

} // verus!
