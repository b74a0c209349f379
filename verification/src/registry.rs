//! The type registry: an ordered table of entity-type descriptions, keyed by
//! class name, assembled once at startup. Creation by name or by index hands
//! back a fresh, un-parented, un-identified node built from the registered
//! model and default value row.

use vstd::prelude::*;

use crate::attrs::{clone_values, model_like, str_eq, AttrValue, Model};
use crate::object::Object;

verus! {

/// One registered entity type: its class name, attribute metadata, and the
/// default value row a fresh instance starts from.
pub struct ObjectInitializer {
    pub name: String,
    pub model: Model,
    pub defaults: Vec<AttrValue>,
}

impl ObjectInitializer {
    /// The metadata is well-formed and the default row covers every
    /// attribute exactly once.
    pub open spec fn wf(&self) -> bool {
        &&& self.model.wf()
        &&& self.defaults@.len() == self.model.attrs@.len()
    }

    /// Describes one entity type for registration.
    pub fn register_entity(name: String, model: Model, defaults: Vec<AttrValue>) -> (r: Self)
        requires
            model.wf(),
            defaults@.len() == model.attrs@.len(),
        ensures
            r.wf(),
            r.name == name,
            r.model == model,
            r.defaults == defaults,
    {
        Self { name, model, defaults }
    }
}

/// The class-name-to-constructor table.
pub struct Registry {
    pub entries: Vec<ObjectInitializer>,
}

impl Registry {
    /// Every entry is well-formed and class names are pairwise distinct.
    pub open spec fn wf(&self) -> bool {
        &&& forall|k: int| 0 <= k < self.entries@.len() ==> (#[trigger] self.entries@[k]).wf()
        &&& forall|i: int, j: int|
            0 <= i < j < self.entries@.len() ==> self.entries@[i].name@ != self.entries@[j].name@
    }

    /// Whether some entry is registered under `name`.
    pub open spec fn contains_class(&self, name: Seq<char>) -> bool {
        exists|k: int| 0 <= k < self.entries@.len() && self.entries@[k].name@ == name
    }

    /// The position of the entry registered under `name`; meaningful only
    /// when `contains_class` holds, and unique under well-formedness.
    pub open spec fn class_at(&self, name: Seq<char>) -> int {
        choose|k: int| 0 <= k < self.entries@.len() && self.entries@[k].name@ == name
    }

    /// With distinct class names, any position whose entry matches `name` is
    /// the position `class_at` denotes.
    pub proof fn lemma_class_at(&self, name: Seq<char>, k: int)
        requires
            self.wf(),
            0 <= k < self.entries@.len(),
            self.entries@[k].name@ == name,
        ensures
            self.contains_class(name),
            self.class_at(name) == k,
    {
        assert(self.contains_class(name));
        let j = self.class_at(name);
        assert(0 <= j < self.entries@.len() && self.entries@[j].name@ == name);
        if k < j {
            assert(self.entries@[k].name@ != self.entries@[j].name@);
        } else if j < k {
            assert(self.entries@[j].name@ != self.entries@[k].name@);
        }
    }

    /// An empty registry.
    pub fn new() -> (r: Registry)
        ensures
            r.wf(),
            r.entries@.len() == 0,
    {
        Registry { entries: Vec::new() }
    }

    /// Adds one entity type. Registering a name twice is a programming
    /// error, ruled out by the precondition.
    pub fn register(&mut self, init: ObjectInitializer)
        requires
            old(self).wf(),
            init.wf(),
            !old(self).contains_class(init.name@),
        ensures
            final(self).wf(),
            final(self).entries@ == old(self).entries@.push(init),
    {
        self.entries.push(init);
        proof {
            assert forall|i: int, j: int|
                0 <= i < j < self.entries@.len() implies self.entries@[i].name@
                != self.entries@[j].name@ by {
                if j == self.entries@.len() - 1 {
                    assert(!old(self).contains_class(init.name@));
                }
            }
        }
    }

    /// The index of the entry registered under `entity`, if any.
    pub fn get_class_index(&self, entity: &str) -> (r: Option<usize>)
        ensures
            match r {
                Some(i) => i < self.entries@.len() && self.entries@[i as int].name@ == entity@,
                None => !self.contains_class(entity@),
            },
    {
        let key: String = entity.to_owned();
        let mut k: usize = 0;
        while k < self.entries.len()
            invariant
                k <= self.entries@.len(),
                key@ == entity@,
                forall|j: int| 0 <= j < k ==> self.entries@[j].name@ != entity@,
            decreases self.entries@.len() - k,
        {
            if str_eq(&self.entries[k].name, &key) {
                return Some(k);
            }
            k = k + 1;
        }
        None
    }

    /// Builds a fresh instance of the type at `idx`: default values, no
    /// identifier, no parent. Out-of-range indices yield nothing.
    pub fn create_object_by_index(&self, idx: usize) -> (r: Option<Object>)
        requires
            self.wf(),
        ensures
            r is Some <==> idx < self.entries@.len(),
            r matches Some(o) ==> {
                &&& o.wf()
                &&& fresh_instance(o)
                &&& model_like(o.model, self.entries@[idx as int].model)
                &&& o.values@ == self.entries@[idx as int].defaults@
            },
    {
        if idx >= self.entries.len() {
            return None;
        }
        let entry = &self.entries[idx];
        let model = entry.model.duplicate();
        let values = clone_values(&entry.defaults);
        Some(Object::new(model, values))
    }

    /// Builds a fresh instance of the type registered under `entity`.
    pub fn create_object(&self, entity: &str) -> (r: Option<Object>)
        requires
            self.wf(),
        ensures
            r is Some <==> self.contains_class(entity@),
            r matches Some(o) ==> {
                let k = self.class_at(entity@);
                &&& o.wf()
                &&& fresh_instance(o)
                &&& model_like(o.model, self.entries@[k].model)
                &&& o.values@ == self.entries@[k].defaults@
            },
    {
        match self.get_class_index(entity) {
            Some(idx) => {
                proof {
                    self.lemma_class_at(entity@, idx as int);
                }
                self.create_object_by_index(idx)
            },
            None => None,
        }
    }
}

/// A node as construction hands it out: unstamped, live, clean, unbounded,
/// childless and un-parented.
pub open spec fn fresh_instance(o: Object) -> bool {
    &&& o.uid == 0
    &&& o.class_type == crate::object::ClassType::Any
    &&& !o.deleted
    &&& !o.destroying
    &&& !o.dirty
    &&& o.modify_attrs@ == Seq::<u32>::empty()
    &&& o.children@ == Seq::<Option<u64>>::empty()
    &&& o.cap == 0
    &&& o.container_pos == 0
    &&& o.child_num == 0
    &&& o.parent is None
}

} // verus!
