//! The factory (arena): the canonical slot table that owns every live
//! object, maps generation-tagged identifiers to slots, recycles freed
//! slots, and implements immediate and deferred destruction.
//!
//! A handle is a bare `u64` identifier. It resolves if and only if the slot
//! named by its low bits still holds an object stamped with exactly that
//! identifier — the generation check that keeps a stale handle from aliasing
//! a later occupant of the same slot.

use std::collections::VecDeque;

use vstd::prelude::*;

use crate::attrs::model_like;
use crate::ids::{index_of_uid, make_uid, uid_index, uid_serial, SERIAL_MAX, SLOT_LIMIT};
use crate::object::{parent_attached, parent_detached, Object};
use crate::registry::Registry;

verus! {

/// Whether the container has room for one more child: a hole, no bound, or
/// space left under the bound.
pub open spec fn has_free_slot(p: Object) -> bool {
    ||| exists|j: int| 0 <= j < p.children@.len() && p.children@[j] is None
    ||| p.cap == 0
    ||| p.children@.len() < p.cap
}

/// The lowest free child slot: the first hole, or the append position.
pub open spec fn first_free(children: Seq<Option<u64>>) -> int
    decreases children.len(),
{
    if children.len() == 0 {
        0
    } else if children[0] is None {
        0
    } else {
        1 + first_free(children.drop_first())
    }
}

/// A position with only occupied slots below it, and a hole (or the end)
/// at it, is the first free slot.
pub proof fn lemma_first_free_is(children: Seq<Option<u64>>, i: int)
    requires
        0 <= i <= children.len(),
        forall|j: int| 0 <= j < i ==> children[j] is Some,
        i < children.len() ==> children[i] is None,
    ensures
        first_free(children) == i,
    decreases i,
{
    if i == 0 {
    } else {
        assert(children[0] is Some);
        lemma_first_free_is(children.drop_first(), i - 1);
    }
}

/// The first free slot is a position within, or just past, the slot array.
pub proof fn lemma_first_free_bounds(children: Seq<Option<u64>>)
    ensures
        0 <= first_free(children) <= children.len(),
    decreases children.len(),
{
    if children.len() > 0 && !(children[0] is None) {
        lemma_first_free_bounds(children.drop_first());
    }
}

/// Where an attach lands: the requested 1-based slot on a bounded
/// container, otherwise the first free slot.
pub open spec fn insert_index(p: Object, pos: usize) -> int {
    if pos > 0 && p.cap > 0 {
        pos - 1
    } else {
        first_free(p.children@)
    }
}

/// Whether the parent accepts an attach at `pos`: it is not full, and the
/// requested slot — on a bounded container — is within the bound and not
/// occupied; an unpositioned attach needs only a free slot.
pub open spec fn attach_ok(p: Object, pos: usize) -> bool {
    &&& !(p.cap > 0 && p.child_num >= p.cap)
    &&& if pos > 0 && p.cap > 0 {
        pos <= p.cap && (pos > p.children@.len() || p.children@[pos - 1] is None)
    } else {
        has_free_slot(p)
    }
}

/// An unbounded container never refuses an unpositioned attach: a live
/// child can always be added at position 0, however often.
pub proof fn lemma_unbounded_attach_ok(p: Object)
    requires
        p.cap == 0,
    ensures
        attach_ok(p, 0),
{
}

/// A bounded container that has reached its capacity refuses every attach.
pub proof fn lemma_full_container_refuses(p: Object, pos: usize)
    requires
        p.cap > 0,
        p.child_num >= p.cap,
    ensures
        !attach_ok(p, pos),
{
}

/// A death certificate: past position `from`, the deferred queue holds a
/// corpse stamped with `uid`, marked deleted and destroying.
pub open spec fn corpse_parked(from: int, deletes: Seq<Object>, uid: u64) -> bool {
    exists|q: int|
        from <= q < deletes.len() && deletes[q].uid == uid && deletes[q].deleted
            && deletes[q].destroying
}

/// How the teardown may touch a node that survives it: child entries are
/// only ever cleared, never added or replaced; the occupancy count never
/// grows; the recorded position is kept or reset to unattached; the dirty
/// flag only rises; everything else is untouched.
pub open spec fn teardown_touched(pre: Object, post: Object) -> bool {
    &&& post.children@.len() == pre.children@.len()
    &&& forall|j: int|
        0 <= j < post.children@.len() && post.children@[j] is Some ==> post.children@[j]
            == pre.children@[j]
    &&& post.child_num <= pre.child_num
    &&& (post.container_pos == pre.container_pos || post.container_pos == 0)
    &&& (pre.dirty ==> post.dirty)
    &&& post.uid == pre.uid
    &&& post.class_type == pre.class_type
    &&& post.deleted == pre.deleted
    &&& post.destroying == pre.destroying
    &&& post.cap == pre.cap
    &&& post.parent == pre.parent
    &&& post.model == pre.model
    &&& post.values == pre.values
    &&& post.modify_attrs == pre.modify_attrs
}

/// The touched relation chains: a node touched twice is touched once.
pub proof fn lemma_teardown_touched_trans(a: Object, b: Object, c: Object)
    requires
        teardown_touched(a, b),
        teardown_touched(b, c),
    ensures
        teardown_touched(a, c),
{
    assert forall|j: int|
        0 <= j < c.children@.len() && c.children@[j] is Some implies c.children@[j]
            == a.children@[j] by {
        assert(c.children@[j] == b.children@[j]);
    }
}

/// How many arena slots are occupied.
pub open spec fn occupied_slots(s: Seq<Option<Object>>) -> nat
    decreases s.len(),
{
    if s.len() == 0 {
        0
    } else {
        occupied_slots(s.drop_last()) + if s.last() is Some {
            1nat
        } else {
            0nat
        }
    }
}

/// Clearing an occupied slot lowers the occupancy by exactly one.
pub proof fn lemma_occupied_clear(s: Seq<Option<Object>>, i: int)
    requires
        0 <= i < s.len(),
        s[i] is Some,
    ensures
        occupied_slots(s.update(i, None)) + 1 == occupied_slots(s),
    decreases s.len(),
{
    if i == s.len() - 1 {
        assert(s.update(i, None).drop_last() =~= s.drop_last());
        assert(s.update(i, None).last() is None);
        assert(s.last() == s[i]);
    } else {
        assert(s.update(i, None).drop_last() =~= s.drop_last().update(i, None));
        assert(s.update(i, None).last() == s.last());
        lemma_occupied_clear(s.drop_last(), i);
    }
}

/// Occupancy depends only on which slots are occupied.
pub proof fn lemma_occupied_congruent(s1: Seq<Option<Object>>, s2: Seq<Option<Object>>)
    requires
        s1.len() == s2.len(),
        forall|i: int| 0 <= i < s1.len() ==> (s1[i] is Some <==> s2[i] is Some),
    ensures
        occupied_slots(s1) == occupied_slots(s2),
    decreases s1.len(),
{
    if s1.len() > 0 {
        assert(s1.last() == s1[s1.len() - 1]);
        assert(s2.last() == s2[s1.len() - 1]);
        lemma_occupied_congruent(s1.drop_last(), s2.drop_last());
    }
}

/// The identifier the factory's own root object is stamped with:
/// generation 1, slot 0.
pub const OWNER_UID: u64 = 0x1_0000_0000;

/// The slot-based object pool.
pub struct Factory {
    pub registry: Registry,
    pub objects: Vec<Option<Object>>,
    pub free_list: VecDeque<usize>,
    pub deletes: VecDeque<Object>,
    pub used_size: usize,
    pub serial: u64,
}

impl Factory {
    /// Whether `uid` names a live object: its slot is occupied by an object
    /// stamped with exactly this identifier.
    pub open spec fn uid_live(&self, uid: u64) -> bool {
        let i = uid_index(uid) as int;
        &&& i < self.objects@.len()
        &&& self.objects@[i] is Some
        &&& self.objects@[i].unwrap().uid == uid
    }

    /// The live object `uid` names; meaningful only under `uid_live`.
    pub open spec fn obj_of(&self, uid: u64) -> Object {
        self.objects@[uid_index(uid) as int].unwrap()
    }

    /// What a lookup observes: the stamped occupant, or nothing.
    pub open spec fn spec_find(&self, uid: u64) -> Option<Object> {
        if self.uid_live(uid) {
            Some(self.obj_of(uid))
        } else {
            None
        }
    }

    /// The occupant of slot `i`, if any, is well-formed, live, and stamped
    /// with an identifier that leads straight back to slot `i`.
    pub open spec fn slot_wf(&self, i: int) -> bool {
        self.objects@[i] matches Some(o) ==> {
            &&& o.wf()
            &&& uid_index(o.uid) == i
            &&& 1 <= uid_serial(o.uid) <= SERIAL_MAX
            &&& !o.deleted
            &&& !o.destroying
        }
    }

    /// The arena invariant: slots above the high-water mark are empty, the
    /// free list holds distinct, empty, already-allocated slots, and every
    /// occupant is consistently stamped.
    pub open spec fn wf(&self) -> bool {
        &&& 1 <= self.used_size <= self.objects@.len()
        &&& self.used_size <= SLOT_LIMIT + 1
        &&& self.serial <= SERIAL_MAX
        &&& forall|i: int| 0 <= i < self.objects@.len() ==> self.slot_wf(i)
        &&& forall|i: int| self.used_size <= i < self.objects@.len() ==> self.objects@[i] is None
        &&& forall|k: int|
            0 <= k < self.free_list@.len() ==> (#[trigger] self.free_list@[k]) < self.used_size
                && self.objects@[self.free_list@[k] as int] is None
        &&& forall|k1: int, k2: int|
            0 <= k1 < k2 < self.free_list@.len() ==> self.free_list@[k1] != self.free_list@[k2]
        &&& self.registry.wf()
    }

    /// Whether a slot can be handed out without tripping the hard
    /// allocation ceiling; only relevant once the free list is empty.
    pub open spec fn can_allocate(&self) -> bool {
        self.free_list@.len() > 0 || self.used_size <= SLOT_LIMIT
    }

    /// A fresh arena around its root object, which takes slot 0 under the
    /// fixed identifier `OWNER_UID`.
    pub fn new(registry: Registry, owner: Object) -> (f: Factory)
        requires
            registry.wf(),
            owner.wf(),
            !owner.deleted,
            !owner.destroying,
        ensures
            f.wf(),
            f.uid_live(OWNER_UID),
            f.obj_of(OWNER_UID) == (Object { uid: OWNER_UID, ..owner }),
            f.used_size == 1,
            f.serial == 0,
            f.free_list@.len() == 0,
            f.deletes@.len() == 0,
            f.registry == registry,
            forall|uid: u64| uid != OWNER_UID ==> !f.uid_live(uid),
    {
        proof {
            crate::ids::lemma_uid_parts(1, 0);
            assert((1u64 << 32) | 0u64 == 0x1_0000_0000u64) by (bit_vector);
        }
        let mut root = owner;
        root.set_uid(OWNER_UID);
        let ghost stamped: Object = root;
        let mut objects: Vec<Option<Object>> = Vec::new();
        objects.push(Some(root));
        let mut i: usize = 1;
        while i < 16
            invariant
                1 <= i <= 16,
                objects@.len() == i,
                objects@[0] == Some(stamped),
                forall|j: int| 1 <= j < i ==> objects@[j] is None,
            decreases 16 - i,
        {
            objects.push(None);
            i = i + 1;
        }
        let f = Factory {
            registry,
            objects,
            free_list: VecDeque::new(),
            deletes: VecDeque::new(),
            used_size: 1,
            serial: 0,
        };
        proof {
            assert forall|uid: u64| uid != OWNER_UID implies !f.uid_live(uid) by {
                if f.uid_live(uid) {
                    crate::ids::lemma_uid_parts(1, 0);
                    assert(uid_index(uid) < 16);
                    if uid_index(uid) != 0 {
                        assert(f.objects@[uid_index(uid) as int] is None);
                    }
                }
            }
        }
        f
    }

    /// The root object's identifier, while slot 0 still holds it.
    pub fn get_owner(&self) -> (r: Option<u64>)
        requires
            self.wf(),
        ensures
            match r {
                Some(uid) => self.objects@[0] is Some && uid == self.objects@[0].unwrap().uid,
                None => self.objects@[0] is None,
            },
    {
        match &self.objects[0] {
            Some(o) => Some(o.uid),
            None => None,
        }
    }

    /// Looks an identifier up: the exact stamped occupant or nothing. A
    /// handle that outlived its object misses, even when the slot has been
    /// reused, because the occupant's stamp then differs.
    pub fn find(&self, uid: u64) -> (r: Option<&Object>)
        ensures
            match r {
                Some(o) => self.uid_live(uid) && *o == self.obj_of(uid),
                None => !self.uid_live(uid),
            },
            r is Some <==> self.spec_find(uid) is Some,
    {
        let index = index_of_uid(uid) as usize;
        if index >= self.objects.len() {
            return None;
        }
        match &self.objects[index] {
            Some(o) => {
                if o.uid == uid {
                    Some(o)
                } else {
                    None
                }
            },
            None => None,
        }
    }

    /// Creates an object of the registered type `ent`, with a bounded child
    /// capacity if `cap` is nonzero. Fails exactly when the type is
    /// unknown. On success the new identifier carries the advanced
    /// generation — wrapping from the maximum back to 1, never 0 — and a
    /// slot index taken from the free list (most recently freed first) or
    /// freshly allocated.
    pub fn create(&mut self, ent: &str, cap: usize) -> (r: Option<u64>)
        requires
            old(self).wf(),
            old(self).can_allocate(),
        ensures
            final(self).wf(),
            r is Some <==> old(self).registry.contains_class(ent@),
            r is None ==> *final(self) == *old(self),
            r matches Some(uid) ==> {
                let k = old(self).registry.class_at(ent@);
                let o = final(self).obj_of(uid);
                &&& final(self).uid_live(uid)
                &&& !old(self).uid_live(uid)
                &&& uid_serial(uid) == (if old(self).serial >= SERIAL_MAX {
                    1int
                } else {
                    old(self).serial + 1
                })
                &&& final(self).serial == uid_serial(uid)
                &&& uid == crate::ids::spec_make_uid(uid_serial(uid), uid_index(uid))
                &&& o.uid == uid
                &&& o.cap == cap
                &&& !o.deleted
                &&& !o.destroying
                &&& !o.dirty
                &&& o.modify_attrs@ == Seq::<u32>::empty()
                &&& o.children@ == Seq::<Option<u64>>::empty()
                &&& o.child_num == 0
                &&& o.container_pos == 0
                &&& o.parent is None
                &&& o.class_type == crate::object::ClassType::Any
                &&& model_like(o.model, old(self).registry.entries@[k].model)
                &&& o.values@ == old(self).registry.entries@[k].defaults@
                &&& forall|i: int|
                    0 <= i < old(self).objects@.len() && i != uid_index(uid) as int
                        ==> final(self).objects@[i] == old(self).objects@[i]
                &&& final(self).objects@.len() >= old(self).objects@.len()
                &&& (if old(self).free_list@.len() > 0 {
                    &&& uid_index(uid) == old(self).free_list@.last()
                    &&& final(self).free_list@ == old(self).free_list@.drop_last()
                    &&& final(self).used_size == old(self).used_size
                } else {
                    &&& uid_index(uid) == old(self).used_size
                    &&& final(self).free_list@ == old(self).free_list@
                    &&& final(self).used_size == old(self).used_size + 1
                })
                &&& final(self).deletes == old(self).deletes
                &&& final(self).registry == old(self).registry
            },
    {
        let new_obj = self.registry.create_object(ent);
        if new_obj.is_none() {
            return None;
        }
        let mut obj = new_obj.unwrap();
        if cap > 0 {
            obj.cap = cap;
        }
        let index: usize;
        if self.free_list.len() == 0 {
            if self.used_size == self.objects.len() {
                // double the slot table, up to the hard ceiling
                let target = self.used_size * 2;
                while self.objects.len() < target
                    invariant
                        old(self).used_size <= self.objects@.len() <= target,
                        old(self).objects@.len() <= self.objects@.len(),
                        forall|j: int|
                            0 <= j < old(self).objects@.len() ==> self.objects@[j] == old(self).objects@[j],
                        forall|j: int|
                            old(self).objects@.len() <= j < self.objects@.len()
                                ==> self.objects@[j] is None,
                        *self == (Factory { objects: self.objects, ..*old(self) }),
                    decreases target - self.objects@.len(),
                {
                    self.objects.push(None);
                }
            }
            index = self.used_size;
            self.used_size = self.used_size + 1;
        } else {
            let popped = self.free_list.pop_back();
            index = popped.unwrap();
        }
        if self.serial >= SERIAL_MAX {
            self.serial = 1;
        } else {
            self.serial = self.serial + 1;
        }
        let uid = make_uid(self.serial, index as u64);
        obj.set_uid(uid);
        proof {
            if index as int >= old(self).used_size && (index as int) < old(self).objects@.len() {
                assert(old(self).objects@[index as int] is None);
            }
        }
        self.objects[index] = Some(obj);
        proof {
            let i = index as int;
            assert forall|j: int| 0 <= j < self.objects@.len() implies self.slot_wf(j) by {
                if j != i {
                    if j < old(self).objects@.len() {
                        assert(old(self).slot_wf(j));
                        assert(self.objects@[j] == old(self).objects@[j]);
                    } else {
                        assert(self.objects@[j] is None);
                    }
                }
            }
            assert forall|k: int| 0 <= k < self.free_list@.len() implies (
            #[trigger] self.free_list@[k]) < self.used_size && self.objects@[self.free_list@[k] as int]
                is None by {
                assert(self.free_list@[k] == old(self).free_list@[k]);
                assert(old(self).free_list@[k] < old(self).used_size);
                assert(old(self).objects@[old(self).free_list@[k] as int] is None);
            }
            assert forall|j: int|
                self.used_size <= j < self.objects@.len() implies self.objects@[j] is None by {
                if j < old(self).objects@.len() {
                    assert(old(self).objects@[j] is None);
                }
            }
        }
        Some(uid)
    }

    /// Immediate destruction: releases the slot and drops the object. A
    /// handle that no longer resolves — already destroyed, or never valid —
    /// is a tolerated no-op.
    pub fn destroy(&mut self, uid: u64)
        requires
            old(self).wf(),
        ensures
            final(self).wf(),
            !old(self).uid_live(uid) ==> *final(self) == *old(self),
            old(self).uid_live(uid) ==> {
                &&& final(self).objects@ == old(self).objects@.update(
                    uid_index(uid) as int,
                    None,
                )
                &&& final(self).free_list@ == old(self).free_list@.push(uid_index(uid) as usize)
                &&& final(self).deletes == old(self).deletes
                &&& final(self).used_size == old(self).used_size
                &&& final(self).serial == old(self).serial
                &&& final(self).registry == old(self).registry
                &&& !final(self).uid_live(uid)
            },
    {
        let index = index_of_uid(uid) as usize;
        if index >= self.objects.len() {
            return ;
        }
        let matches_slot = match &self.objects[index] {
            Some(o) => o.uid == uid,
            None => false,
        };
        if !matches_slot {
            return ;
        }
        let _released = self.objects[index].take();
        self.free_list.push_back(index);
        proof {
            self.lemma_release_slot(*old(self), uid);
        }
    }

    /// Deferred destruction: releases the slot exactly as `destroy` does,
    /// but parks the object — marked deleted — in the pending queue until
    /// `clear_deleted` drains it. A handle that no longer resolves is a
    /// tolerated no-op.
    pub fn delete(&mut self, uid: u64)
        requires
            old(self).wf(),
        ensures
            final(self).wf(),
            !old(self).uid_live(uid) ==> *final(self) == *old(self),
            old(self).uid_live(uid) ==> {
                &&& final(self).objects@ == old(self).objects@.update(
                    uid_index(uid) as int,
                    None,
                )
                &&& final(self).free_list@ == old(self).free_list@.push(uid_index(uid) as usize)
                &&& final(self).deletes@ == old(self).deletes@.push(
                    Object { deleted: true, ..old(self).obj_of(uid) },
                )
                &&& final(self).used_size == old(self).used_size
                &&& final(self).serial == old(self).serial
                &&& final(self).registry == old(self).registry
                &&& !final(self).uid_live(uid)
            },
    {
        let index = index_of_uid(uid) as usize;
        if index >= self.objects.len() {
            return ;
        }
        let matches_slot = match &self.objects[index] {
            Some(o) => o.uid == uid,
            None => false,
        };
        if !matches_slot {
            return ;
        }
        let released = self.objects[index].take();
        match released {
            Some(mut o) => {
                o.delete();
                self.deletes.push_back(o);
            },
            None => {},
        }
        self.free_list.push_back(index);
        proof {
            self.lemma_release_slot(*old(self), uid);
        }
    }

    /// Drains the deferred-delete queue, finally dropping each object.
    pub fn clear_deleted(&mut self)
        requires
            old(self).wf(),
        ensures
            final(self).wf(),
            final(self).deletes@.len() == 0,
            *final(self) == (Factory { deletes: final(self).deletes, ..*old(self) }),
    {
        if self.deletes.len() == 0 {
            return ;
        }
        while self.deletes.len() > 0
            invariant
                old(self).wf(),
                *self == (Factory { deletes: self.deletes, ..*old(self) }),
            decreases self.deletes@.len(),
        {
            let _dropped = self.deletes.pop_front();
        }
        proof {
            lemma_wf_ignores_deletes(*old(self), *self);
        }
    }

    /// Clearing a live slot and pushing its index onto the free list keeps
    /// the arena invariant: the index was in use, below the high-water
    /// mark, and absent from the free list.
    proof fn lemma_release_slot(&self, pre: Factory, uid: u64)
        requires
            pre.wf(),
            pre.uid_live(uid),
            self.objects@ == pre.objects@.update(uid_index(uid) as int, None),
            self.free_list@ == pre.free_list@.push(uid_index(uid) as usize),
            self.used_size == pre.used_size,
            self.serial == pre.serial,
            self.registry == pre.registry,
        ensures
            self.wf(),
    {
        let i = uid_index(uid) as int;
        assert(pre.objects@[i] is Some);
        if i >= pre.used_size {
            assert(pre.objects@[i] is None);
        }
        assert forall|j: int| 0 <= j < self.objects@.len() implies self.slot_wf(j) by {
            if j != i {
                assert(pre.slot_wf(j));
                assert(self.objects@[j] == pre.objects@[j]);
            }
        }
        assert forall|k: int|
            0 <= k < self.free_list@.len() implies (#[trigger] self.free_list@[k])
                < self.used_size && self.objects@[self.free_list@[k] as int] is None by {
            if k < pre.free_list@.len() {
                assert(self.free_list@[k] == pre.free_list@[k]);
                assert(pre.objects@[pre.free_list@[k] as int] is None);
            } else {
                assert(self.free_list@[k] == i);
            }
        }
        assert forall|k1: int, k2: int|
            0 <= k1 < k2 < self.free_list@.len() implies self.free_list@[k1]
                != self.free_list@[k2] by {
            if k2 == self.free_list@.len() - 1 {
                assert(pre.objects@[pre.free_list@[k1] as int] is None);
                assert(pre.objects@[i] is Some);
            }
        }
        assert forall|j: int|
            self.used_size <= j < self.objects@.len() implies self.objects@[j] is None by {
            assert(pre.objects@[j] is None);
        }
    }

    /// The containment tree's representation invariant, locally at one
    /// parent: every occupied child slot holds a live node — not the
    /// parent itself — whose recorded position and parent back-reference
    /// point straight back at this slot. Attach and detach preserve it; a
    /// bare `destroy`/`delete` of an attached child breaks it, leaving a
    /// stale entry.
    pub open spec fn children_consistent(&self, parent: u64) -> bool {
        forall|j: int|
            0 <= j < self.obj_of(parent).children@.len() ==> ((#[trigger] self.obj_of(
                parent,
            ).children@[j]) matches Some(c) ==> {
                &&& c != parent
                &&& self.uid_live(c)
                &&& self.obj_of(c).container_pos == j + 1
                &&& self.obj_of(c).parent == Some(parent)
            })
    }

    /// Whether an attach of `child` at `pos` under `parent` will succeed:
    /// the child must be live (a stale or deleted handle fails) and the
    /// parent must accept the position.
    pub open spec fn add_ok(&self, parent: u64, child: u64, pos: usize) -> bool {
        &&& self.uid_live(child)
        &&& attach_ok(self.obj_of(parent), pos)
    }

    /// Attaches a live, unattached child into the parent's slot array — at
    /// the requested 1-based position on a bounded container, otherwise at
    /// the first free slot — recording the child's position and parent
    /// back-reference and marking the parent dirty. Fails, changing
    /// nothing, when the child no longer resolves, the parent is full, or
    /// the requested slot is out of bounds or occupied.
    pub fn add_child(&mut self, parent: u64, child: u64, pos: usize) -> (r: bool)
        requires
            old(self).wf(),
            old(self).uid_live(parent),
            parent != child,
            old(self).uid_live(child) ==> old(self).obj_of(child).container_pos == 0,
            old(self).obj_of(parent).children@.len() < usize::MAX,
        ensures
            final(self).wf(),
            r == old(self).add_ok(parent, child, pos),
            !r ==> *final(self) == *old(self),
            r ==> ({
                let p0 = old(self).obj_of(parent);
                let c0 = old(self).obj_of(child);
                let idx = insert_index(p0, pos);
                &&& final(self).uid_live(parent)
                &&& final(self).uid_live(child)
                &&& parent_attached(p0, final(self).obj_of(parent), child, idx)
                &&& final(self).obj_of(child) == (Object {
                    container_pos: (idx + 1) as usize,
                    parent: Some(parent),
                    ..c0
                })
                &&& forall|u: u64| #[trigger] final(self).uid_live(u) <==> old(self).uid_live(u)
                &&& forall|u: u64|
                    #[trigger] old(self).uid_live(u) && u != parent && u != child ==> final(self).obj_of(u) == old(self).obj_of(u)
                &&& final(self).objects@.len() == old(self).objects@.len()
                &&& final(self).free_list == old(self).free_list
                &&& final(self).deletes == old(self).deletes
                &&& final(self).used_size == old(self).used_size
                &&& final(self).serial == old(self).serial
                &&& final(self).registry == old(self).registry
                &&& (old(self).children_consistent(parent) ==> final(self).children_consistent(
                    parent,
                ))
            }),
    {
        if self.find(child).is_none() {
            // deleted or stale child handles are refused
            return false;
        }
        let pslot = index_of_uid(parent) as usize;
        let decision: Option<usize> = match &self.objects[pslot] {
            Some(p) => {
                if p.cap > 0 && p.child_num >= p.cap {
                    None
                } else if pos > 0 && p.cap > 0 {
                    if pos > p.cap {
                        None
                    } else if pos <= p.children.len() {
                        if p.children[pos - 1].is_none() {
                            Some(pos - 1)
                        } else {
                            None
                        }
                    } else {
                        Some(pos - 1)
                    }
                } else {
                    p.find_child_container_free_index()
                }
            },
            None => None,
        };
        let idx = match decision {
            Some(i) => i,
            None => {
                return false;
            },
        };
        proof {
            assert(self.slot_wf(pslot as int));
            if !(pos > 0 && old(self).obj_of(parent).cap > 0) {
                lemma_first_free_is(old(self).obj_of(parent).children@, idx as int);
            }
        }
        if let Some(p) = &mut self.objects[pslot] {
            p.attach_child_slot(idx, child);
        }
        proof {
            lemma_update_slot_wf(*old(self), *self, pslot as int);
        }
        let ghost mid = *self;
        let cslot = index_of_uid(child) as usize;
        if let Some(c) = &mut self.objects[cslot] {
            c.set_container_pos(idx + 1);
            c.set_parent(parent);
        }
        proof {
            assert(mid.slot_wf(cslot as int));
            lemma_update_slot_wf(mid, *self, cslot as int);
            assert(old(self).obj_of(child).uid == child);
            if old(self).children_consistent(parent) {
                let p0 = old(self).obj_of(parent);
                let p1 = self.obj_of(parent);
                let chosen = insert_index(p0, pos);
                assert(parent_attached(p0, p1, child, chosen));
                assert forall|q: int|
                    0 <= q < p1.children@.len() implies ((#[trigger] p1.children@[q]) matches Some(
                        c,
                    ) ==> {
                        &&& c != parent
                        &&& self.uid_live(c)
                        &&& self.obj_of(c).container_pos == q + 1
                        &&& self.obj_of(c).parent == Some(parent)
                    }) by {
                    if p1.children@[q] is Some && q != chosen {
                        let c = p1.children@[q].unwrap();
                        assert(q < p0.children@.len() && p0.children@[q] == p1.children@[q]);
                        assert(old(self).uid_live(c) && old(self).obj_of(c).container_pos == q
                            + 1);
                        assert(c != child);
                        assert(self.obj_of(c) == old(self).obj_of(c));
                    }
                }
            }
        }
        true
    }

    /// Detaches the occupant of the parent's slot `index`, clearing the
    /// slot, marking the parent dirty and resetting the occupant's
    /// recorded position. Fails, changing nothing, when the slot is out of
    /// range or already empty.
    pub fn remove_child_by_index(&mut self, parent: u64, index: usize) -> (r: bool)
        requires
            old(self).wf(),
            old(self).uid_live(parent),
        ensures
            final(self).wf(),
            ({
                let p0 = old(self).obj_of(parent);
                &&& r == (index < p0.children@.len() && p0.children@[index as int] is Some)
                &&& !r ==> *final(self) == *old(self)
                &&& r ==> ({
                    let cuid = p0.children@[index as int].unwrap();
                    &&& final(self).uid_live(parent)
                    &&& parent_detached(p0, final(self).obj_of(parent), index as int)
                    &&& final(self).obj_of(parent).container_pos == (if cuid == parent {
                        0int
                    } else {
                        p0.container_pos as int
                    })
                    &&& (cuid != parent && old(self).uid_live(cuid)) ==> final(self).obj_of(cuid)
                        == (Object { container_pos: 0, ..old(self).obj_of(cuid) })
                    &&& forall|u: u64| #[trigger] final(self).uid_live(u) <==> old(self).uid_live(u)
                    &&& forall|u: u64|
                        #[trigger] old(self).uid_live(u) && u != parent && u != cuid ==> final(self).obj_of(u) == old(self).obj_of(u)
                    &&& final(self).objects@.len() == old(self).objects@.len()
                    &&& final(self).free_list == old(self).free_list
                    &&& final(self).deletes == old(self).deletes
                    &&& final(self).used_size == old(self).used_size
                    &&& final(self).serial == old(self).serial
                    &&& final(self).registry == old(self).registry
                    &&& (old(self).children_consistent(parent) ==> final(self).children_consistent(parent))
                })
            }),
    {
        let pslot = index_of_uid(parent) as usize;
        let occupied = match &self.objects[pslot] {
            Some(p) => index < p.children.len() && p.children[index].is_some(),
            None => false,
        };
        if !occupied {
            return false;
        }
        proof {
            assert(self.slot_wf(pslot as int));
        }
        let mut cuid: u64 = 0;
        if let Some(p) = &mut self.objects[pslot] {
            cuid = p.detach_child_slot(index);
        }
        proof {
            lemma_update_slot_wf(*old(self), *self, pslot as int);
        }
        let ghost mid = *self;
        let cslot = index_of_uid(cuid) as usize;
        let mut child_found = false;
        if cslot < self.objects.len() {
            child_found = match &self.objects[cslot] {
                Some(c) => c.uid == cuid,
                None => false,
            };
        }
        if child_found {
            proof {
                assert(mid.slot_wf(cslot as int));
            }
            if let Some(c) = &mut self.objects[cslot] {
                c.set_container_pos(0);
            }
            proof {
                lemma_update_slot_wf(mid, *self, cslot as int);
            }
        }
        proof {
            if cuid != parent && old(self).uid_live(cuid) {
                assert(old(self).obj_of(cuid).uid == cuid);
            }
            if old(self).children_consistent(parent) {
                let p0 = old(self).obj_of(parent);
                let p1 = self.obj_of(parent);
                assert(parent_detached(p0, p1, index as int));
                assert(old(self).obj_of(cuid).container_pos == index + 1);
                assert forall|q: int|
                    0 <= q < p1.children@.len() implies ((#[trigger] p1.children@[q]) matches Some(
                        c,
                    ) ==> {
                        &&& c != parent
                        &&& self.uid_live(c)
                        &&& self.obj_of(c).container_pos == q + 1
                        &&& self.obj_of(c).parent == Some(parent)
                    }) by {
                    if p1.children@[q] is Some {
                        let c = p1.children@[q].unwrap();
                        assert(q != index as int && p1.children@[q] == p0.children@[q]);
                        assert(old(self).uid_live(c) && old(self).obj_of(c).container_pos == q
                            + 1);
                        assert(c != cuid);
                        assert(self.obj_of(c) == old(self).obj_of(c));
                    }
                }
            }
        }
        true
    }

    /// Detaches `child` from the parent after validating that it really
    /// occupies the slot its recorded position claims; otherwise fails,
    /// changing nothing.
    pub fn remove_child(&mut self, parent: u64, child: u64) -> (r: bool)
        requires
            old(self).wf(),
            old(self).uid_live(parent),
            old(self).uid_live(child),
            old(self).obj_of(child).container_pos > 0,
        ensures
            final(self).wf(),
            ({
                let p0 = old(self).obj_of(parent);
                let idx = old(self).obj_of(child).container_pos - 1;
                &&& r == (idx < p0.children@.len() && p0.children@[idx] == Some(child))
                &&& !r ==> *final(self) == *old(self)
                &&& r ==> ({
                    &&& final(self).uid_live(parent)
                    &&& parent_detached(p0, final(self).obj_of(parent), idx)
                    &&& final(self).obj_of(parent).container_pos == (if child == parent {
                        0int
                    } else {
                        p0.container_pos as int
                    })
                    &&& child != parent ==> final(self).obj_of(child) == (Object {
                        container_pos: 0,
                        ..old(self).obj_of(child)
                    })
                    &&& forall|u: u64| #[trigger] final(self).uid_live(u) <==> old(self).uid_live(u)
                    &&& forall|u: u64|
                        #[trigger] old(self).uid_live(u) && u != parent && u != child ==> final(self).obj_of(u) == old(self).obj_of(u)
                    &&& final(self).objects@.len() == old(self).objects@.len()
                    &&& final(self).free_list == old(self).free_list
                    &&& final(self).deletes == old(self).deletes
                    &&& final(self).used_size == old(self).used_size
                    &&& final(self).serial == old(self).serial
                    &&& final(self).registry == old(self).registry
                    &&& (old(self).children_consistent(parent) ==> final(self).children_consistent(parent))
                })
            }),
    {
        let cpos = match self.find(child) {
            Some(c) => c.get_container_pos(),
            None => 0,
        };
        let index = cpos - 1;
        let pslot = index_of_uid(parent) as usize;
        let claimed = match &self.objects[pslot] {
            Some(p) => {
                index < p.children.len() && match p.children[index] {
                    Some(occupant) => occupant == child,
                    None => false,
                }
            },
            None => false,
        };
        if !claimed {
            return false;
        }
        self.remove_child_by_index(parent, index)
    }

    /// The identifier of the node's parent, provided both the node and its
    /// recorded parent are still live.
    pub fn get_parent(&self, uid: u64) -> (r: Option<u64>)
        requires
            self.wf(),
        ensures
            match r {
                Some(p) => self.uid_live(uid) && self.obj_of(uid).parent == Some(p)
                    && self.uid_live(p),
                None => !self.uid_live(uid) || self.obj_of(uid).parent is None || !self.uid_live(
                    self.obj_of(uid).parent.unwrap(),
                ),
            },
    {
        let puid = match self.find(uid) {
            Some(o) => o.parent,
            None => None,
        };
        match puid {
            Some(p) => {
                if self.find(p).is_some() {
                    Some(p)
                } else {
                    None
                }
            },
            None => None,
        }
    }

    /// Whether `parent` is the live parent of the live node `child`.
    pub fn check_parent(&self, child: u64, parent: u64) -> (r: bool)
        requires
            self.wf(),
        ensures
            r == (self.uid_live(child) && self.obj_of(child).parent == Some(parent)
                && self.uid_live(parent)),
    {
        match self.get_parent(child) {
            Some(p) => p == parent,
            None => false,
        }
    }

    /// Creates an object of type `ent` and attaches it under `parent` in
    /// one step. Fails when the type is unknown or the parent refuses the
    /// position; a freshly created object whose attachment fails is
    /// destroyed on the spot, never leaked.
    pub fn create_child(&mut self, parent: u64, ent: &str, cap: usize, pos: usize) -> (r: Option<
        u64,
    >)
        requires
            old(self).wf(),
            old(self).uid_live(parent),
            old(self).can_allocate(),
            old(self).obj_of(parent).children@.len() < usize::MAX,
        ensures
            final(self).wf(),
            r is Some <==> (old(self).registry.contains_class(ent@) && attach_ok(
                old(self).obj_of(parent),
                pos,
            )),
            r is None ==> forall|u: u64|
                #[trigger] old(self).uid_live(u) ==> final(self).uid_live(u) && final(self).obj_of(u) == old(self).obj_of(u),
            r is None ==> forall|u: u64|
                #[trigger] final(self).uid_live(u) ==> old(self).uid_live(u),
            r matches Some(uid) ==> ({
                let p0 = old(self).obj_of(parent);
                let k = old(self).registry.class_at(ent@);
                let idx = insert_index(p0, pos);
                let c = final(self).obj_of(uid);
                &&& final(self).uid_live(uid)
                &&& !old(self).uid_live(uid)
                &&& uid != parent
                &&& c.container_pos == idx + 1
                &&& c.parent == Some(parent)
                &&& c.cap == cap
                &&& !c.deleted
                &&& !c.dirty
                &&& c.child_num == 0
                &&& c.children@.len() == 0
                &&& c.modify_attrs@ == Seq::<u32>::empty()
                &&& model_like(c.model, old(self).registry.entries@[k].model)
                &&& c.values@ == old(self).registry.entries@[k].defaults@
                &&& final(self).uid_live(parent)
                &&& parent_attached(p0, final(self).obj_of(parent), uid, idx)
                &&& forall|u: u64|
                    #[trigger] old(self).uid_live(u) && u != parent ==> final(self).uid_live(u)
                        && final(self).obj_of(u) == old(self).obj_of(u)
                &&& final(self).registry == old(self).registry
                &&& (old(self).children_consistent(parent) ==> final(self).children_consistent(parent))
            }),
    {
        let created = self.create(ent, cap);
        let uid = match created {
            Some(uid) => uid,
            None => {
                return None;
            },
        };
        let ghost mid: Factory = *self;
        proof {
            let i = uid_index(uid) as int;
            let p = uid_index(parent) as int;
            if old(self).free_list@.len() > 0 {
                assert(old(self).objects@[old(self).free_list@[old(self).free_list@.len()
                    - 1] as int] is None);
            } else {
                if p >= old(self).used_size {
                    assert(old(self).objects@[p] is None);
                }
            }
            assert(i != p);
            assert(mid.obj_of(parent) == old(self).obj_of(parent));
            assert forall|u: u64| #[trigger] old(self).uid_live(u) implies mid.uid_live(u)
                && mid.obj_of(u) == old(self).obj_of(u) by {
                let s = uid_index(u) as int;
                if s == i {
                    if old(self).free_list@.len() > 0 {
                        assert(old(self).objects@[i] is None);
                    } else {
                        if i < old(self).objects@.len() && i >= old(self).used_size {
                            assert(old(self).objects@[i] is None);
                        }
                    }
                }
            }
        }
        if !self.add_child(parent, uid, pos) {
            self.destroy(uid);
            proof {
                let i = uid_index(uid) as int;
                assert forall|u: u64| #[trigger] old(self).uid_live(u) implies self.uid_live(u)
                    && self.obj_of(u) == old(self).obj_of(u) by {
                    let s = uid_index(u) as int;
                    if s == i {
                        assert(mid.obj_of(uid).uid == uid);
                    }
                }
                assert forall|u: u64| #[trigger] self.uid_live(u) implies old(self).uid_live(
                    u,
                ) by {
                    let s = uid_index(u) as int;
                    if s != i {
                        assert(self.objects@[s] == old(self).objects@[s]);
                    }
                }
            }
            return None;
        }
        proof {
            lemma_first_free_bounds(old(self).obj_of(parent).children@);
            assert forall|u: u64|
                #[trigger] old(self).uid_live(u) && u != parent implies self.uid_live(u)
                    && self.obj_of(u) == old(self).obj_of(u) by {
                assert(mid.uid_live(u));
                if u != uid {
                    assert(self.obj_of(u) == mid.obj_of(u));
                }
            }
            if old(self).children_consistent(parent) {
                assert forall|q: int|
                    0 <= q < mid.obj_of(parent).children@.len() implies ((#[trigger] mid.obj_of(
                        parent,
                    ).children@[q]) matches Some(c) ==> {
                        &&& c != parent
                        &&& mid.uid_live(c)
                        &&& mid.obj_of(c).container_pos == q + 1
                        &&& mid.obj_of(c).parent == Some(parent)
                    }) by {
                    if mid.obj_of(parent).children@[q] is Some {
                        let c = mid.obj_of(parent).children@[q].unwrap();
                        assert(old(self).uid_live(c));
                        assert(mid.uid_live(c) && mid.obj_of(c) == old(self).obj_of(c));
                    }
                }
                assert(mid.children_consistent(parent));
            }
        }
        Some(uid)
    }

    /// Whether the enumeration keeps a child entry: an unfiltered query
    /// keeps every entry; a filtered one keeps entries that resolve to a
    /// live object of the requested class.
    pub open spec fn child_kept(&self, cuid: u64, filter: crate::object::ClassType) -> bool {
        ||| filter is Any
        ||| (self.uid_live(cuid) && self.obj_of(cuid).class_type == filter)
    }

    /// The identifiers the enumeration yields for the given child slots, in
    /// slot order.
    pub open spec fn spec_id_list(
        &self,
        children: Seq<Option<u64>>,
        filter: crate::object::ClassType,
    ) -> Seq<u64>
        decreases children.len(),
    {
        if children.len() == 0 {
            Seq::empty()
        } else {
            let rest = self.spec_id_list(children.drop_last(), filter);
            match children.last() {
                Some(c) => if self.child_kept(c, filter) {
                    rest.push(c)
                } else {
                    rest
                },
                None => rest,
            }
        }
    }

    /// The identifiers of the parent's children, in slot order, optionally
    /// restricted to one class; `Any` keeps every entry. A class-filtered
    /// query keeps only entries that still resolve, so a stale entry — left
    /// behind when an attached child was released through a bare
    /// `destroy`/`delete` without a detach — appears in the unfiltered
    /// listing but in no filtered one.
    pub fn get_child_id_list(&self, parent: u64, class_type: crate::object::ClassType) -> (r: Vec<
        u64,
    >)
        requires
            self.wf(),
            self.uid_live(parent),
        ensures
            r@ == self.spec_id_list(self.obj_of(parent).children@, class_type),
    {
        let pslot = index_of_uid(parent) as usize;
        let n = match &self.objects[pslot] {
            Some(p) => p.children.len(),
            None => 0,
        };
        let mut result: Vec<u64> = Vec::new();
        let ghost children = self.obj_of(parent).children@;
        let mut i: usize = 0;
        while i < n
            invariant
                self.wf(),
                self.uid_live(parent),
                pslot == uid_index(parent) as int,
                children == self.obj_of(parent).children@,
                n == children.len(),
                i <= n,
                result@ == self.spec_id_list(children.subrange(0, i as int), class_type),
            decreases n - i,
        {
            let entry = match &self.objects[pslot] {
                Some(p) => p.children[i],
                None => None,
            };
            match entry {
                Some(c) => {
                    match class_type {
                        crate::object::ClassType::Any => {
                            result.push(c);
                        },
                        _ => {
                            match self.find(c) {
                                Some(o) => {
                                    if o.get_class_type() == class_type {
                                        result.push(c);
                                    }
                                },
                                None => {},
                            }
                        },
                    }
                },
                None => {},
            }
            proof {
                assert(children.subrange(0, i + 1).drop_last() =~= children.subrange(0, i as int));
                assert(children.subrange(0, i + 1).last() == children[i as int]);
            }
            i = i + 1;
        }
        proof {
            assert(children.subrange(0, n as int) =~= children);
        }
        result
    }

    /// Sets an attribute, by stable index, on the live object `uid` names;
    /// the object's own setter decides the outcome: a stale handle, an
    /// out-of-range index or a type mismatch fails, an unchanged value is a
    /// no-op, and a genuine change runs the dirty/modify tracking.
    pub fn set_attr_by_index(&mut self, uid: u64, index: u32, val: crate::attrs::AttrValue) -> (
        r: bool)
        requires
            old(self).wf(),
        ensures
            final(self).wf(),
            !old(self).uid_live(uid) ==> !r && *final(self) == *old(self),
            old(self).uid_live(uid) ==> ({
                let o0 = old(self).obj_of(uid);
                &&& r == (index < o0.values@.len() && crate::attrs::same_kind(
                    o0.values@[index as int],
                    val,
                ))
                &&& final(self).uid_live(uid)
                &&& (r && !crate::attrs::value_eq(o0.values@[index as int], val))
                    ==> crate::object::sets_attr(o0, final(self).obj_of(uid), index, val)
                &&& !(r && !crate::attrs::value_eq(o0.values@[index as int], val)) ==> final(self).obj_of(uid) == o0
                &&& forall|u: u64| #[trigger] final(self).uid_live(u) <==> old(self).uid_live(u)
                &&& forall|u: u64|
                    #[trigger] old(self).uid_live(u) && u != uid ==> final(self).obj_of(u) == old(self).obj_of(u)
                &&& final(self).free_list == old(self).free_list
                &&& final(self).deletes == old(self).deletes
                &&& final(self).used_size == old(self).used_size
                &&& final(self).serial == old(self).serial
                &&& final(self).registry == old(self).registry
            }),
    {
        if self.find(uid).is_none() {
            return false;
        }
        let uslot = index_of_uid(uid) as usize;
        proof {
            assert(self.slot_wf(uslot as int));
        }
        let mut r = false;
        if let Some(o) = &mut self.objects[uslot] {
            r = o.set_attr_by_index(index, val);
        }
        proof {
            lemma_update_slot_wf(*old(self), *self, uslot as int);
        }
        r
    }

    /// Sets an attribute, by name, on the live object `uid` names; fails
    /// when the handle is stale or the type does not declare the name, and
    /// otherwise behaves as the set-by-index operation at that name's
    /// stable index.
    pub fn set_attr_by_name(&mut self, uid: u64, attr: &str, val: crate::attrs::AttrValue) -> (
        r: bool)
        requires
            old(self).wf(),
        ensures
            final(self).wf(),
            !old(self).uid_live(uid) ==> !r && *final(self) == *old(self),
            old(self).uid_live(uid) ==> ({
                let o0 = old(self).obj_of(uid);
                &&& !crate::attrs::contains_name(o0.model.attrs@, attr@) ==> !r && final(self).obj_of(uid) == o0
                &&& final(self).uid_live(uid)
                &&& forall|u: u64| #[trigger] final(self).uid_live(u) <==> old(self).uid_live(u)
                &&& forall|u: u64|
                    #[trigger] old(self).uid_live(u) && u != uid ==> final(self).obj_of(u) == old(self).obj_of(u)
                &&& crate::attrs::contains_name(o0.model.attrs@, attr@) ==> ({
                    let i = crate::attrs::name_at(o0.model.attrs@, attr@);
                    &&& r == crate::attrs::same_kind(o0.values@[i], val)
                    &&& (r && !crate::attrs::value_eq(o0.values@[i], val))
                        ==> crate::object::sets_attr(o0, final(self).obj_of(uid), i as u32, val)
                    &&& !(r && !crate::attrs::value_eq(o0.values@[i], val)) ==> final(self).obj_of(uid) == o0
                })
                &&& final(self).free_list == old(self).free_list
                &&& final(self).deletes == old(self).deletes
                &&& final(self).used_size == old(self).used_size
                &&& final(self).serial == old(self).serial
                &&& final(self).registry == old(self).registry
            }),
    {
        if self.find(uid).is_none() {
            return false;
        }
        let uslot = index_of_uid(uid) as usize;
        proof {
            assert(self.slot_wf(uslot as int));
        }
        let mut r = false;
        if let Some(o) = &mut self.objects[uslot] {
            r = o.set_attr_by_name(attr, val);
        }
        proof {
            lemma_update_slot_wf(*old(self), *self, uslot as int);
        }
        r
    }

    /// Releases a live node's slot through the deferred path, recording on
    /// the parked corpse that it went through the teardown.
    fn delete_destroying(&mut self, uid: u64)
        requires
            old(self).wf(),
            old(self).uid_live(uid),
        ensures
            final(self).wf(),
            final(self).objects@ == old(self).objects@.update(uid_index(uid) as int, None),
            !final(self).uid_live(uid),
            final(self).used_size == old(self).used_size,
            final(self).serial == old(self).serial,
            final(self).registry == old(self).registry,
            final(self).deletes@ == old(self).deletes@.push(
                Object { deleted: true, destroying: true, ..old(self).obj_of(uid) },
            ),
            forall|u: u64|
                #[trigger] final(self).uid_live(u) ==> old(self).uid_live(u) && u != uid,
            forall|u: u64|
                #[trigger] old(self).uid_live(u) && u != uid ==> final(self).uid_live(u) && final(self).obj_of(u) == old(self).obj_of(u),
    {
        let index = index_of_uid(uid) as usize;
        let released = self.objects[index].take();
        match released {
            Some(mut o) => {
                o.destroying = true;
                o.deleted = true;
                self.deletes.push_back(o);
            },
            None => {},
        }
        self.free_list.push_back(index);
        proof {
            self.lemma_release_slot(*old(self), uid);
            assert forall|u: u64|
                #[trigger] old(self).uid_live(u) && u != uid implies self.uid_live(u)
                    && self.obj_of(u) == old(self).obj_of(u) by {
                if uid_index(u) as int == index as int {
                    assert(old(self).obj_of(u).uid == u);
                    assert(old(self).obj_of(uid).uid == uid);
                }
            }
        }
    }

    /// Tears down every node named in `pending` and, transitively, every
    /// child reached from one: each node is detached from its recorded
    /// parent where the link is consistent, its children are queued, and it
    /// is released through the deferred path, leaving a parked corpse.
    /// Identifiers that no longer resolve are skipped, which also tolerates
    /// re-entrant entries. Survivors are touched only as the teardown may:
    /// child entries cleared, positions reset, dirty raised.
    #[verifier::rlimit(100)]
    fn destroy_batch(&mut self, pending: Vec<u64>)
        requires
            old(self).wf(),
        ensures
            final(self).wf(),
            forall|u: u64| #[trigger] final(self).uid_live(u) ==> old(self).uid_live(u),
            forall|k: int|
                0 <= k < pending@.len() ==> !final(self).uid_live(#[trigger] pending@[k]),
            final(self).used_size == old(self).used_size,
            final(self).serial == old(self).serial,
            final(self).registry == old(self).registry,
            final(self).deletes@.len() >= old(self).deletes@.len(),
            final(self).deletes@.subrange(0, old(self).deletes@.len() as int) == old(self).deletes@,
            forall|u: u64|
                #[trigger] final(self).uid_live(u) ==> teardown_touched(
                    old(self).obj_of(u),
                    final(self).obj_of(u),
                ),
            forall|u: u64|
                #[trigger] old(self).uid_live(u) && !final(self).uid_live(u) ==> corpse_parked(
                    old(self).deletes@.len() as int,
                    final(self).deletes@,
                    u,
                ),
    {
        let ghost seeds = pending@;
        let mut stack = pending;
        proof {
            assert(self.deletes@.subrange(0, self.deletes@.len() as int) =~= self.deletes@);
        }
        while stack.len() > 0
            invariant
                self.wf(),
                forall|u: u64| #[trigger] self.uid_live(u) ==> old(self).uid_live(u),
                forall|k: int|
                    0 <= k < seeds.len() ==> !self.uid_live(#[trigger] seeds[k])
                        || stack@.contains(seeds[k]),
                self.used_size == old(self).used_size,
                self.serial == old(self).serial,
                self.registry == old(self).registry,
                self.deletes@.len() >= old(self).deletes@.len(),
                self.deletes@.subrange(0, old(self).deletes@.len() as int) == old(self).deletes@,
                forall|u: u64|
                    #[trigger] self.uid_live(u) ==> teardown_touched(
                        old(self).obj_of(u),
                        self.obj_of(u),
                    ),
                forall|u: u64|
                    #[trigger] old(self).uid_live(u) && !self.uid_live(u) ==> corpse_parked(
                        old(self).deletes@.len() as int,
                        self.deletes@,
                        u,
                    ),
            decreases occupied_slots(self.objects@), stack@.len(),
        {
            let ghost pre_stack = stack@;
            let uid = stack.pop().unwrap();
            let resolved: Option<(usize, Option<u64>)> = match self.find(uid) {
                Some(o) => Some((o.get_container_pos(), o.parent)),
                None => None,
            };
            match resolved {
                None => {
                    proof {
                        assert forall|k: int|
                            0 <= k < seeds.len() implies !self.uid_live(#[trigger] seeds[k])
                                || stack@.contains(seeds[k]) by {
                            if pre_stack.contains(seeds[k]) && !stack@.contains(seeds[k]) {
                                let w = choose|w: int|
                                    0 <= w < pre_stack.len() && pre_stack[w] == seeds[k];
                                if w < pre_stack.len() - 1 {
                                    assert(stack@[w] == pre_stack[w]);
                                    assert(stack@.contains(seeds[k]));
                                } else {
                                    assert(seeds[k] == uid);
                                }
                            }
                        }
                    }
                },
                Some((cpos, cparent)) => {
                    let ghost before = *self;
                    // detach from the recorded parent where the link holds
                    if cpos > 0 {
                        match cparent {
                            Some(puid) => {
                                if self.find(puid).is_some() {
                                    let _detached = self.remove_child(puid, uid);
                                }
                            },
                            None => {},
                        }
                    }
                    proof {
                        assert(self.uid_live(uid));
                        assert forall|s: int|
                            0 <= s < before.objects@.len() implies (before.objects@[s] is Some
                                <==> self.objects@[s] is Some) by {
                            if before.objects@[s] is Some {
                                let w = before.objects@[s].unwrap().uid;
                                assert(before.slot_wf(s));
                                assert(before.uid_live(w));
                                assert(self.uid_live(w));
                            }
                            if self.objects@[s] is Some {
                                let w = self.objects@[s].unwrap().uid;
                                assert(self.slot_wf(s));
                                assert(self.uid_live(w));
                                assert(before.uid_live(w));
                            }
                        }
                        lemma_occupied_congruent(before.objects@, self.objects@);
                        assert forall|u: u64| #[trigger] self.uid_live(u) implies teardown_touched(
                            old(self).obj_of(u),
                            self.obj_of(u),
                        ) by {
                            assert(before.uid_live(u));
                            assert(teardown_touched(old(self).obj_of(u), before.obj_of(u)));
                            if self.obj_of(u) != before.obj_of(u) {
                                assert(teardown_touched(before.obj_of(u), self.obj_of(u)));
                            }
                            lemma_teardown_touched_trans(
                                old(self).obj_of(u),
                                before.obj_of(u),
                                self.obj_of(u),
                            );
                        }
                    }
                    // queue the children for teardown
                    let uslot = index_of_uid(uid) as usize;
                    let n = match &self.objects[uslot] {
                        Some(o) => o.children.len(),
                        None => 0,
                    };
                    let ghost mid_f = *self;
                    let ghost mid_stack = stack@;
                    let mut j: usize = 0;
                    while j < n
                        invariant
                            *self == mid_f,
                            self.wf(),
                            self.uid_live(uid),
                            uslot == uid_index(uid) as int,
                            n <= self.obj_of(uid).children@.len(),
                            j <= n,
                            forall|x: u64|
                                #[trigger] mid_stack.contains(x) ==> stack@.contains(x),
                        decreases n - j,
                    {
                        let entry = match &self.objects[uslot] {
                            Some(o) => o.children[j],
                            None => None,
                        };
                        let ghost st = stack@;
                        match entry {
                            Some(c) => {
                                stack.push(c);
                                proof {
                                    assert forall|x: u64|
                                        #[trigger] st.contains(x) implies stack@.contains(x) by {
                                        let w = choose|w: int|
                                            0 <= w < st.len() && st[w] == x;
                                        assert(stack@[w] == x);
                                    }
                                }
                            },
                            None => {},
                        }
                        j = j + 1;
                    }
                    // release the node itself
                    self.delete_destroying(uid);
                    proof {
                        lemma_occupied_clear(mid_f.objects@, uslot as int);
                        assert forall|k: int|
                            0 <= k < seeds.len() implies !self.uid_live(#[trigger] seeds[k])
                                || stack@.contains(seeds[k]) by {
                            if pre_stack.contains(seeds[k]) && !stack@.contains(seeds[k]) {
                                let w = choose|w: int|
                                    0 <= w < pre_stack.len() && pre_stack[w] == seeds[k];
                                if w < pre_stack.len() - 1 {
                                    assert(mid_stack[w] == pre_stack[w]);
                                    assert(mid_stack.contains(seeds[k]));
                                    assert(stack@.contains(seeds[k]));
                                } else {
                                    assert(seeds[k] == uid);
                                }
                            }
                        }
                        assert(self.deletes@.subrange(0, old(self).deletes@.len() as int) =~= old(self).deletes@);
                        assert forall|u: u64| #[trigger] self.uid_live(u) implies teardown_touched(
                            old(self).obj_of(u),
                            self.obj_of(u),
                        ) by {
                            assert(mid_f.uid_live(u));
                            assert(self.obj_of(u) == mid_f.obj_of(u));
                            assert(teardown_touched(old(self).obj_of(u), mid_f.obj_of(u)));
                        }
                        assert forall|u: u64|
                            #[trigger] old(self).uid_live(u) && !self.uid_live(u) implies
                            corpse_parked(
                                old(self).deletes@.len() as int,
                                self.deletes@,
                                u,
                            ) by {
                            if u == uid || !mid_f.uid_live(u) {
                                if u == uid && mid_f.uid_live(u) {
                                    let q = mid_f.deletes@.len() as int;
                                    assert(self.deletes@[q].uid == uid && self.deletes@[q].deleted
                                        && self.deletes@[q].destroying);
                                } else {
                                    assert(corpse_parked(
                                        old(self).deletes@.len() as int,
                                        mid_f.deletes@,
                                        u,
                                    ));
                                    let q = choose|q: int|
                                        old(self).deletes@.len() <= q < mid_f.deletes@.len()
                                            && mid_f.deletes@[q].uid == u
                                            && mid_f.deletes@[q].deleted
                                            && mid_f.deletes@[q].destroying;
                                    assert(self.deletes@[q] == mid_f.deletes@[q]);
                                }
                            } else {
                                assert(self.uid_live(u));
                            }
                        }
                    }
                },
            }
        }
    }

    /// Destroys one node and, recursively, its whole subtree: the node is
    /// detached from its parent if the recorded link holds, its children —
    /// seeded along with it, mirroring the recursive order — and every
    /// further reached descendant are torn down, and each released node
    /// leaves a parked corpse in the deferred queue. A handle that no
    /// longer resolves is a tolerated no-op.
    pub fn destroy_child(&mut self, child: u64)
        requires
            old(self).wf(),
        ensures
            final(self).wf(),
            !final(self).uid_live(child),
            !old(self).uid_live(child) ==> *final(self) == *old(self),
            forall|u: u64| #[trigger] final(self).uid_live(u) ==> old(self).uid_live(u),
            final(self).used_size == old(self).used_size,
            final(self).serial == old(self).serial,
            final(self).registry == old(self).registry,
            final(self).deletes@.len() >= old(self).deletes@.len(),
            final(self).deletes@.subrange(0, old(self).deletes@.len() as int) == old(self).deletes@,
            forall|u: u64|
                #[trigger] final(self).uid_live(u) ==> teardown_touched(
                    old(self).obj_of(u),
                    final(self).obj_of(u),
                ),
            forall|u: u64|
                #[trigger] old(self).uid_live(u) && !final(self).uid_live(u) ==> corpse_parked(
                    old(self).deletes@.len() as int,
                    final(self).deletes@,
                    u,
                ),
            old(self).uid_live(child) ==> corpse_parked(
                old(self).deletes@.len() as int,
                final(self).deletes@,
                child,
            ),
            old(self).uid_live(child) ==> forall|j: int|
                0 <= j < old(self).obj_of(child).children@.len() ==> ((#[trigger] old(self).obj_of(child).children@[j]) matches Some(c) ==> !final(self).uid_live(c)),
            old(self).uid_live(child) ==> forall|puid: u64|
                ({
                    let c0 = old(self).obj_of(child);
                    (c0.parent == Some(puid) && c0.container_pos > 0 && puid != child && old(self).uid_live(puid) && c0.container_pos - 1 < old(self).obj_of(
                        puid,
                    ).children@.len() && old(self).obj_of(puid).children@[c0.container_pos - 1]
                        == Some(child) && #[trigger] final(self).uid_live(puid)) ==> final(self).obj_of(puid).children@[c0.container_pos - 1] is None
                }),
    {
        let info = match self.find(child) {
            Some(o) => Some((o.get_container_pos(), o.parent)),
            None => None,
        };
        let (cpos, cparent) = match info {
            Some(pair) => pair,
            None => {
                // a handle that no longer resolves: tolerated no-op
                return ;
            },
        };
        // detach from the recorded parent where the link holds
        if cpos > 0 {
            match cparent {
                Some(puid) => {
                    if self.find(puid).is_some() {
                        let _detached = self.remove_child(puid, child);
                    }
                },
                None => {},
            }
        }
        let ghost mid: Factory = *self;
        proof {
            assert(self.uid_live(child));
            assert forall|u: u64| #[trigger] self.uid_live(u) implies old(self).uid_live(u)
                && teardown_touched(old(self).obj_of(u), self.obj_of(u)) by {
                assert(old(self).uid_live(u));
            }
        }
        // seed the node and its current children, so the whole first level
        // goes down with it
        let cslot = index_of_uid(child) as usize;
        let n = match &self.objects[cslot] {
            Some(o) => o.children.len(),
            None => 0,
        };
        let mut seeds: Vec<u64> = Vec::new();
        seeds.push(child);
        let mut j: usize = 0;
        while j < n
            invariant
                *self == mid,
                self.wf(),
                self.uid_live(child),
                cslot == uid_index(child) as int,
                n == self.obj_of(child).children@.len(),
                j <= n,
                seeds@.len() >= 1,
                seeds@[0] == child,
                forall|q: int|
                    0 <= q < j ==> ((#[trigger] self.obj_of(child).children@[q]) matches Some(c)
                        ==> seeds@.contains(c)),
            decreases n - j,
        {
            let entry = match &self.objects[cslot] {
                Some(o) => o.children[j],
                None => None,
            };
            let ghost st = seeds@;
            match entry {
                Some(c) => {
                    seeds.push(c);
                    proof {
                        assert forall|x: u64| #[trigger] st.contains(x) implies seeds@.contains(
                            x,
                        ) by {
                            let w = choose|w: int| 0 <= w < st.len() && st[w] == x;
                            assert(seeds@[w] == x);
                        }
                        assert(seeds@[seeds@.len() - 1] == c);
                    }
                },
                None => {},
            }
            j = j + 1;
        }
        let ghost seed_view = seeds@;
        self.destroy_batch(seeds);
        proof {
            assert(!self.uid_live(seed_view[0]));
            assert forall|u: u64| #[trigger] self.uid_live(u) implies teardown_touched(
                old(self).obj_of(u),
                self.obj_of(u),
            ) by {
                assert(mid.uid_live(u));
                lemma_teardown_touched_trans(old(self).obj_of(u), mid.obj_of(u), self.obj_of(u));
            }
            assert forall|jj: int|
                0 <= jj < old(self).obj_of(child).children@.len() implies ((#[trigger] old(self).obj_of(child).children@[jj]) matches Some(c) ==> !self.uid_live(c)) by {
                if old(self).obj_of(child).children@[jj] is Some {
                    let c = old(self).obj_of(child).children@[jj].unwrap();
                    if mid.obj_of(child).children@[jj] == old(self).obj_of(child).children@[jj] {
                        assert(seed_view.contains(c));
                        let k = choose|k: int| 0 <= k < seed_view.len() && seed_view[k] == c;
                        assert(!self.uid_live(seed_view[k]));
                    } else {
                        // a self-parented node: the detach cleared exactly
                        // the slot holding the node itself
                        assert(c == child);
                        assert(!self.uid_live(seed_view[0]));
                    }
                }
            }
            assert forall|u: u64|
                #[trigger] old(self).uid_live(u) && !self.uid_live(u) implies corpse_parked(
                old(self).deletes@.len() as int,
                self.deletes@,
                u,
            ) by {
                assert(mid.uid_live(u));
            }
        }
    }

    /// Destroys every child of `parent` and, recursively, their subtrees;
    /// the parent itself survives (unless a cycle leads the teardown back
    /// to it). Each occupant is first detached — which empties the
    /// parent's slot array when every link is consistent — then seeded
    /// along with its own children, mirroring the recursive order, and torn
    /// down with its subtree; each released node leaves a parked corpse.
    #[verifier::rlimit(50)]
    pub fn destroy_children(&mut self, parent: u64)
        requires
            old(self).wf(),
            old(self).uid_live(parent),
        ensures
            final(self).wf(),
            forall|u: u64| #[trigger] final(self).uid_live(u) ==> old(self).uid_live(u),
            forall|j: int|
                0 <= j < old(self).obj_of(parent).children@.len() ==> ((#[trigger] old(self).obj_of(parent).children@[j]) matches Some(c) ==> !final(self).uid_live(c)),
            forall|j: int, m: int|
                #![trigger old(self).obj_of(old(self).obj_of(parent).children@[j].unwrap()).children@[m]]
                ({
                    let centry = old(self).obj_of(parent).children@[j];
                    (0 <= j < old(self).obj_of(parent).children@.len() && centry is Some
                        && old(self).uid_live(centry.unwrap()) && centry.unwrap() != parent && 0
                        <= m < old(self).obj_of(centry.unwrap()).children@.len() && old(self).obj_of(
                        centry.unwrap(),
                    ).children@[m] is Some) ==> !final(self).uid_live(
                        old(self).obj_of(centry.unwrap()).children@[m].unwrap(),
                    )
                }),
            final(self).used_size == old(self).used_size,
            final(self).serial == old(self).serial,
            final(self).registry == old(self).registry,
            final(self).deletes@.len() >= old(self).deletes@.len(),
            final(self).deletes@.subrange(0, old(self).deletes@.len() as int) == old(self).deletes@,
            forall|u: u64|
                #[trigger] final(self).uid_live(u) ==> teardown_touched(
                    old(self).obj_of(u),
                    final(self).obj_of(u),
                ),
            forall|u: u64|
                #[trigger] old(self).uid_live(u) && !final(self).uid_live(u) ==> corpse_parked(
                    old(self).deletes@.len() as int,
                    final(self).deletes@,
                    u,
                ),
            old(self).children_consistent(parent) && final(self).uid_live(parent) ==> ({
                &&& final(self).obj_of(parent).child_num == 0
                &&& forall|q: int|
                    0 <= q < final(self).obj_of(parent).children@.len() ==> final(self).obj_of(
                        parent,
                    ).children@[q] is None
            }),
    {
        let ghost cons = old(self).children_consistent(parent);
        let pslot = index_of_uid(parent) as usize;
        let n = match &self.objects[pslot] {
            Some(p) => p.children.len(),
            None => 0,
        };
        let mut seeds: Vec<u64> = Vec::new();
        let mut j: usize = 0;
        while j < n
            invariant
                self.wf(),
                self.uid_live(parent),
                pslot == uid_index(parent) as int,
                n == self.obj_of(parent).children@.len(),
                n == old(self).obj_of(parent).children@.len(),
                j <= n,
                cons == old(self).children_consistent(parent),
                forall|u: u64| #[trigger] self.uid_live(u) <==> old(self).uid_live(u),
                forall|u: u64|
                    #[trigger] self.uid_live(u) ==> teardown_touched(
                        old(self).obj_of(u),
                        self.obj_of(u),
                    ),
                self.deletes == old(self).deletes,
                self.used_size == old(self).used_size,
                self.serial == old(self).serial,
                self.registry == old(self).registry,
                forall|q: int|
                    j <= q < n ==> self.obj_of(parent).children@[q] == old(self).obj_of(
                        parent,
                    ).children@[q],
                forall|q: int|
                    0 <= q < j ==> ((#[trigger] old(self).obj_of(parent).children@[q]) matches Some(
                        c,
                    ) ==> seeds@.contains(c)),
                cons ==> forall|q: int|
                    0 <= q < j ==> self.obj_of(parent).children@[q] is None,
                cons ==> forall|q: int|
                    j <= q < n ==> ((#[trigger] old(self).obj_of(parent).children@[q]) matches Some(
                        c,
                    ) ==> self.uid_live(c) && self.obj_of(c) == old(self).obj_of(c)),
                forall|u: u64|
                    #[trigger] self.uid_live(u) && u != parent ==> self.obj_of(u).children == old(self).obj_of(u).children,
                forall|q: int, m: int|
                    #![trigger old(self).obj_of(old(self).obj_of(parent).children@[q].unwrap()).children@[m]]
                    ({
                        let centry = old(self).obj_of(parent).children@[q];
                        (0 <= q < j && centry is Some && old(self).uid_live(centry.unwrap())
                            && centry.unwrap() != parent && 0 <= m < old(self).obj_of(
                            centry.unwrap(),
                        ).children@.len() && old(self).obj_of(centry.unwrap()).children@[m]
                            is Some) ==> seeds@.contains(
                            old(self).obj_of(centry.unwrap()).children@[m].unwrap(),
                        )
                    }),
            decreases n - j,
        {
            let ghost before = *self;
            let entry = match &self.objects[pslot] {
                Some(p) => p.children[j],
                None => None,
            };
            let ghost st = seeds@;
            match entry {
                Some(c) => {
                    seeds.push(c);
                    proof {
                        assert forall|x: u64| #[trigger] st.contains(x) implies seeds@.contains(
                            x,
                        ) by {
                            let w = choose|w: int| 0 <= w < st.len() && st[w] == x;
                            assert(seeds@[w] == x);
                        }
                        assert(seeds@[seeds@.len() - 1] == c);
                    }
                    let ghost after_push = seeds@;
                    // detach where the recorded link points back at this slot
                    let link_ok = match self.find(c) {
                        Some(o) => o.get_container_pos() == j + 1 && (match o.parent {
                            Some(p) => p == parent,
                            None => false,
                        }),
                        None => false,
                    };
                    if link_ok {
                        let _detached = self.remove_child(parent, c);
                    }
                    // seed the child's own children too: the second level
                    // goes down with its parent
                    if c != parent && self.find(c).is_some() {
                        let cslot2 = index_of_uid(c) as usize;
                        let n2 = match &self.objects[cslot2] {
                            Some(o) => o.children.len(),
                            None => 0,
                        };
                        let ghost inner_f = *self;
                        let mut m: usize = 0;
                        while m < n2
                            invariant
                                *self == inner_f,
                                self.wf(),
                                self.uid_live(c),
                                c != parent,
                                cslot2 == uid_index(c) as int,
                                n2 == self.obj_of(c).children@.len(),
                                m <= n2,
                                forall|x: u64|
                                    #[trigger] after_push.contains(x) ==> seeds@.contains(x),
                                forall|mm: int|
                                    0 <= mm < m ==> ((#[trigger] self.obj_of(c).children@[mm]) matches Some(
                                        g,
                                    ) ==> seeds@.contains(g)),
                            decreases n2 - m,
                        {
                            let entry2 = match &self.objects[cslot2] {
                                Some(o) => o.children[m],
                                None => None,
                            };
                            let ghost st2 = seeds@;
                            match entry2 {
                                Some(g) => {
                                    seeds.push(g);
                                    proof {
                                        assert forall|x: u64|
                                            #[trigger] st2.contains(x) implies seeds@.contains(
                                            x,
                                        ) by {
                                            let w = choose|w: int|
                                                0 <= w < st2.len() && st2[w] == x;
                                            assert(seeds@[w] == x);
                                        }
                                        assert(seeds@[seeds@.len() - 1] == g);
                                    }
                                },
                                None => {},
                            }
                            m = m + 1;
                        }
                    }
                    proof {
                        assert forall|x: u64| #[trigger] after_push.contains(x) implies
                            seeds@.contains(x) by {}
                        assert forall|x: u64| #[trigger] st.contains(x) implies seeds@.contains(
                            x,
                        ) by {
                            assert(after_push.contains(x));
                        }
                        assert(after_push[after_push.len() - 1] == c);
                        assert(after_push.contains(c));
                        assert(seeds@.contains(c));
                        assert forall|u: u64| #[trigger] self.uid_live(u) implies teardown_touched(
                            old(self).obj_of(u),
                            self.obj_of(u),
                        ) by {
                            assert(before.uid_live(u));
                            assert(teardown_touched(old(self).obj_of(u), before.obj_of(u)));
                            if self.obj_of(u) != before.obj_of(u) {
                                assert(teardown_touched(before.obj_of(u), self.obj_of(u)));
                            }
                            lemma_teardown_touched_trans(
                                old(self).obj_of(u),
                                before.obj_of(u),
                                self.obj_of(u),
                            );
                        }
                        if cons {
                            assert(before.obj_of(c).container_pos == j + 1);
                            assert forall|q: int|
                                j + 1 <= q < n implies ((#[trigger] old(self).obj_of(
                                parent,
                            ).children@[q]) matches Some(cq) ==> self.uid_live(cq) && self.obj_of(
                                cq,
                            ) == old(self).obj_of(cq)) by {
                                if old(self).obj_of(parent).children@[q] is Some {
                                    let cq = old(self).obj_of(parent).children@[q].unwrap();
                                    assert(before.uid_live(cq) && before.obj_of(cq) == old(self).obj_of(cq));
                                    assert(cq != parent && cq != c);
                                }
                            }
                        }
                    }
                },
                None => {},
            }
            j = j + 1;
        }
        proof {
            if cons {
                assert forall|q: int|
                    0 <= q < self.obj_of(parent).children@.len() implies self.obj_of(
                    parent,
                ).children@[q] is None by {}
                crate::object::lemma_count_some_zero(self.obj_of(parent).children@);
                assert(self.slot_wf(pslot as int));
            }
        }
        let ghost mid: Factory = *self;
        let ghost seed_view = seeds@;
        self.destroy_batch(seeds);
        proof {
            assert forall|j2: int|
                0 <= j2 < old(self).obj_of(parent).children@.len() implies ((#[trigger] old(self).obj_of(parent).children@[j2]) matches Some(c) ==> !self.uid_live(c)) by {
                if old(self).obj_of(parent).children@[j2] is Some {
                    let c = old(self).obj_of(parent).children@[j2].unwrap();
                    assert(seed_view.contains(c));
                    let k = choose|k: int| 0 <= k < seed_view.len() && seed_view[k] == c;
                    assert(!self.uid_live(seed_view[k]));
                }
            }
            assert forall|u: u64| #[trigger] self.uid_live(u) implies teardown_touched(
                old(self).obj_of(u),
                self.obj_of(u),
            ) by {
                assert(mid.uid_live(u));
                lemma_teardown_touched_trans(old(self).obj_of(u), mid.obj_of(u), self.obj_of(u));
            }
            assert forall|u: u64|
                #[trigger] old(self).uid_live(u) && !self.uid_live(u) implies corpse_parked(
                old(self).deletes@.len() as int,
                self.deletes@,
                u,
            ) by {
                assert(mid.uid_live(u));
            }
            assert forall|j2: int, m2: int|
                #![trigger old(self).obj_of(old(self).obj_of(parent).children@[j2].unwrap()).children@[m2]]
                ({
                    let centry = old(self).obj_of(parent).children@[j2];
                    (0 <= j2 < old(self).obj_of(parent).children@.len() && centry is Some
                        && old(self).uid_live(centry.unwrap()) && centry.unwrap() != parent && 0
                        <= m2 < old(self).obj_of(centry.unwrap()).children@.len() && old(self).obj_of(centry.unwrap()).children@[m2] is Some) ==> !self.uid_live(
                        old(self).obj_of(centry.unwrap()).children@[m2].unwrap(),
                    )
                }) by {
                let centry = old(self).obj_of(parent).children@[j2];
                if 0 <= j2 < old(self).obj_of(parent).children@.len() && centry is Some {
                    let c = centry.unwrap();
                    if old(self).uid_live(c) && c != parent && 0 <= m2 < old(self).obj_of(
                        c,
                    ).children@.len() && old(self).obj_of(c).children@[m2] is Some {
                        let g = old(self).obj_of(c).children@[m2].unwrap();
                        assert(seed_view.contains(g));
                        let k = choose|k: int| 0 <= k < seed_view.len() && seed_view[k] == g;
                        assert(!self.uid_live(seed_view[k]));
                    }
                }
            }
            if cons && self.uid_live(parent) {
                assert(teardown_touched(mid.obj_of(parent), self.obj_of(parent)));
                assert forall|q: int|
                    0 <= q < self.obj_of(parent).children@.len() implies self.obj_of(
                    parent,
                ).children@[q] is None by {
                    if self.obj_of(parent).children@[q] is Some {
                        assert(self.obj_of(parent).children@[q] == mid.obj_of(
                            parent,
                        ).children@[q]);
                    }
                }
            }
        }
    }

    /// Destroys `target`, which must record a parent, after validating that
    /// `parent` really is that live parent: the target and its whole
    /// subtree are torn down as `destroy_child` does, each releasing a
    /// parked corpse. A wrong parent changes nothing.
    pub fn destroy_object(&mut self, parent: u64, target: u64)
        requires
            old(self).wf(),
            old(self).uid_live(target),
            old(self).obj_of(target).parent is Some,
        ensures
            final(self).wf(),
            forall|u: u64| #[trigger] final(self).uid_live(u) ==> old(self).uid_live(u),
            !(old(self).obj_of(target).parent == Some(parent) && old(self).uid_live(parent))
                ==> *final(self) == *old(self),
            final(self).used_size == old(self).used_size,
            final(self).serial == old(self).serial,
            final(self).registry == old(self).registry,
            forall|u: u64|
                #[trigger] final(self).uid_live(u) ==> teardown_touched(
                    old(self).obj_of(u),
                    final(self).obj_of(u),
                ),
            (old(self).obj_of(target).parent == Some(parent) && old(self).uid_live(parent))
                ==> ({
                &&& !final(self).uid_live(target)
                &&& corpse_parked(
                    old(self).deletes@.len() as int,
                    final(self).deletes@,
                    target,
                )
                &&& final(self).deletes@.subrange(0, old(self).deletes@.len() as int) == old(self).deletes@
                &&& forall|j: int|
                    0 <= j < old(self).obj_of(target).children@.len() ==> ((#[trigger] old(self).obj_of(target).children@[j]) matches Some(c) ==> !final(self).uid_live(c))
            }),
    {
        if self.check_parent(target, parent) {
            self.destroy_child(target);
        } else {
            proof {
                assert forall|u: u64| #[trigger] self.uid_live(u) implies teardown_touched(
                    self.obj_of(u),
                    self.obj_of(u),
                ) by {}
            }
        }
    }

    /// Destroys `this`, which must record a parent, through that parent —
    /// provided the recorded parent is still live: the node and its whole
    /// subtree are torn down as `destroy_child` does. A dead parent
    /// changes nothing.
    pub fn destroy_self(&mut self, this: u64)
        requires
            old(self).wf(),
            old(self).uid_live(this),
            old(self).obj_of(this).parent is Some,
        ensures
            final(self).wf(),
            forall|u: u64| #[trigger] final(self).uid_live(u) ==> old(self).uid_live(u),
            !old(self).uid_live(old(self).obj_of(this).parent.unwrap()) ==> *final(self) == *old(self),
            final(self).used_size == old(self).used_size,
            final(self).serial == old(self).serial,
            final(self).registry == old(self).registry,
            forall|u: u64|
                #[trigger] final(self).uid_live(u) ==> teardown_touched(
                    old(self).obj_of(u),
                    final(self).obj_of(u),
                ),
            old(self).uid_live(old(self).obj_of(this).parent.unwrap()) ==> ({
                &&& !final(self).uid_live(this)
                &&& corpse_parked(old(self).deletes@.len() as int, final(self).deletes@, this)
                &&& final(self).deletes@.subrange(0, old(self).deletes@.len() as int) == old(self).deletes@
                &&& forall|j: int|
                    0 <= j < old(self).obj_of(this).children@.len() ==> ((#[trigger] old(self).obj_of(this).children@[j]) matches Some(c) ==> !final(self).uid_live(c))
            }),
    {
        match self.get_parent(this) {
            Some(_p) => {
                self.destroy_child(this);
            },
            None => {
                proof {
                    assert forall|u: u64| #[trigger] self.uid_live(u) implies teardown_touched(
                        self.obj_of(u),
                        self.obj_of(u),
                    ) by {}
                }
            },
        }
    }
}

/// Rewriting one occupied slot in place — keeping the occupant's stamp and
/// lifecycle flags — preserves the arena invariant.
proof fn lemma_update_slot_wf(pre: Factory, post: Factory, slot: int)
    requires
        pre.wf(),
        0 <= slot < pre.objects@.len(),
        post.objects@.len() == pre.objects@.len(),
        forall|j: int|
            0 <= j < pre.objects@.len() && j != slot ==> post.objects@[j] == pre.objects@[j],
        pre.objects@[slot] is Some,
        post.objects@[slot] is Some,
        post.objects@[slot].unwrap().uid == pre.objects@[slot].unwrap().uid,
        post.objects@[slot].unwrap().deleted == pre.objects@[slot].unwrap().deleted,
        post.objects@[slot].unwrap().destroying == pre.objects@[slot].unwrap().destroying,
        post.objects@[slot].unwrap().wf(),
        post.free_list == pre.free_list,
        post.used_size == pre.used_size,
        post.serial == pre.serial,
        post.registry == pre.registry,
    ensures
        post.wf(),
        forall|u: u64| #[trigger] post.uid_live(u) <==> pre.uid_live(u),
        forall|u: u64|
            #[trigger] pre.uid_live(u) && u != pre.objects@[slot].unwrap().uid ==> post.obj_of(u)
                == pre.obj_of(u),
{
    assert forall|i: int| 0 <= i < post.objects@.len() implies post.slot_wf(i) by {
        assert(pre.slot_wf(i));
        assert(pre.slot_wf(slot));
    }
    assert forall|i: int|
        post.used_size <= i < post.objects@.len() implies post.objects@[i] is None by {
        assert(pre.objects@[i] is None);
    }
    assert forall|k: int|
        0 <= k < post.free_list@.len() implies (#[trigger] post.free_list@[k]) < post.used_size
            && post.objects@[post.free_list@[k] as int] is None by {
        assert(pre.objects@[pre.free_list@[k] as int] is None);
    }
    assert forall|u: u64| #[trigger] post.uid_live(u) <==> pre.uid_live(u) by {
        if uid_index(u) as int == slot {
            assert(post.objects@[slot].unwrap().uid == pre.objects@[slot].unwrap().uid);
        }
    }
    assert forall|u: u64|
        #[trigger] pre.uid_live(u) && u != pre.objects@[slot].unwrap().uid implies post.obj_of(u)
            == pre.obj_of(u) by {
        if uid_index(u) as int == slot {
            assert(pre.obj_of(u).uid == u);
        }
    }
}

/// The arena invariant does not constrain the deferred-delete queue: two
/// factories equal everywhere else are equally well-formed.
pub proof fn lemma_wf_ignores_deletes(a: Factory, b: Factory)
    requires
        a.wf(),
        b.objects == a.objects,
        b.free_list == a.free_list,
        b.used_size == a.used_size,
        b.serial == a.serial,
        b.registry == a.registry,
    ensures
        b.wf(),
{
    assert forall|i: int| 0 <= i < b.objects@.len() implies b.slot_wf(i) by {
        assert(a.slot_wf(i));
    }
}

/// Every live object's identifier leads back to its own slot, and resolves
/// to exactly that object: handles never alias.
pub proof fn lemma_live_object_resolves(f: &Factory, i: int)
    requires
        f.wf(),
        0 <= i < f.objects@.len(),
        f.objects@[i] is Some,
    ensures
        uid_index(f.objects@[i].unwrap().uid) == i,
        f.uid_live(f.objects@[i].unwrap().uid),
        f.spec_find(f.objects@[i].unwrap().uid) == Some(f.objects@[i].unwrap()),
{
    assert(f.slot_wf(i));
}

/// A handle whose slot is empty, or whose slot's occupant carries a
/// different generation, never resolves — even after the slot is reused.
pub proof fn lemma_stale_handle_misses(f: &Factory, uid: u64)
    requires
        f.wf(),
        ({
            let i = uid_index(uid) as int;
            i < f.objects@.len() && f.objects@[i] is Some ==> uid_serial(
                f.objects@[i].unwrap().uid,
            ) != uid_serial(uid)
        }),
    ensures
        f.spec_find(uid) is None,
{
}

} // verus!
