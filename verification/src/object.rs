//! The per-object node: identity, lifecycle flags, attribute state with
//! change tracking, and the local side of the containment tree (the child
//! slot array and the back-reference to the parent).
//!
//! Cross-object operations — attaching, detaching and destroying children —
//! live on the factory, which owns every node and resolves identifiers.

use vstd::prelude::*;

use crate::attrs::{contains_name, name_at, same_kind, value_eq, AttrValue, Model};

verus! {

/// A closed class tag, used only for filtered child enumeration; `Any` is
/// both the default tag and the unfiltered query.
#[derive(Debug, Clone, Copy, PartialEq, Eq, Structural)]
pub enum ClassType {
    Any,
    Scene,
    Role,
    Npc,
    Item,
    Aide,
    Container,
}

/// How many child slots are occupied.
pub open spec fn count_some(s: Seq<Option<u64>>) -> nat
    decreases s.len(),
{
    if s.len() == 0 {
        0
    } else {
        count_some(s.drop_last()) + if s.last() is Some {
            1nat
        } else {
            0nat
        }
    }
}

/// Occupancy never exceeds the slot count.
pub proof fn lemma_count_some_le_len(s: Seq<Option<u64>>)
    ensures
        count_some(s) <= s.len(),
    decreases s.len(),
{
    if s.len() > 0 {
        lemma_count_some_le_len(s.drop_last());
    }
}

/// Appending a slot adds its own occupancy.
pub proof fn lemma_count_some_push(s: Seq<Option<u64>>, x: Option<u64>)
    ensures
        count_some(s.push(x)) == count_some(s) + if x is Some {
            1nat
        } else {
            0nat
        },
{
    assert(s.push(x).drop_last() =~= s);
    assert(s.push(x).last() == x);
}

/// Overwriting one slot changes occupancy by the difference of the two
/// occupancies.
pub proof fn lemma_count_some_update(s: Seq<Option<u64>>, i: int, x: Option<u64>)
    requires
        0 <= i < s.len(),
    ensures
        count_some(s.update(i, x)) + if s[i] is Some {
            1nat
        } else {
            0nat
        } == count_some(s) + if x is Some {
            1nat
        } else {
            0nat
        },
    decreases s.len(),
{
    if i == s.len() - 1 {
        assert(s.update(i, x).drop_last() =~= s.drop_last());
        assert(s.update(i, x).last() == x);
        assert(s.last() == s[i]);
    } else {
        assert(s.update(i, x).drop_last() =~= s.drop_last().update(i, x));
        assert(s.update(i, x).last() == s.last());
        lemma_count_some_update(s.drop_last(), i, x);
    }
}

/// An empty slot witnesses spare room.
pub proof fn lemma_count_some_none(s: Seq<Option<u64>>, i: int)
    requires
        0 <= i < s.len(),
        s[i] is None,
    ensures
        count_some(s) < s.len(),
    decreases s.len(),
{
    if i == s.len() - 1 {
        lemma_count_some_le_len(s.drop_last());
    } else {
        lemma_count_some_none(s.drop_last(), i);
    }
}

/// A slot array of holes holds nothing.
pub proof fn lemma_count_some_zero(s: Seq<Option<u64>>)
    requires
        forall|j: int| 0 <= j < s.len() ==> s[j] is None,
    ensures
        count_some(s) == 0,
    decreases s.len(),
{
    if s.len() > 0 {
        assert(s.last() == s[s.len() - 1]);
        lemma_count_some_zero(s.drop_last());
    }
}

/// An occupied slot witnesses positive occupancy.
pub proof fn lemma_count_some_pos(s: Seq<Option<u64>>, i: int)
    requires
        0 <= i < s.len(),
        s[i] is Some,
    ensures
        count_some(s) >= 1,
    decreases s.len(),
{
    if i == s.len() - 1 {
    } else {
        lemma_count_some_pos(s.drop_last(), i);
    }
}

/// An object node. Its `uid` is valid only while the owning factory's slot
/// at the identifier's index still holds this object.
pub struct Object {
    pub uid: u64,
    pub class_type: ClassType,
    pub deleted: bool,
    pub destroying: bool,
    pub dirty: bool,
    pub modify_attrs: Vec<u32>,
    pub children: Vec<Option<u64>>,
    pub cap: usize,
    pub container_pos: usize,
    pub child_num: usize,
    pub parent: Option<u64>,
    pub model: Model,
    pub values: Vec<AttrValue>,
}

/// The fields untouched by attribute mutation: identity, lifecycle and tree
/// state all agree.
pub open spec fn same_node_state(a: Object, b: Object) -> bool {
    &&& a.uid == b.uid
    &&& a.class_type == b.class_type
    &&& a.deleted == b.deleted
    &&& a.destroying == b.destroying
    &&& a.children == b.children
    &&& a.cap == b.cap
    &&& a.container_pos == b.container_pos
    &&& a.child_num == b.child_num
    &&& a.parent == b.parent
    &&& a.model == b.model
}

/// The effect of a successful, value-changing attribute set at `index`: the
/// value row is updated there, the dirty flag rises exactly if the index is
/// flagged persistent, the index is appended to the modified list exactly if
/// it is flagged replicated, and nothing else moves.
pub open spec fn sets_attr(pre: Object, post: Object, index: u32, val: AttrValue) -> bool {
    &&& post.values@ == pre.values@.update(index as int, val)
    &&& post.dirty == (pre.dirty || pre.model.saves_index@.contains(index))
    &&& post.modify_attrs@ == (if pre.model.reps_index@.contains(index) {
        pre.modify_attrs@.push(index)
    } else {
        pre.modify_attrs@
    })
    &&& same_node_state(pre, post)
}

/// Equal values compare equal.
pub proof fn lemma_value_eq_reflexive(v: AttrValue)
    ensures
        value_eq(v, v),
{
}

/// Law: changing a persistent attribute raises the dirty flag, and the
/// stored value then equals the one written — so writing the same value
/// again falls into the setter's no-op case and, in particular, leaves the
/// flag wherever a `clear_dirty` acknowledgment put it.
pub proof fn lemma_persistent_change_dirty(pre: Object, post: Object, index: u32, val: AttrValue)
    requires
        index < pre.values@.len(),
        sets_attr(pre, post, index, val),
        pre.model.saves_index@.contains(index),
    ensures
        post.dirty,
        value_eq(post.values@[index as int], val),
{
    lemma_value_eq_reflexive(val);
}

/// Law: changing a replicated attribute appends exactly its index to the
/// modified list: the list grows by one, ends with the touched index, and
/// keeps every earlier entry — so an attribute touched twice appears twice.
pub proof fn lemma_replicated_change_appends(pre: Object, post: Object, index: u32, val: AttrValue)
    requires
        index < pre.values@.len(),
        sets_attr(pre, post, index, val),
        pre.model.reps_index@.contains(index),
    ensures
        post.modify_attrs@.len() == pre.modify_attrs@.len() + 1,
        post.modify_attrs@.last() == index,
        post.modify_attrs@.subrange(0, pre.modify_attrs@.len() as int) == pre.modify_attrs@,
{
    assert(post.modify_attrs@.subrange(0, pre.modify_attrs@.len() as int) =~= pre.modify_attrs@);
}

impl Object {
    /// Local well-formedness: the occupancy counter matches the slot array,
    /// a bounded container never grows past its capacity, and each attribute
    /// has exactly one stored value.
    pub open spec fn wf(&self) -> bool {
        &&& self.child_num == count_some(self.children@)
        &&& self.cap > 0 ==> self.children@.len() <= self.cap
        &&& self.values@.len() == self.model.attrs@.len()
        &&& self.model.wf()
    }

    /// A fresh, unbounded, un-parented, un-identified node.
    pub fn new(model: Model, values: Vec<AttrValue>) -> (o: Object)
        requires
            model.wf(),
            values@.len() == model.attrs@.len(),
        ensures
            o.wf(),
            o.uid == 0,
            o.class_type == ClassType::Any,
            !o.deleted,
            !o.destroying,
            !o.dirty,
            o.modify_attrs@ == Seq::<u32>::empty(),
            o.children@ == Seq::<Option<u64>>::empty(),
            o.cap == 0,
            o.container_pos == 0,
            o.child_num == 0,
            o.parent is None,
            o.model == model,
            o.values == values,
    {
        Object {
            uid: 0,
            class_type: ClassType::Any,
            deleted: false,
            destroying: false,
            dirty: false,
            modify_attrs: Vec::new(),
            children: Vec::new(),
            cap: 0,
            container_pos: 0,
            child_num: 0,
            parent: None,
            model,
            values,
        }
    }

    /// A fresh node whose container is bounded to `cap` child slots.
    pub fn new_with_cap(model: Model, values: Vec<AttrValue>, cap: usize) -> (o: Object)
        requires
            model.wf(),
            values@.len() == model.attrs@.len(),
            cap > 0,
        ensures
            o.wf(),
            o.uid == 0,
            o.class_type == ClassType::Any,
            !o.deleted,
            !o.destroying,
            !o.dirty,
            o.modify_attrs@ == Seq::<u32>::empty(),
            o.children@ == Seq::<Option<u64>>::empty(),
            o.cap == cap,
            o.container_pos == 0,
            o.child_num == 0,
            o.parent is None,
            o.model == model,
            o.values == values,
    {
        let mut o = Object::new(model, values);
        o.cap = cap;
        o
    }

    /// Installs a (new) attribute model and matching value row.
    pub fn init(&mut self, model: Model, values: Vec<AttrValue>)
        requires
            model.wf(),
            values@.len() == model.attrs@.len(),
        ensures
            final(self).model == model,
            final(self).values == values,
            final(self).dirty == old(self).dirty,
            final(self).modify_attrs == old(self).modify_attrs,
            same_tree_state(*old(self), *final(self)),
            old(self).wf() ==> final(self).wf(),
    {
        self.model = model;
        self.values = values;
    }

    /// The stamped identifier.
    pub fn uid(&self) -> (r: u64)
        ensures
            r == self.uid,
    {
        self.uid
    }

    /// Stamps the identifier; only the owning factory does this.
    pub fn set_uid(&mut self, uid: u64)
        ensures
            *final(self) == (Object { uid, ..*old(self) }),
    {
        self.uid = uid;
    }

    /// The class tag.
    pub fn get_class_type(&self) -> (r: ClassType)
        ensures
            r == self.class_type,
    {
        self.class_type
    }

    /// Whether the node has been released from its factory slot.
    pub fn is_deleted(&self) -> (r: bool)
        ensures
            r == self.deleted,
    {
        self.deleted
    }

    /// Marks the node deleted; a one-way transition.
    pub fn delete(&mut self)
        ensures
            *final(self) == (Object { deleted: true, ..*old(self) }),
    {
        self.deleted = true;
    }

    /// Whether any persistent attribute changed since the last clear.
    pub fn dirty(&self) -> (r: bool)
        ensures
            r == self.dirty,
    {
        self.dirty
    }

    /// Acknowledges a save: resets the persistent-change flag.
    pub fn clear_dirty(&mut self)
        ensures
            *final(self) == (Object { dirty: false, ..*old(self) }),
    {
        self.dirty = false;
    }

    /// Whether any replicated attribute changed since the last clear.
    pub fn modify(&self) -> (r: bool)
        ensures
            r == (self.modify_attrs@.len() > 0),
    {
        self.modify_attrs.len() > 0
    }

    /// Acknowledges a replication round: empties the modified-index list.
    pub fn clear_modify(&mut self)
        ensures
            final(self).modify_attrs@ == Seq::<u32>::empty(),
            same_node_state(*old(self), *final(self)),
            final(self).dirty == old(self).dirty,
            final(self).values == old(self).values,
    {
        self.modify_attrs.clear();
    }

    /// The indices of replicated attributes changed since the last clear, in
    /// change order, duplicates kept.
    pub fn get_modify(&self) -> (r: &Vec<u32>)
        ensures
            r@ == self.modify_attrs@,
    {
        &self.modify_attrs
    }

    /// The ordered attribute names.
    pub fn get_attrs(&self) -> (r: &Vec<String>)
        ensures
            r@ == self.model.attrs@,
    {
        &self.model.attrs
    }

    /// The names of the persistent attributes.
    pub fn save_attrs(&self) -> (r: &Vec<String>)
        ensures
            r@ == self.model.saves@,
    {
        &self.model.saves
    }

    /// The names of the replicated attributes.
    pub fn rep_attrs(&self) -> (r: &Vec<String>)
        ensures
            r@ == self.model.reps@,
    {
        &self.model.reps
    }

    /// The stable indices of the persistent attributes.
    pub fn save_attrs_index(&self) -> (r: &Vec<u32>)
        ensures
            r@ == self.model.saves_index@,
    {
        &self.model.saves_index
    }

    /// The stable indices of the replicated attributes.
    pub fn rep_attrs_index(&self) -> (r: &Vec<u32>)
        ensures
            r@ == self.model.reps_index@,
    {
        &self.model.reps_index
    }

    /// How many attributes the type declares.
    pub fn get_attr_count(&self) -> (r: u32)
        requires
            self.wf(),
        ensures
            r == self.model.attrs@.len(),
    {
        self.model.attrs.len() as u32
    }

    /// The stable index of the named attribute, if the type declares it.
    pub fn get_attr_index(&self, attr: &str) -> (r: Option<u32>)
        requires
            self.wf(),
        ensures
            match r {
                Some(i) => i < self.model.attrs@.len() && self.model.attrs@[i as int]@ == attr@,
                None => !contains_name(self.model.attrs@, attr@),
            },
    {
        let key: String = attr.to_owned();
        match crate::attrs::find_name(&self.model.attrs, &key) {
            Some(i) => Some(i as u32),
            None => None,
        }
    }

    /// The name at a stable index, if in range.
    pub fn get_attr_name(&self, index: u32) -> (r: Option<&String>)
        ensures
            match r {
                Some(s) => index < self.model.attrs@.len() && s@ == self.model.attrs@[index as int]@,
                None => index >= self.model.attrs@.len(),
            },
    {
        if (index as usize) < self.model.attrs.len() {
            Some(&self.model.attrs[index as usize])
        } else {
            None
        }
    }

    /// Records that the attribute at `index` changed: raises the dirty flag
    /// if it is persistent, and appends the index to the modified list if it
    /// is replicated.
    pub fn change_attr(&mut self, index: u32)
        ensures
            final(self).dirty == (old(self).dirty || old(self).model.saves_index@.contains(index)),
            final(self).modify_attrs@ == if old(self).model.reps_index@.contains(index) {
                old(self).modify_attrs@.push(index)
            } else {
                old(self).modify_attrs@
            },
            same_node_state(*old(self), *final(self)),
            final(self).values == old(self).values,
    {
        if contains_index(&self.model.saves_index, index) {
            self.dirty = true;
        }
        if contains_index(&self.model.reps_index, index) {
            self.modify_attrs.push(index);
        }
    }

    /// The stored value at a stable index, if in range.
    pub fn get_attr_by_index(&self, index: u32) -> (r: Option<&AttrValue>)
        ensures
            match r {
                Some(v) => index < self.values@.len() && *v == self.values@[index as int],
                None => index >= self.values@.len(),
            },
    {
        if (index as usize) < self.values.len() {
            Some(&self.values[index as usize])
        } else {
            None
        }
    }

    /// Sets the attribute at a stable index. Fails (returning `false`,
    /// changing nothing) when the index is out of range or the value's type
    /// differs from the declared one. Setting the current value again is a
    /// no-op: no dirty or modify effect. A genuine change replaces the value
    /// and runs the change tracking.
    pub fn set_attr_by_index(&mut self, index: u32, val: AttrValue) -> (r: bool)
        ensures
            r == (index < old(self).values@.len() && same_kind(
                old(self).values@[index as int],
                val,
            )),
            !r ==> *final(self) == *old(self),
            r && value_eq(old(self).values@[index as int], val) ==> *final(self) == *old(self),
            r && !value_eq(old(self).values@[index as int], val) ==> sets_attr(
                *old(self),
                *final(self),
                index,
                val,
            ),
            old(self).wf() ==> final(self).wf(),
    {
        if (index as usize) >= self.values.len() {
            return false;
        }
        if !self.values[index as usize].kind_matches(&val) {
            return false;
        }
        if self.values[index as usize].eq(&val) {
            return true;
        }
        self.values[index as usize] = val;
        self.change_attr(index);
        true
    }

    /// The stored value of the named attribute, if the type declares it.
    pub fn get_attr_by_name(&self, attr: &str) -> (r: Option<&AttrValue>)
        requires
            self.wf(),
        ensures
            r is Some <==> contains_name(self.model.attrs@, attr@),
            r matches Some(v) ==> *v == self.values@[name_at(self.model.attrs@, attr@)],
    {
        match self.get_attr_index(attr) {
            Some(i) => {
                proof {
                    crate::attrs::lemma_name_at(self.model.attrs@, attr@, i as int);
                }
                self.get_attr_by_index(i)
            },
            None => None,
        }
    }

    /// Sets the named attribute; fails when the type does not declare the
    /// name, and otherwise behaves as the set-by-index operation.
    pub fn set_attr_by_name(&mut self, attr: &str, val: AttrValue) -> (r: bool)
        requires
            old(self).wf(),
        ensures
            !contains_name(old(self).model.attrs@, attr@) ==> !r && *final(self) == *old(self),
            contains_name(old(self).model.attrs@, attr@) ==> {
                let i = name_at(old(self).model.attrs@, attr@);
                &&& r == same_kind(old(self).values@[i], val)
                &&& !r ==> *final(self) == *old(self)
                &&& (r && value_eq(old(self).values@[i], val)) ==> *final(self) == *old(self)
                &&& (r && !value_eq(old(self).values@[i], val)) ==> sets_attr(
                    *old(self),
                    *final(self),
                    i as u32,
                    val,
                )
            },
            final(self).wf(),
    {
        match self.get_attr_index(attr) {
            Some(i) => {
                proof {
                    crate::attrs::lemma_name_at(self.model.attrs@, attr@, i as int);
                }
                self.set_attr_by_index(i, val)
            },
            None => false,
        }
    }
}

impl Object {
    /// The configured child capacity; 0 means unbounded.
    pub fn capacity(&self) -> (r: usize)
        ensures
            r == self.cap,
    {
        self.cap
    }

    /// Rebounds the child capacity. Growing (numerically) always succeeds;
    /// shrinking is permitted only while the container is empty. Turning an
    /// unbounded container into a bounded one must not strand children past
    /// the new bound.
    pub fn set_capcity(&mut self, cap: usize) -> (r: bool)
        requires
            old(self).wf(),
            old(self).cap == 0 && cap > 0 ==> old(self).children@.len() <= cap,
        ensures
            r == (cap >= old(self).cap || old(self).child_num == 0),
            r && cap >= old(self).cap ==> *final(self) == (Object { cap, ..*old(self) }),
            r && cap < old(self).cap ==> *final(self) == (Object {
                cap,
                children: final(self).children,
                ..*old(self)
            }) && final(self).children@.len() == 0,
            !r ==> *final(self) == *old(self),
            final(self).wf(),
    {
        if cap == self.cap {
            return true;
        }
        if cap < self.cap {
            // only an empty container can shrink; its slot array then holds
            // nothing but holes, which go with the storage
            if self.child_num > 0 {
                return false;
            }
            self.children.clear();
            self.cap = cap;
            return true;
        }
        self.cap = cap;
        true
    }

    /// How many child slots are occupied.
    pub fn child_count(&self) -> (r: usize)
        ensures
            r == self.child_num,
    {
        self.child_num
    }

    /// This node's 1-based position in its parent's slot array; 0 while
    /// unattached.
    pub fn get_container_pos(&self) -> (r: usize)
        ensures
            r == self.container_pos,
    {
        self.container_pos
    }

    /// Records this node's 1-based position; the factory's attach and
    /// detach operations keep it consistent.
    pub fn set_container_pos(&mut self, pos: usize)
        ensures
            *final(self) == (Object { container_pos: pos, ..*old(self) }),
    {
        self.container_pos = pos;
    }

    /// Whether the node currently sits in some parent's slot array.
    pub fn is_in_container(&self) -> (r: bool)
        ensures
            r == (self.container_pos > 0),
    {
        self.container_pos > 0
    }

    /// Records the parent's identifier; validated against the arena on
    /// every use, so a stale value is harmless.
    pub fn set_parent(&mut self, parent: u64)
        ensures
            *final(self) == (Object { parent: Some(parent), ..*old(self) }),
    {
        self.parent = Some(parent);
    }

    /// The first free child slot: the lowest hole, or the append position
    /// while under (or without) the capacity bound; nothing when bounded
    /// and fully occupied.
    pub fn find_child_container_free_index(&self) -> (r: Option<usize>)
        ensures
            match r {
                Some(i) => {
                    &&& i <= self.children@.len()
                    &&& forall|j: int| 0 <= j < i ==> self.children@[j] is Some
                    &&& i < self.children@.len() ==> self.children@[i as int] is None
                    &&& i == self.children@.len() ==> self.cap == 0 || self.children@.len()
                        < self.cap
                },
                None => {
                    &&& forall|j: int|
                        0 <= j < self.children@.len() ==> self.children@[j] is Some
                    &&& self.cap > 0
                    &&& self.children@.len() >= self.cap
                },
            },
    {
        let child_size = self.children.len();
        let mut i: usize = 0;
        while i < child_size
            invariant
                i <= child_size,
                child_size == self.children@.len(),
                forall|j: int| 0 <= j < i ==> self.children@[j] is Some,
            decreases child_size - i,
        {
            if self.children[i].is_none() {
                return Some(i);
            }
            i = i + 1;
        }
        if self.cap == 0 || child_size < self.cap {
            return Some(child_size);
        }
        None
    }

    /// The first occupied child slot: its occupant and its index; nothing
    /// when the slot array holds no children.
    pub fn get_first_child(&self) -> (r: (Option<u64>, usize))
        ensures
            match r.0 {
                Some(uid) => {
                    &&& r.1 < self.children@.len()
                    &&& self.children@[r.1 as int] == Some(uid)
                    &&& forall|j: int| 0 <= j < r.1 ==> self.children@[j] is None
                },
                None => r.1 == 0 && forall|j: int|
                    0 <= j < self.children@.len() ==> self.children@[j] is None,
            },
    {
        let num = self.children.len();
        let mut it: usize = 0;
        while it < num
            invariant
                it <= num,
                num == self.children@.len(),
                forall|j: int| 0 <= j < it ==> self.children@[j] is None,
            decreases num - it,
        {
            match self.children[it] {
                Some(uid) => {
                    return (Some(uid), it);
                },
                None => {},
            }
            it = it + 1;
        }
        (None, 0)
    }

    /// The next occupied child slot strictly after `it`: its occupant and
    /// its index; nothing when no occupied slot follows.
    pub fn get_next_child(&self, it: usize) -> (r: (Option<u64>, usize))
        requires
            it < usize::MAX,
        ensures
            match r.0 {
                Some(uid) => {
                    &&& it < r.1 < self.children@.len()
                    &&& self.children@[r.1 as int] == Some(uid)
                    &&& forall|j: int| it < j < r.1 ==> self.children@[j] is None
                },
                None => r.1 == 0 && forall|j: int|
                    it < j < self.children@.len() ==> self.children@[j] is None,
            },
    {
        let mut cur = it + 1;
        let num = self.children.len();
        if cur >= num {
            return (None, 0);
        }
        while cur < num
            invariant
                it < cur <= num,
                num == self.children@.len(),
                forall|j: int| it < j < cur ==> self.children@[j] is None,
            decreases num - cur,
        {
            match self.children[cur] {
                Some(uid) => {
                    return (Some(uid), cur);
                },
                None => {},
            }
            cur = cur + 1;
        }
        (None, 0)
    }
}

/// How attaching a child at slot `idx` rewrites the parent: the slot array
/// holds the child there (grown with holes if needed), every other slot is
/// as before, the occupancy count went up by one, and the container
/// mutation marked the parent dirty. All other fields agree.
pub open spec fn parent_attached(p0: Object, p1: Object, child: u64, idx: int) -> bool {
    &&& p1.children@.len() == (if idx < p0.children@.len() {
        p0.children@.len() as int
    } else {
        idx + 1
    })
    &&& p1.children@[idx] == Some(child)
    &&& forall|j: int|
        0 <= j < p1.children@.len() && j != idx ==> p1.children@[j] == (if j
            < p0.children@.len() {
            p0.children@[j]
        } else {
            None
        })
    &&& p1.child_num == p0.child_num + 1
    &&& p1.dirty
    &&& p1.uid == p0.uid
    &&& p1.class_type == p0.class_type
    &&& p1.deleted == p0.deleted
    &&& p1.destroying == p0.destroying
    &&& p1.modify_attrs == p0.modify_attrs
    &&& p1.cap == p0.cap
    &&& p1.container_pos == p0.container_pos
    &&& p1.parent == p0.parent
    &&& p1.model == p0.model
    &&& p1.values == p0.values
}

/// How detaching the child at slot `idx` rewrites the parent: the slot is
/// cleared, the occupancy count went down by one, and the mutation marked
/// the parent dirty. All other fields — except possibly its own container
/// position, which a self-attached node loses — agree.
pub open spec fn parent_detached(p0: Object, p1: Object, idx: int) -> bool {
    &&& p1.children@ == p0.children@.update(idx, None)
    &&& p1.child_num == p0.child_num - 1
    &&& p1.dirty
    &&& p1.uid == p0.uid
    &&& p1.class_type == p0.class_type
    &&& p1.deleted == p0.deleted
    &&& p1.destroying == p0.destroying
    &&& p1.modify_attrs == p0.modify_attrs
    &&& p1.cap == p0.cap
    &&& p1.parent == p0.parent
    &&& p1.model == p0.model
    &&& p1.values == p0.values
}

impl Object {
    /// Places `child` into slot `idx`, growing the slot array with holes up
    /// to it; the slot must be free and within any capacity bound.
    pub(crate) fn attach_child_slot(&mut self, idx: usize, child: u64)
        requires
            old(self).wf(),
            idx < old(self).children@.len() ==> old(self).children@[idx as int] is None,
            old(self).cap > 0 ==> idx < old(self).cap,
            idx < usize::MAX,
        ensures
            final(self).wf(),
            parent_attached(*old(self), *final(self), child, idx as int),
    {
        if idx < self.children.len() {
            proof {
                lemma_count_some_update(self.children@, idx as int, Some(child));
                lemma_count_some_none(self.children@, idx as int);
            }
            self.children[idx] = Some(child);
        } else {
            while self.children.len() < idx
                invariant
                    old(self).children@.len() <= self.children@.len() <= idx,
                    idx < usize::MAX,
                    self.children@.subrange(0, old(self).children@.len() as int) == old(self).children@,
                    forall|j: int|
                        old(self).children@.len() <= j < self.children@.len()
                            ==> self.children@[j] is None,
                    count_some(self.children@) == count_some(old(self).children@),
                    *self == (Object { children: self.children, ..*old(self) }),
                decreases idx - self.children@.len(),
            {
                proof {
                    lemma_count_some_push(self.children@, None);
                }
                self.children.push(None);
                proof {
                    assert(self.children@.subrange(0, old(self).children@.len() as int) =~= old(self).children@);
                }
            }
            proof {
                lemma_count_some_push(self.children@, Some(child));
                lemma_count_some_le_len(old(self).children@);
            }
            self.children.push(Some(child));
        }
        self.child_num = self.child_num + 1;
        self.dirty = true;
    }

    /// Clears the occupied slot `idx` and hands back its occupant's
    /// identifier.
    pub(crate) fn detach_child_slot(&mut self, idx: usize) -> (cuid: u64)
        requires
            old(self).wf(),
            idx < old(self).children@.len(),
            old(self).children@[idx as int] is Some,
        ensures
            final(self).wf(),
            cuid == old(self).children@[idx as int].unwrap(),
            final(self).container_pos == old(self).container_pos,
            parent_detached(*old(self), *final(self), idx as int),
    {
        let cuid = self.children[idx].unwrap();
        proof {
            lemma_count_some_update(self.children@, idx as int, None);
            lemma_count_some_pos(self.children@, idx as int);
        }
        self.children[idx] = None;
        self.child_num = self.child_num - 1;
        self.dirty = true;
        cuid
    }
}

/// The fields untouched by a model swap: everything but the attribute
/// metadata and values agrees.
pub open spec fn same_tree_state(a: Object, b: Object) -> bool {
    &&& a.uid == b.uid
    &&& a.class_type == b.class_type
    &&& a.deleted == b.deleted
    &&& a.destroying == b.destroying
    &&& a.children == b.children
    &&& a.cap == b.cap
    &&& a.container_pos == b.container_pos
    &&& a.child_num == b.child_num
    &&& a.parent == b.parent
}

/// Whether `x` occurs in `v`; scans the whole vector.
pub(crate) fn contains_index(v: &Vec<u32>, x: u32) -> (r: bool)
    ensures
        r == v@.contains(x),
{
    let mut i: usize = 0;
    while i < v.len()
        invariant
            i <= v@.len(),
            forall|j: int| 0 <= j < i ==> v@[j] != x,
        decreases v@.len() - i,
    {
        if v[i] == x {
            assert(v@.contains(x));
            return true;
        }
        i = i + 1;
    }
    assert(!v@.contains(x));
    false
}

} // verus!
