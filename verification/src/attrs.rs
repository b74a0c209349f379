//! Per-type attribute metadata and the dynamically-typed attribute values.
//!
//! A [`Model`] fixes, for one entity type, the ordered attribute list (which
//! defines stable indices), and which attributes are persistent ("saves") or
//! replicated ("reps"). An [`AttrValue`] is the tagged value stored per
//! attribute; a setter refuses a value whose tag differs from the declared
//! one instead of coercing.

use vstd::prelude::*;

verus! {

/// A dynamically-typed attribute value.
#[derive(Debug)]
pub enum AttrValue {
    Int(i64),
    Bool(bool),
    Text(String),
}

/// Whether two values carry the same tag, i.e. have the same declared type.
pub open spec fn same_kind(a: AttrValue, b: AttrValue) -> bool {
    match (a, b) {
        (AttrValue::Int(_), AttrValue::Int(_)) => true,
        (AttrValue::Bool(_), AttrValue::Bool(_)) => true,
        (AttrValue::Text(_), AttrValue::Text(_)) => true,
        _ => false,
    }
}

/// Value equality: same tag and equal payload; text compares by contents.
pub open spec fn value_eq(a: AttrValue, b: AttrValue) -> bool {
    match (a, b) {
        (AttrValue::Int(x), AttrValue::Int(y)) => x == y,
        (AttrValue::Bool(x), AttrValue::Bool(y)) => x == y,
        (AttrValue::Text(x), AttrValue::Text(y)) => x@ == y@,
        _ => false,
    }
}

impl AttrValue {
    /// Whether this value's tag matches `other`'s.
    pub fn kind_matches(&self, other: &AttrValue) -> (r: bool)
        ensures
            r == same_kind(*self, *other),
    {
        match (self, other) {
            (AttrValue::Int(_), AttrValue::Int(_)) => true,
            (AttrValue::Bool(_), AttrValue::Bool(_)) => true,
            (AttrValue::Text(_), AttrValue::Text(_)) => true,
            _ => false,
        }
    }
}

impl PartialEq for AttrValue {
    fn eq(&self, other: &Self) -> (r: bool) {
        match (self, other) {
            (AttrValue::Int(x), AttrValue::Int(y)) => *x == *y,
            (AttrValue::Bool(x), AttrValue::Bool(y)) => *x == *y,
            (AttrValue::Text(x), AttrValue::Text(y)) => x.eq(y),
            _ => false,
        }
    }
}

impl vstd::std_specs::cmp::PartialEqSpecImpl for AttrValue {
    open spec fn obeys_eq_spec() -> bool {
        true
    }

    open spec fn eq_spec(&self, other: &Self) -> bool {
        value_eq(*self, *other)
    }
}

impl Clone for AttrValue {
    fn clone(&self) -> (r: Self)
        ensures
            r == *self,
    {
        match self {
            AttrValue::Int(x) => AttrValue::Int(*x),
            AttrValue::Bool(b) => AttrValue::Bool(*b),
            AttrValue::Text(s) => AttrValue::Text(s.clone()),
        }
    }
}

/// Declarative flags for one attribute of an entity type: whether it is
/// persisted ("save") and whether it is replicated.
pub struct Attr {
    pub save: Option<()>,
    pub replicated: Option<()>,
}

impl Attr {
    /// Whether the attribute is flagged persistent.
    pub fn should_save(&self) -> (r: bool)
        ensures
            r == (self.save is Some),
    {
        self.save.is_some()
    }

    /// Whether the attribute is flagged replicated.
    pub fn should_replicate(&self) -> (r: bool)
        ensures
            r == (self.replicated is Some),
    {
        self.replicated.is_some()
    }
}

/// Whether some entry of `names` has the contents `name`.
pub open spec fn contains_name(names: Seq<String>, name: Seq<char>) -> bool {
    exists|i: int| 0 <= i < names.len() && names[i]@ == name
}

/// The names of the fields flagged persistent, in declaration order.
pub open spec fn flagged_saves(fields: Seq<(String, Attr)>) -> Seq<String>
    decreases fields.len(),
{
    if fields.len() == 0 {
        Seq::empty()
    } else {
        let rest = flagged_saves(fields.drop_last());
        if fields.last().1.save is Some {
            rest.push(fields.last().0)
        } else {
            rest
        }
    }
}

/// The names of the fields flagged replicated, in declaration order.
pub open spec fn flagged_reps(fields: Seq<(String, Attr)>) -> Seq<String>
    decreases fields.len(),
{
    if fields.len() == 0 {
        Seq::empty()
    } else {
        let rest = flagged_reps(fields.drop_last());
        if fields.last().1.replicated is Some {
            rest.push(fields.last().0)
        } else {
            rest
        }
    }
}

/// Every flagged name is one of the declared field names.
pub proof fn lemma_flagged_within(fields: Seq<(String, Attr)>, q: int)
    requires
        0 <= q < flagged_saves(fields).len() || 0 <= q < flagged_reps(fields).len(),
    ensures
        0 <= q < flagged_saves(fields).len() ==> exists|j: int|
            0 <= j < fields.len() && fields[j].0 == flagged_saves(fields)[q],
        0 <= q < flagged_reps(fields).len() ==> exists|j: int|
            0 <= j < fields.len() && fields[j].0 == flagged_reps(fields)[q],
    decreases fields.len(),
{
    if fields.len() > 0 {
        if q < flagged_saves(fields.drop_last()).len() || q < flagged_reps(
            fields.drop_last(),
        ).len() {
            lemma_flagged_within(fields.drop_last(), q);
        }
        assert(fields.drop_last() =~= fields.subrange(0, fields.len() - 1));
        assert(fields.last() == fields[fields.len() - 1]);
    }
}

/// The position of `name` among `names`; meaningful only when
/// `contains_name` holds, and unique when the names are distinct.
pub open spec fn name_at(names: Seq<String>, name: Seq<char>) -> int {
    choose|i: int| 0 <= i < names.len() && names[i]@ == name
}

/// With pairwise-distinct names, any position whose entry matches `name` is
/// the position `name_at` denotes.
pub proof fn lemma_name_at(names: Seq<String>, name: Seq<char>, i: int)
    requires
        forall|p: int, q: int| 0 <= p < q < names.len() ==> names[p]@ != names[q]@,
        0 <= i < names.len(),
        names[i]@ == name,
    ensures
        contains_name(names, name),
        name_at(names, name) == i,
{
    assert(contains_name(names, name));
    let j = name_at(names, name);
    assert(0 <= j < names.len() && names[j]@ == name);
    if i < j {
        assert(names[i]@ != names[j]@);
    } else if j < i {
        assert(names[j]@ != names[i]@);
    }
}

/// Compares two owned strings by contents.
pub(crate) fn str_eq(a: &String, b: &String) -> (r: bool)
    ensures
        r == (a@ == b@),
{
    a.eq(b)
}

/// The position of `name` in `names`, if present; scans from the front.
pub(crate) fn find_name(names: &Vec<String>, name: &String) -> (r: Option<usize>)
    ensures
        match r {
            Some(i) => i < names@.len() && names@[i as int]@ == name@,
            None => forall|i: int| 0 <= i < names@.len() ==> names@[i]@ != name@,
        },
{
    let mut i: usize = 0;
    while i < names.len()
        invariant
            i <= names@.len(),
            forall|j: int| 0 <= j < i ==> names@[j]@ != name@,
        decreases names@.len() - i,
    {
        if str_eq(&names[i], name) {
            return Some(i);
        }
        i = i + 1;
    }
    None
}

/// Copies a vector of owned strings, keeping every element's contents.
pub(crate) fn clone_strings(v: &Vec<String>) -> (r: Vec<String>)
    ensures
        r@ == v@,
{
    let mut r: Vec<String> = Vec::new();
    let mut i: usize = 0;
    while i < v.len()
        invariant
            i <= v@.len(),
            r@ == v@.subrange(0, i as int),
        decreases v@.len() - i,
    {
        r.push(v[i].clone());
        proof {
            assert(r@ =~= v@.subrange(0, i + 1));
        }
        i = i + 1;
    }
    proof {
        assert(v@.subrange(0, v@.len() as int) =~= v@);
    }
    r
}

/// Copies an index vector.
pub(crate) fn clone_indices(v: &Vec<u32>) -> (r: Vec<u32>)
    ensures
        r@ == v@,
{
    let mut r: Vec<u32> = Vec::new();
    let mut i: usize = 0;
    while i < v.len()
        invariant
            i <= v@.len(),
            r@ == v@.subrange(0, i as int),
        decreases v@.len() - i,
    {
        r.push(v[i]);
        proof {
            assert(r@ =~= v@.subrange(0, i + 1));
        }
        i = i + 1;
    }
    proof {
        assert(v@.subrange(0, v@.len() as int) =~= v@);
    }
    r
}

/// Copies a row of attribute values.
pub(crate) fn clone_values(v: &Vec<AttrValue>) -> (r: Vec<AttrValue>)
    ensures
        r@ == v@,
{
    let mut r: Vec<AttrValue> = Vec::new();
    let mut i: usize = 0;
    while i < v.len()
        invariant
            i <= v@.len(),
            r@ == v@.subrange(0, i as int),
        decreases v@.len() - i,
    {
        r.push(v[i].clone());
        proof {
            assert(r@ =~= v@.subrange(0, i + 1));
        }
        i = i + 1;
    }
    proof {
        assert(v@.subrange(0, v@.len() as int) =~= v@);
    }
    r
}

/// Per-type attribute metadata, immutable after construction.
pub struct Model {
    pub class_name: String,
    pub attrs: Vec<String>,
    pub saves: Vec<String>,
    pub reps: Vec<String>,
    pub saves_index: Vec<u32>,
    pub reps_index: Vec<u32>,
}

impl Model {
    /// The attribute names are pairwise distinct.
    pub open spec fn names_distinct(&self) -> bool {
        forall|i: int, j: int|
            0 <= i < j < self.attrs@.len() ==> self.attrs@[i]@ != self.attrs@[j]@
    }

    /// The index lists mirror the save/replicate name lists: entry `k` is the
    /// position in `attrs` of the `k`-th flagged name.
    pub open spec fn wf(&self) -> bool {
        &&& self.attrs@.len() <= u32::MAX
        &&& self.names_distinct()
        &&& self.saves_index@.len() == self.saves@.len()
        &&& self.reps_index@.len() == self.reps@.len()
        &&& forall|k: int|
            0 <= k < self.saves@.len() ==> (#[trigger] self.saves_index@[k]) < self.attrs@.len()
                && self.attrs@[self.saves_index@[k] as int]@ == self.saves@[k]@
        &&& forall|k: int|
            0 <= k < self.reps@.len() ==> (#[trigger] self.reps_index@[k]) < self.attrs@.len()
                && self.attrs@[self.reps_index@[k] as int]@ == self.reps@[k]@
    }

    /// Builds the metadata for one type: records the ordered attribute list
    /// and resolves every flagged name to its stable index.
    pub fn new(class_name: String, attrs: Vec<String>, saves: Vec<String>, reps: Vec<String>) -> (
        m: Model)
        requires
            attrs@.len() <= u32::MAX,
            forall|i: int, j: int| 0 <= i < j < attrs@.len() ==> attrs@[i]@ != attrs@[j]@,
            forall|k: int| 0 <= k < saves@.len() ==> contains_name(attrs@, #[trigger] saves@[k]@),
            forall|k: int| 0 <= k < reps@.len() ==> contains_name(attrs@, #[trigger] reps@[k]@),
        ensures
            m.wf(),
            m.class_name == class_name,
            m.attrs == attrs,
            m.saves == saves,
            m.reps == reps,
    {
        let mut saves_index: Vec<u32> = Vec::new();
        let mut reps_index: Vec<u32> = Vec::new();
        let mut k: usize = 0;
        while k < saves.len()
            invariant
                k <= saves@.len(),
                attrs@.len() <= u32::MAX,
                saves_index@.len() == k,
                forall|q: int|
                    0 <= q < k ==> (#[trigger] saves_index@[q]) < attrs@.len()
                        && attrs@[saves_index@[q] as int]@ == saves@[q]@,
                forall|q: int| 0 <= q < saves@.len() ==> contains_name(attrs@, #[trigger] saves@[q]@),
            decreases saves@.len() - k,
        {
            match find_name(&attrs, &saves[k]) {
                Some(i) => {
                    saves_index.push(i as u32);
                },
                None => {
                    proof {
                        assert(contains_name(attrs@, saves@[k as int]@));
                        assert(false);
                    }
                },
            }
            k = k + 1;
        }
        let mut k: usize = 0;
        while k < reps.len()
            invariant
                k <= reps@.len(),
                attrs@.len() <= u32::MAX,
                reps_index@.len() == k,
                forall|q: int|
                    0 <= q < k ==> (#[trigger] reps_index@[q]) < attrs@.len()
                        && attrs@[reps_index@[q] as int]@ == reps@[q]@,
                forall|q: int| 0 <= q < reps@.len() ==> contains_name(attrs@, #[trigger] reps@[q]@),
            decreases reps@.len() - k,
        {
            match find_name(&attrs, &reps[k]) {
                Some(i) => {
                    reps_index.push(i as u32);
                },
                None => {
                    proof {
                        assert(contains_name(attrs@, reps@[k as int]@));
                        assert(false);
                    }
                },
            }
            k = k + 1;
        }
        Model { class_name, attrs, saves, reps, saves_index, reps_index }
    }

    /// Builds the metadata straight from field declarations: every field
    /// becomes an attribute in declaration order, and its flags decide
    /// whether its name joins the persistent and replicated lists.
    pub fn from_fields(class_name: String, fields: Vec<(String, Attr)>) -> (m: Model)
        requires
            fields@.len() <= u32::MAX,
            forall|i: int, j: int|
                0 <= i < j < fields@.len() ==> fields@[i].0@ != fields@[j].0@,
        ensures
            m.wf(),
            m.class_name == class_name,
            m.attrs@.len() == fields@.len(),
            forall|j: int| 0 <= j < fields@.len() ==> m.attrs@[j]@ == fields@[j].0@,
            m.saves@ == flagged_saves(fields@),
            m.reps@ == flagged_reps(fields@),
    {
        let n = fields.len();
        let mut attrs: Vec<String> = Vec::new();
        let mut k: usize = 0;
        while k < n
            invariant
                k <= n,
                n == fields@.len(),
                attrs@.len() == k,
                forall|j: int| 0 <= j < k ==> attrs@[j] == fields@[j].0,
            decreases n - k,
        {
            attrs.push(fields[k].0.clone());
            k = k + 1;
        }
        let mut saves: Vec<String> = Vec::new();
        let mut reps: Vec<String> = Vec::new();
        let mut k: usize = 0;
        while k < n
            invariant
                k <= n,
                n == fields@.len(),
                saves@ == flagged_saves(fields@.subrange(0, k as int)),
                reps@ == flagged_reps(fields@.subrange(0, k as int)),
            decreases n - k,
        {
            if fields[k].1.should_save() {
                saves.push(fields[k].0.clone());
            }
            if fields[k].1.should_replicate() {
                reps.push(fields[k].0.clone());
            }
            proof {
                assert(fields@.subrange(0, k + 1).drop_last() =~= fields@.subrange(0, k as int));
                assert(fields@.subrange(0, k + 1).last() == fields@[k as int]);
            }
            k = k + 1;
        }
        proof {
            assert(fields@.subrange(0, n as int) =~= fields@);
            assert forall|q: int| 0 <= q < saves@.len() implies contains_name(
                attrs@,
                #[trigger] saves@[q]@,
            ) by {
                lemma_flagged_within(fields@, q);
                let j = choose|j: int|
                    0 <= j < fields@.len() && fields@[j].0 == flagged_saves(fields@)[q];
                assert(attrs@[j]@ == saves@[q]@);
            }
            assert forall|q: int| 0 <= q < reps@.len() implies contains_name(
                attrs@,
                #[trigger] reps@[q]@,
            ) by {
                lemma_flagged_within(fields@, q);
                let j = choose|j: int|
                    0 <= j < fields@.len() && fields@[j].0 == flagged_reps(fields@)[q];
                assert(attrs@[j]@ == reps@[q]@);
            }
        }
        Model::new(class_name, attrs, saves, reps)
    }

    /// An independent copy with the same contents in every field.
    pub fn duplicate(&self) -> (r: Model)
        ensures
            model_like(r, *self),
            self.wf() ==> r.wf(),
    {
        Model {
            class_name: self.class_name.clone(),
            attrs: clone_strings(&self.attrs),
            saves: clone_strings(&self.saves),
            reps: clone_strings(&self.reps),
            saves_index: clone_indices(&self.saves_index),
            reps_index: clone_indices(&self.reps_index),
        }
    }
}

/// Two models with the same contents in every field.
pub open spec fn model_like(a: Model, b: Model) -> bool {
    &&& a.class_name@ == b.class_name@
    &&& a.attrs@ == b.attrs@
    &&& a.saves@ == b.saves@
    &&& a.reps@ == b.reps@
    &&& a.saves_index@ == b.saves_index@
    &&& a.reps_index@ == b.reps_index@
}

} // verus!
