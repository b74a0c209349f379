//! The scene: a thin composition root pairing one factory with one root
//! object. The root is built from a registered class, takes the factory's
//! slot 0 under the fixed root identifier, and whole-subtree teardown runs
//! through it.

use vstd::prelude::*;

use crate::attrs::model_like;
use crate::factory::{attach_ok, Factory, OWNER_UID};
use crate::registry::Registry;

verus! {

/// One factory with one root object.
pub struct GameScene {
    pub scene_uid: u64,
    pub factory: Factory,
}

impl GameScene {
    /// The arena is sound and the root object is still live.
    pub open spec fn wf(&self) -> bool {
        &&& self.factory.wf()
        &&& self.factory.uid_live(self.scene_uid)
    }

    /// Builds a scene whose root is a fresh instance of `scene_class`;
    /// fails exactly when the class is unknown.
    pub fn new(scene_class: &str, registry: Registry) -> (r: Option<GameScene>)
        requires
            registry.wf(),
        ensures
            r is Some <==> registry.contains_class(scene_class@),
            r matches Some(s) ==> {
                &&& s.wf()
                &&& s.scene_uid == OWNER_UID
                &&& s.factory.registry == registry
                &&& s.factory.used_size == 1
                &&& s.factory.serial == 0
                &&& s.factory.free_list@.len() == 0
                &&& s.factory.deletes@.len() == 0
                &&& model_like(
                    s.factory.obj_of(s.scene_uid).model,
                    registry.entries@[registry.class_at(scene_class@)].model,
                )
                &&& s.factory.obj_of(s.scene_uid).values@ == registry.entries@[registry.class_at(
                    scene_class@,
                )].defaults@
                &&& s.factory.obj_of(s.scene_uid).child_num == 0
                &&& s.factory.obj_of(s.scene_uid).children@.len() == 0
                &&& s.factory.obj_of(s.scene_uid).cap == 0
                &&& s.factory.obj_of(s.scene_uid).container_pos == 0
                &&& s.factory.obj_of(s.scene_uid).parent is None
                &&& !s.factory.obj_of(s.scene_uid).deleted
                &&& !s.factory.obj_of(s.scene_uid).dirty
                &&& s.factory.obj_of(s.scene_uid).modify_attrs@ == Seq::<u32>::empty()
            },
    {
        let scene = registry.create_object(scene_class);
        match scene {
            Some(obj) => {
                let factory = Factory::new(registry, obj);
                Some(GameScene { scene_uid: OWNER_UID, factory })
            },
            None => None,
        }
    }

    /// Tears down everything under the root — every child and, through the
    /// recursive teardown, every reached descendant — then drains the
    /// deferred-delete queue. With every child slot consistently linked,
    /// the surviving root ends with an empty child list.
    pub fn clear_all(&mut self)
        requires
            old(self).wf(),
        ensures
            final(self).factory.wf(),
            final(self).scene_uid == old(self).scene_uid,
            final(self).factory.deletes@.len() == 0,
            forall|u: u64|
                #[trigger] final(self).factory.uid_live(u) ==> old(self).factory.uid_live(u),
            forall|u: u64|
                #[trigger] final(self).factory.uid_live(u) ==> crate::factory::teardown_touched(
                    old(self).factory.obj_of(u),
                    final(self).factory.obj_of(u),
                ),
            forall|j: int|
                0 <= j < old(self).factory.obj_of(old(self).scene_uid).children@.len() ==> ((
                #[trigger] old(self).factory.obj_of(old(self).scene_uid).children@[j]) matches Some(
                    c,
                ) ==> !final(self).factory.uid_live(c)),
            forall|j: int, m: int|
                #![trigger old(self).factory.obj_of(old(self).factory.obj_of(old(self).scene_uid).children@[j].unwrap()).children@[m]]
                ({
                    let root = old(self).scene_uid;
                    let centry = old(self).factory.obj_of(root).children@[j];
                    (0 <= j < old(self).factory.obj_of(root).children@.len() && centry is Some
                        && old(self).factory.uid_live(centry.unwrap()) && centry.unwrap() != root
                        && 0 <= m < old(self).factory.obj_of(centry.unwrap()).children@.len()
                        && old(self).factory.obj_of(centry.unwrap()).children@[m] is Some) ==> !final(self).factory.uid_live(
                        old(self).factory.obj_of(centry.unwrap()).children@[m].unwrap(),
                    )
                }),
            final(self).factory.uid_live(old(self).scene_uid) ==> final(self).wf(),
            (old(self).factory.children_consistent(old(self).scene_uid) && final(self).factory.uid_live(old(self).scene_uid)) ==> ({
                let root = final(self).factory.obj_of(old(self).scene_uid);
                &&& root.child_num == 0
                &&& forall|q: int| 0 <= q < root.children@.len() ==> root.children@[q] is None
            }),
    {
        let uid = self.scene_uid;
        self.factory.destroy_children(uid);
        let ghost mid: GameScene = *self;
        self.factory.clear_deleted();
        proof {
            assert forall|u: u64|
                #[trigger] self.factory.uid_live(u) implies old(self).factory.uid_live(u)
                    && crate::factory::teardown_touched(
                    old(self).factory.obj_of(u),
                    self.factory.obj_of(u),
                ) by {
                assert(mid.factory.uid_live(u));
                assert(self.factory.obj_of(u) == mid.factory.obj_of(u));
            }
        }
    }

    /// Creates an object of type `entity` directly under the root, with a
    /// bounded child capacity if `cap` is nonzero.
    pub fn create_in_scene(&mut self, entity: &str, cap: usize) -> (r: Option<u64>)
        requires
            old(self).wf(),
            old(self).factory.can_allocate(),
            old(self).factory.obj_of(old(self).scene_uid).children@.len() < usize::MAX,
        ensures
            final(self).wf(),
            final(self).scene_uid == old(self).scene_uid,
            r is Some <==> (old(self).factory.registry.contains_class(entity@) && attach_ok(
                old(self).factory.obj_of(old(self).scene_uid),
                0,
            )),
            r matches Some(uid) ==> {
                let k = old(self).factory.registry.class_at(entity@);
                &&& final(self).factory.uid_live(uid)
                &&& final(self).factory.obj_of(uid).parent == Some(old(self).scene_uid)
                &&& final(self).factory.obj_of(uid).cap == cap
                &&& final(self).factory.obj_of(uid).container_pos > 0
                &&& model_like(
                    final(self).factory.obj_of(uid).model,
                    old(self).factory.registry.entries@[k].model,
                )
                &&& final(self).factory.obj_of(uid).values@ == old(self).factory.registry.entries@[k].defaults@
                &&& !final(self).factory.obj_of(uid).deleted
                &&& !final(self).factory.obj_of(uid).dirty
                &&& final(self).factory.obj_of(uid).child_num == 0
            },
    {
        proof {
            crate::factory::lemma_first_free_bounds(
                old(self).factory.obj_of(old(self).scene_uid).children@,
            );
        }
        let uid = self.scene_uid;
        self.factory.create_child(uid, entity, cap, 0)
    }
}

} // verus!
