use entity_arena::attrs::{AttrValue, Model};
use entity_arena::ids::{index_of_uid, make_uid, serial_of_uid, SERIAL_MAX};
use entity_arena::object::ClassType;
use entity_arena::registry::{ObjectInitializer, Registry};
use entity_arena::scene::GameScene;

fn test_registry() -> Registry {
    let mut reg = Registry::new();

    let scene_model = Model::new(
        "TestScene".to_string(),
        vec!["name".to_string()],
        Vec::new(),
        Vec::new(),
    );
    reg.register(ObjectInitializer::register_entity(
        "TestScene".to_string(),
        scene_model,
        vec![AttrValue::Text(String::new())],
    ));

    let player_model = Model::new(
        "TestPlayer".to_string(),
        vec!["hp".to_string(), "name".to_string(), "age".to_string()],
        vec!["name".to_string()],
        vec!["name".to_string(), "age".to_string()],
    );
    reg.register(ObjectInitializer::register_entity(
        "TestPlayer".to_string(),
        player_model,
        vec![
            AttrValue::Int(0),
            AttrValue::Text(String::new()),
            AttrValue::Int(0),
        ],
    ));

    let box_model = Model::new(
        "TestBox".to_string(),
        vec!["name".to_string()],
        vec!["name".to_string()],
        vec!["name".to_string()],
    );
    reg.register(ObjectInitializer::register_entity(
        "TestBox".to_string(),
        box_model,
        vec![AttrValue::Text(String::new())],
    ));

    let item_model = Model::new(
        "TestItem".to_string(),
        vec!["name".to_string()],
        vec!["name".to_string()],
        vec!["name".to_string()],
    );
    reg.register(ObjectInitializer::register_entity(
        "TestItem".to_string(),
        item_model,
        vec![AttrValue::Text(String::new())],
    ));

    reg
}

fn test_scene() -> GameScene {
    GameScene::new("TestScene", test_registry()).unwrap()
}

#[test]
fn it_works() {}

#[test]
fn lib_test() {
    let registry = test_registry();
    let mut scene = GameScene::new("TestScene", registry).unwrap();
    println!("{:?}", scene.factory.find(scene.scene_uid).unwrap().values);
    scene
        .factory
        .set_attr_by_name(scene.scene_uid, "name", AttrValue::Text("test".to_string()));
    println!("{:?}", scene.factory.find(scene.scene_uid).unwrap().values[0]);
    {
        let player = scene.create_in_scene("TestPlayer", 0).unwrap();
        println!("{:?}", player);
        let item_box = scene.factory.create_child(player, "TestBox", 1, 0).unwrap();
        let _ = scene.factory.create_child(item_box, "TestItem", 0, 0);
        let _ = scene.factory.create_child(item_box, "TestItem", 0, 0);
    }
    scene.clear_all();
    let GameScene { scene_uid, factory } = scene;
    drop(scene_uid);
    drop(factory);
}

#[test]
fn create_and_find_resolves_exact_object() {
    let mut scene = test_scene();
    let a = scene.create_in_scene("TestItem", 0).unwrap();
    let found = scene.factory.find(a).unwrap();
    assert_eq!(found.uid, a);
    assert!(!found.deleted);
    assert!(scene.factory.find(scene.scene_uid).is_some());
}

#[test]
fn create_unknown_type_fails() {
    let mut scene = test_scene();
    assert!(scene.create_in_scene("NoSuchClass", 0).is_none());
    assert!(scene.factory.create("NoSuchClass", 0).is_none());
}

#[test]
fn destroyed_uid_never_resolves_after_reuse() {
    let mut scene = test_scene();
    let a = scene.create_in_scene("TestItem", 0).unwrap();
    scene.factory.destroy_child(a);
    assert!(scene.factory.find(a).is_none());
    // the freed slot is recycled for the next creation
    let b = scene.create_in_scene("TestItem", 0).unwrap();
    assert_ne!(a, b);
    assert!(scene.factory.find(a).is_none());
    assert_eq!(scene.factory.find(b).unwrap().uid, b);
}

#[test]
fn generation_wraps_to_one() {
    let mut scene = test_scene();
    scene.factory.serial = SERIAL_MAX;
    let a = scene.create_in_scene("TestItem", 0).unwrap();
    assert_eq!(serial_of_uid(a), 1);
    assert_eq!(scene.factory.serial, 1);
}

#[test]
fn deferred_delete_parks_then_drains() {
    let mut scene = test_scene();
    let a = scene.create_in_scene("TestItem", 0).unwrap();
    scene.factory.delete(a);
    assert!(scene.factory.find(a).is_none());
    assert_eq!(scene.factory.deletes.len(), 1);
    scene.factory.clear_deleted();
    assert_eq!(scene.factory.deletes.len(), 0);
}

#[test]
fn double_destroy_is_tolerated() {
    let mut scene = test_scene();
    let a = scene.factory.create("TestItem", 0).unwrap();
    scene.factory.destroy(a);
    assert!(scene.factory.find(a).is_none());
    scene.factory.destroy(a);
    assert!(scene.factory.find(a).is_none());
    scene.factory.delete(a);
    assert_eq!(scene.factory.deletes.len(), 0);
}

#[test]
fn container_scenario_capacity_two() {
    let mut scene = test_scene();
    let c = scene.create_in_scene("TestBox", 2).unwrap();
    let a = scene.factory.create("TestItem", 0).unwrap();
    let b = scene.factory.create("TestItem", 0).unwrap();
    assert!(scene.factory.add_child(c, a, 0));
    assert_eq!(scene.factory.find(a).unwrap().container_pos, 1);
    assert!(scene.factory.add_child(c, b, 0));
    assert_eq!(scene.factory.find(b).unwrap().container_pos, 2);
    let d = scene.factory.create("TestItem", 0).unwrap();
    assert!(!scene.factory.add_child(c, d, 0));
    assert!(scene.factory.remove_child(c, a));
    assert_eq!(scene.factory.find(a).unwrap().container_pos, 0);
    assert!(scene.factory.add_child(c, d, 0));
    assert_eq!(scene.factory.find(d).unwrap().container_pos, 1);
}

#[test]
fn unbounded_container_fills_first_hole() {
    let mut scene = test_scene();
    let c = scene.create_in_scene("TestBox", 0).unwrap();
    let a = scene.factory.create_child(c, "TestItem", 0, 0).unwrap();
    let b = scene.factory.create_child(c, "TestItem", 0, 0).unwrap();
    let e = scene.factory.create_child(c, "TestItem", 0, 0).unwrap();
    assert_eq!(scene.factory.find(a).unwrap().container_pos, 1);
    assert_eq!(scene.factory.find(b).unwrap().container_pos, 2);
    assert_eq!(scene.factory.find(e).unwrap().container_pos, 3);
    assert!(scene.factory.remove_child(c, b));
    let f = scene.factory.create_child(c, "TestItem", 0, 0).unwrap();
    assert_eq!(scene.factory.find(f).unwrap().container_pos, 2);
    assert_eq!(scene.factory.find(c).unwrap().child_num, 3);
}

#[test]
fn full_container_refuses_until_freed() {
    let mut scene = test_scene();
    let c = scene.create_in_scene("TestBox", 1).unwrap();
    let a = scene.factory.create_child(c, "TestItem", 0, 0).unwrap();
    assert!(scene.factory.create_child(c, "TestItem", 0, 0).is_none());
    assert_eq!(scene.factory.find(c).unwrap().child_num, 1);
    assert!(scene.factory.remove_child(c, a));
    assert!(scene.factory.create_child(c, "TestItem", 0, 0).is_some());
}

#[test]
fn positional_add_rules() {
    let mut scene = test_scene();
    let c = scene.create_in_scene("TestBox", 3).unwrap();
    let a = scene.factory.create("TestItem", 0).unwrap();
    let b = scene.factory.create("TestItem", 0).unwrap();
    let d = scene.factory.create("TestItem", 0).unwrap();
    // a lands at the requested slot 2, past the current end
    assert!(scene.factory.add_child(c, a, 2));
    assert_eq!(scene.factory.find(a).unwrap().container_pos, 2);
    // the occupied slot refuses, a position past the bound refuses
    assert!(!scene.factory.add_child(c, b, 2));
    assert!(!scene.factory.add_child(c, b, 4));
    // position 0 fills the first hole
    assert!(scene.factory.add_child(c, b, 0));
    assert_eq!(scene.factory.find(b).unwrap().container_pos, 1);
    assert!(scene.factory.add_child(c, d, 3));
    assert_eq!(scene.factory.find(d).unwrap().container_pos, 3);
}

#[test]
fn destroy_children_clears_subtree() {
    let mut scene = test_scene();
    let player = scene.create_in_scene("TestPlayer", 0).unwrap();
    let item_box = scene.factory.create_child(player, "TestBox", 2, 0).unwrap();
    let i1 = scene.factory.create_child(item_box, "TestItem", 0, 0).unwrap();
    let i2 = scene.factory.create_child(item_box, "TestItem", 0, 0).unwrap();
    let loose = scene.create_in_scene("TestItem", 0).unwrap();

    scene.clear_all();

    assert!(scene.factory.find(scene.scene_uid).is_some());
    for uid in [player, item_box, i1, i2, loose] {
        assert!(scene.factory.find(uid).is_none());
    }
    let root = scene.factory.find(scene.scene_uid).unwrap();
    assert_eq!(root.child_num, 0);
    assert!(root.children.iter().all(|c| c.is_none()));
    assert_eq!(scene.factory.deletes.len(), 0);
}

#[test]
fn destroy_child_detaches_and_recurses() {
    let mut scene = test_scene();
    let player = scene.create_in_scene("TestPlayer", 0).unwrap();
    let item_box = scene.factory.create_child(player, "TestBox", 0, 0).unwrap();
    let i1 = scene.factory.create_child(item_box, "TestItem", 0, 0).unwrap();
    scene.factory.destroy_child(item_box);
    assert!(scene.factory.find(item_box).is_none());
    assert!(scene.factory.find(i1).is_none());
    let p = scene.factory.find(player).unwrap();
    assert_eq!(p.child_num, 0);
    // both released nodes are parked in the deferred queue as corpses
    assert_eq!(scene.factory.deletes.len(), 2);
    assert!(scene.factory.deletes.iter().all(|o| o.deleted && o.destroying));
    // a handle that no longer resolves: tolerated no-op
    scene.factory.destroy_child(item_box);
    assert_eq!(scene.factory.deletes.len(), 2);
}

#[test]
fn child_id_list_order_and_filter() {
    let mut scene = test_scene();
    let c = scene.create_in_scene("TestBox", 0).unwrap();
    let a = scene.factory.create_child(c, "TestItem", 0, 0).unwrap();
    let b = scene.factory.create_child(c, "TestItem", 0, 0).unwrap();
    let all = scene.factory.get_child_id_list(c, ClassType::Any);
    assert_eq!(all, vec![a, b]);
    // no object carries the Item tag, so the filtered list is empty
    let filtered = scene.factory.get_child_id_list(c, ClassType::Item);
    assert!(filtered.is_empty());
}

#[test]
fn first_and_next_child_iteration() {
    let mut scene = test_scene();
    let c = scene.create_in_scene("TestBox", 0).unwrap();
    let a = scene.factory.create_child(c, "TestItem", 0, 0).unwrap();
    let b = scene.factory.create_child(c, "TestItem", 0, 0).unwrap();
    let e = scene.factory.create_child(c, "TestItem", 0, 0).unwrap();
    scene.factory.remove_child(c, b);
    let container = scene.factory.find(c).unwrap();
    let (first, it) = container.get_first_child();
    assert_eq!(first, Some(a));
    assert_eq!(it, 0);
    let (next, it2) = container.get_next_child(it);
    assert_eq!(next, Some(e));
    assert_eq!(it2, 2);
    let (done, it3) = container.get_next_child(it2);
    assert_eq!(done, None);
    assert_eq!(it3, 0);
}

#[test]
fn check_parent_and_destroy_object() {
    let mut scene = test_scene();
    let c = scene.create_in_scene("TestBox", 0).unwrap();
    let a = scene.factory.create_child(c, "TestItem", 0, 0).unwrap();
    assert!(scene.factory.check_parent(a, c));
    assert!(!scene.factory.check_parent(a, scene.scene_uid));
    assert_eq!(scene.factory.get_parent(a), Some(c));
    // the wrong parent changes nothing
    scene.factory.destroy_object(scene.scene_uid, a);
    assert!(scene.factory.find(a).is_some());
    scene.factory.destroy_object(c, a);
    assert!(scene.factory.find(a).is_none());
}

#[test]
fn destroy_self_through_parent() {
    let mut scene = test_scene();
    let c = scene.create_in_scene("TestBox", 0).unwrap();
    let a = scene.factory.create_child(c, "TestItem", 0, 0).unwrap();
    scene.factory.destroy_self(a);
    assert!(scene.factory.find(a).is_none());
    assert_eq!(scene.factory.find(c).unwrap().child_num, 0);
}

#[test]
fn remove_child_wrong_parent_fails() {
    let mut scene = test_scene();
    let c1 = scene.create_in_scene("TestBox", 0).unwrap();
    let c2 = scene.create_in_scene("TestBox", 0).unwrap();
    let a = scene.factory.create_child(c1, "TestItem", 0, 0).unwrap();
    assert!(!scene.factory.remove_child(c2, a));
    assert_eq!(scene.factory.find(a).unwrap().container_pos, 1);
    assert!(scene.factory.remove_child(c1, a));
}

#[test]
fn set_capcity_rules() {
    let mut scene = test_scene();
    let c = scene.create_in_scene("TestBox", 2).unwrap();
    let a = scene.factory.create_child(c, "TestItem", 0, 0).unwrap();
    {
        let slot = index_of_uid(c) as usize;
        let container = scene.factory.objects[slot].as_mut().unwrap();
        // growing always succeeds; shrinking needs an empty container
        assert!(container.set_capcity(5));
        assert_eq!(container.capacity(), 5);
        assert!(!container.set_capcity(1));
        assert_eq!(container.capacity(), 5);
    }
    assert!(scene.factory.remove_child(c, a));
    {
        let slot = index_of_uid(c) as usize;
        let container = scene.factory.objects[slot].as_mut().unwrap();
        // emptied again — holes left by the detach do not block shrinking
        assert_eq!(container.child_count(), 0);
        assert!(container.set_capcity(1));
        assert_eq!(container.capacity(), 1);
    }
    // the shrunken container is usable at its new bound
    let b = scene.factory.create_child(c, "TestItem", 0, 0).unwrap();
    assert_eq!(scene.factory.find(b).unwrap().container_pos, 1);
    assert!(scene.factory.create_child(c, "TestItem", 0, 0).is_none());
}

#[test]
fn uid_composition_exact() {
    assert_eq!(make_uid(1, 0), 0x1_0000_0000);
    assert_eq!(make_uid(3, 5), 0x3_0000_0005);
    assert_eq!(index_of_uid(0x3_0000_0005), 5);
    assert_eq!(serial_of_uid(0x3_0000_0005), 3);
    // the first object a fresh scene creates: generation 1, slot 1
    let mut scene = test_scene();
    let a = scene.create_in_scene("TestItem", 0).unwrap();
    assert_eq!(a, 0x1_0000_0001);
}

#[test]
fn get_owner_is_root() {
    let scene = test_scene();
    assert_eq!(scene.factory.get_owner(), Some(scene.scene_uid));
    assert_eq!(scene.scene_uid, entity_arena::factory::OWNER_UID);
}
