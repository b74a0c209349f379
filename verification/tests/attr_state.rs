use entity_arena::attrs::{Attr, AttrValue, Model};
use entity_arena::object::Object;
use entity_arena::registry::{ObjectInitializer, Registry};
use entity_arena::scene::GameScene;

fn player_model() -> Model {
    Model::new(
        "Player".to_string(),
        vec!["hp".to_string(), "name".to_string(), "age".to_string()],
        vec!["name".to_string()],
        vec!["name".to_string(), "age".to_string()],
    )
}

fn player() -> Object {
    Object::new(
        player_model(),
        vec![
            AttrValue::Int(0),
            AttrValue::Text(String::new()),
            AttrValue::Int(0),
        ],
    )
}

#[test]
fn model_new_resolves_indices() {
    let m = player_model();
    assert_eq!(m.saves_index, vec![1]);
    assert_eq!(m.reps_index, vec![1, 2]);
    assert_eq!(m.attrs.len(), 3);
    assert_eq!(m.class_name, "Player");
}

#[test]
fn model_from_fields_matches_explicit_lists() {
    let fields = vec![
        (
            "hp".to_string(),
            Attr {
                save: None,
                replicated: None,
            },
        ),
        (
            "name".to_string(),
            Attr {
                save: Some(()),
                replicated: Some(()),
            },
        ),
        (
            "age".to_string(),
            Attr {
                save: None,
                replicated: Some(()),
            },
        ),
    ];
    let m = Model::from_fields("Player".to_string(), fields);
    let explicit = player_model();
    assert_eq!(m.attrs, explicit.attrs);
    assert_eq!(m.saves, explicit.saves);
    assert_eq!(m.reps, explicit.reps);
    assert_eq!(m.saves_index, explicit.saves_index);
    assert_eq!(m.reps_index, explicit.reps_index);
}

#[test]
fn attr_flags() {
    let a = Attr {
        save: Some(()),
        replicated: None,
    };
    assert!(a.should_save());
    assert!(!a.should_replicate());
    let b = Attr {
        save: None,
        replicated: Some(()),
    };
    assert!(!b.should_save());
    assert!(b.should_replicate());
}

#[test]
fn setting_same_value_is_noop() {
    let mut p = player();
    // the current values set again: accepted, but no tracking effect
    assert!(p.set_attr_by_index(0, AttrValue::Int(0)));
    assert!(p.set_attr_by_index(1, AttrValue::Text(String::new())));
    assert!(p.set_attr_by_index(2, AttrValue::Int(0)));
    assert!(!p.dirty());
    assert!(!p.modify());
    assert!(p.get_modify().is_empty());
}

#[test]
fn persistent_set_dirty_then_clear() {
    let mut p = player();
    assert!(p.set_attr_by_name("name", AttrValue::Text("alice".to_string())));
    assert!(p.dirty());
    p.clear_dirty();
    assert!(!p.dirty());
    // a no-op set keeps it clear
    assert!(p.set_attr_by_name("name", AttrValue::Text("alice".to_string())));
    assert!(!p.dirty());
}

#[test]
fn replicated_set_appends_then_clear() {
    let mut p = player();
    assert!(p.set_attr_by_index(2, AttrValue::Int(7)));
    assert!(p.set_attr_by_index(1, AttrValue::Text("bob".to_string())));
    assert!(p.set_attr_by_index(2, AttrValue::Int(9)));
    // change order kept, the twice-touched index appears twice
    assert_eq!(p.get_modify().as_slice(), &[2, 1, 2]);
    assert!(p.modify());
    p.clear_modify();
    assert!(!p.modify());
    assert!(p.get_modify().is_empty());
}

#[test]
fn non_replicated_set_leaves_modify_empty() {
    let mut p = player();
    assert!(p.set_attr_by_index(0, AttrValue::Int(42)));
    assert!(!p.dirty());
    assert!(!p.modify());
    assert_eq!(p.get_attr_by_index(0), Some(&AttrValue::Int(42)));
}

#[test]
fn type_mismatch_fails_explicitly() {
    let mut p = player();
    assert!(!p.set_attr_by_index(0, AttrValue::Text("oops".to_string())));
    assert!(!p.set_attr_by_name("name", AttrValue::Int(1)));
    assert!(!p.set_attr_by_index(0, AttrValue::Bool(true)));
    assert!(!p.dirty());
    assert!(!p.modify());
    assert_eq!(p.get_attr_by_index(0), Some(&AttrValue::Int(0)));
}

#[test]
fn out_of_range_and_unknown_name_fail() {
    let mut p = player();
    assert!(!p.set_attr_by_index(3, AttrValue::Int(1)));
    assert!(!p.set_attr_by_name("mana", AttrValue::Int(1)));
    assert!(p.get_attr_by_index(3).is_none());
    assert!(p.get_attr_by_name("mana").is_none());
}

#[test]
fn attr_name_index_lookup() {
    let p = player();
    assert_eq!(p.get_attr_count(), 3);
    assert_eq!(p.get_attr_index("age"), Some(2));
    assert_eq!(p.get_attr_index("mana"), None);
    assert_eq!(p.get_attr_name(1).map(|s| s.as_str()), Some("name"));
    assert!(p.get_attr_name(3).is_none());
    assert_eq!(p.get_attrs().len(), 3);
    assert_eq!(p.save_attrs().as_slice(), &["name".to_string()]);
    assert_eq!(p.rep_attrs().len(), 2);
    assert_eq!(p.save_attrs_index().as_slice(), &[1]);
    assert_eq!(p.rep_attrs_index().as_slice(), &[1, 2]);
}

#[test]
fn init_installs_model_and_values() {
    let mut p = player();
    assert!(p.set_attr_by_index(2, AttrValue::Int(7)));
    let narrow = Model::new(
        "Player".to_string(),
        vec!["hp".to_string()],
        Vec::new(),
        Vec::new(),
    );
    p.init(narrow, vec![AttrValue::Int(9)]);
    assert_eq!(p.get_attr_count(), 1);
    assert_eq!(p.get_attr_by_index(0), Some(&AttrValue::Int(9)));
    // tree and tracking state survive a model swap
    assert_eq!(p.get_modify().as_slice(), &[2]);
    assert_eq!(p.child_count(), 0);
}

#[test]
fn change_attr_tracks_by_flag() {
    let mut p = player();
    p.change_attr(1);
    assert!(p.dirty());
    assert_eq!(p.get_modify().as_slice(), &[1]);
    p.change_attr(0);
    assert_eq!(p.get_modify().as_slice(), &[1]);
}

#[test]
fn factory_level_attribute_setters() {
    let mut reg = Registry::new();
    let scene_model = Model::new(
        "Root".to_string(),
        vec!["name".to_string()],
        Vec::new(),
        Vec::new(),
    );
    reg.register(ObjectInitializer::register_entity(
        "Root".to_string(),
        scene_model,
        vec![AttrValue::Text(String::new())],
    ));
    reg.register(ObjectInitializer::register_entity(
        "Player".to_string(),
        player_model(),
        vec![
            AttrValue::Int(0),
            AttrValue::Text(String::new()),
            AttrValue::Int(0),
        ],
    ));
    let mut scene = GameScene::new("Root", reg).unwrap();
    let p = scene.create_in_scene("Player", 0).unwrap();
    assert!(scene.factory.set_attr_by_name(p, "name", AttrValue::Text("carol".to_string())));
    assert!(scene.factory.set_attr_by_index(p, 2, AttrValue::Int(30)));
    assert!(!scene.factory.set_attr_by_index(p, 2, AttrValue::Bool(false)));
    let obj = scene.factory.find(p).unwrap();
    assert!(obj.dirty);
    assert_eq!(obj.modify_attrs.as_slice(), &[1, 2]);
    assert_eq!(obj.values[1], AttrValue::Text("carol".to_string()));
    // a stale handle fails
    scene.factory.destroy_child(p);
    assert!(!scene.factory.set_attr_by_index(p, 2, AttrValue::Int(1)));
}
