use std::cell::RefCell;
use std::rc::Rc;

use entity_arena::maths::rand_range;
use entity_arena::options::{load_option, with_port, OptionSetting};
use entity_arena::attrs::{AttrValue, Model};
use entity_arena::registry::{ObjectInitializer, Registry};
use entity_arena::wire::{encode_message, parse_header, Message, MAX_LEN};

#[test]
fn main_test() {
    let rc = Rc::new(RefCell::new(1));
    let b = rc.clone();
    let rc2 = Rc::new(RefCell::new(1));
    let pt1 = rc.as_ptr();
    let pt2 = b.as_ptr();
    let pt3 = rc2.as_ptr();
    println!("{}", pt1 == pt2);
    println!("{}", pt1 == pt3);
}

#[test]
fn encode_no_body_exact_bytes() {
    let m = Message::new_no_body(2);
    let frame = encode_message(&m).unwrap();
    assert_eq!(frame, vec![4, 0, 0, 0, 2, 0, 0, 0]);
}

#[test]
fn encode_with_body_exact_bytes() {
    let m = Message::new(2, vec![97, 98]);
    let frame = encode_message(&m).unwrap();
    assert_eq!(frame, vec![6, 0, 0, 0, 2, 0, 0, 0, 97, 98]);
}

#[test]
fn encode_negative_code_little_endian() {
    let m = Message::new_no_body(-1);
    let frame = encode_message(&m).unwrap();
    assert_eq!(frame, vec![4, 0, 0, 0, 255, 255, 255, 255]);
}

#[test]
fn encode_oversize_fails() {
    let m = Message::new(1, vec![0u8; MAX_LEN]);
    assert!(encode_message(&m).is_none());
    let m2 = Message::new(1, vec![0u8; MAX_LEN - 8]);
    assert!(encode_message(&m2).is_none());
    let m3 = Message::new(1, vec![0u8; MAX_LEN - 9]);
    assert!(encode_message(&m3).is_some());
}

#[test]
fn parse_header_bounds() {
    assert_eq!(parse_header(3), None);
    assert_eq!(parse_header(-5), None);
    assert_eq!(parse_header(4), Some(0));
    assert_eq!(parse_header(10), Some(6));
    assert_eq!(parse_header(MAX_LEN as i32), Some(MAX_LEN - 4));
    assert_eq!(parse_header(MAX_LEN as i32 + 1), None);
}

#[test]
fn load_option_applies_in_order() {
    let opts = vec![with_port(7777)];
    let options = load_option(&opts);
    assert_eq!(options.port, 7777);
    let opts2 = vec![with_port(1), OptionSetting::Port(9), with_port(2)];
    assert_eq!(load_option(&opts2).port, 2);
    let none: Vec<OptionSetting> = Vec::new();
    assert_eq!(load_option(&none).port, 0);
}

#[test]
fn rand_range_bounds() {
    for _ in 0..50 {
        let r = rand_range(5, 8);
        assert!(5 <= r && r < 8);
    }
    assert_eq!(rand_range(10, 11), 10);
    assert_eq!(rand_range(7, 7), 0);
    assert_eq!(rand_range(9, 3), 0);
}

#[test]
fn registry_lookup_and_bounds() {
    let mut reg = Registry::new();
    let m = Model::new(
        "Thing".to_string(),
        vec!["name".to_string()],
        Vec::new(),
        Vec::new(),
    );
    reg.register(ObjectInitializer::register_entity(
        "Thing".to_string(),
        m,
        vec![AttrValue::Text(String::new())],
    ));
    assert_eq!(reg.get_class_index("Thing"), Some(0));
    assert_eq!(reg.get_class_index("Other"), None);
    assert!(reg.create_object_by_index(0).is_some());
    assert!(reg.create_object_by_index(1).is_none());
    assert!(reg.create_object("Thing").is_some());
    assert!(reg.create_object("Other").is_none());
    let obj = reg.create_object("Thing").unwrap();
    assert_eq!(obj.uid, 0);
    assert_eq!(obj.container_pos, 0);
    assert!(!obj.deleted);
}
