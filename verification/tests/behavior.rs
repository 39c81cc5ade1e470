use std::collections::HashMap;

use chainmap::ChainMap;

#[test]
fn never_empty_after_each_operation() {
    let mut cm: ChainMap<&str, i32> = ChainMap::default();
    assert!(cm.maps.len() >= 1);
    cm.insert("a", 1);
    assert!(cm.maps.len() >= 1);
    cm.new_child();
    assert!(cm.maps.len() >= 1);
    let mut with = HashMap::new();
    with.insert("b", 2);
    cm.new_child_with(with);
    assert!(cm.maps.len() >= 1);
    let _ = cm.remove_child();
    let _ = cm.remove_child();
    let _ = cm.remove_child();
    let _ = cm.remove_child();
    assert!(cm.maps.len() >= 1);
}

#[test]
fn new_child_with_prefilled() {
    let mut cm = ChainMap::default();
    cm.insert("x", 0);
    let mut layer = HashMap::new();
    layer.insert("y", 5);
    cm.new_child_with(layer);
    assert_eq!(cm.get(&"y"), Some(&5));
    assert_eq!(cm.get(&"x"), Some(&0));
    assert_eq!(cm.maps.len(), 2);
}

#[test]
fn insert_previous_value_same_layer() {
    let mut cm = ChainMap::default();
    assert_eq!(cm.insert("k", 1), None);
    assert_eq!(cm.insert("k", 2), Some(1));
    assert_eq!(cm.get(&"k"), Some(&2));
}

#[test]
fn insert_shadowed_key_returns_none() {
    let mut cm = ChainMap::default();
    cm.insert("k", 1);
    cm.new_child();
    // "k" is bound only in a lower layer, so there is no previous value
    // within the top layer and the lower binding is left alone.
    assert_eq!(cm.insert("k", 2), None);
    assert_eq!(cm.get(&"k"), Some(&2));
    assert_eq!(cm.maps[0].get("k"), Some(&1));
}

#[test]
fn get_mut_absent_is_none() {
    let mut cm: ChainMap<&str, i32> = ChainMap::default();
    cm.insert("a", 1);
    cm.new_child();
    assert!(cm.get_mut(&"missing").is_none());
}

#[test]
fn shadow_and_pop_scenario() {
    let mut cm = ChainMap::default();
    cm.insert("x", 0);
    cm.insert("y", 2);
    cm.new_child();
    cm.insert("x", 1);
    assert_eq!(cm.get(&"x"), Some(&1));
    assert_eq!(cm.get(&"y"), Some(&2));
    let popped = cm.remove_child().unwrap();
    assert_eq!(popped.get("x"), Some(&1));
    assert_eq!(popped.len(), 1);
    assert_eq!(cm.get(&"x"), Some(&0));
    assert_eq!(cm.get(&"y"), Some(&2));
}

#[test]
fn pop_single_layer_scenario() {
    let mut cm = ChainMap::default();
    cm.insert("x", 0);
    let popped = cm.remove_child().unwrap();
    assert_eq!(popped.get("x"), Some(&0));
    assert_eq!(popped.len(), 1);
    assert_eq!(cm.get(&"x"), None);
    assert_eq!(cm.maps.len(), 1);
    assert!(cm.maps[0].is_empty());
}

#[test]
fn pop_multi_layer_returns_exact_top() {
    let mut cm = ChainMap::default();
    cm.insert("base", 0);
    cm.new_child();
    cm.insert("a", 1);
    cm.insert("b", 2);
    let before = cm.maps.len();
    let popped = cm.remove_child().unwrap();
    assert_eq!(cm.maps.len(), before - 1);
    let mut expected = HashMap::new();
    expected.insert("a", 1);
    expected.insert("b", 2);
    assert_eq!(popped, expected);
}

#[test]
fn get_mut_deep_layer_no_duplicate() {
    let mut cm = ChainMap::default();
    cm.insert("x", 1);
    cm.new_child();
    cm.new_child();
    {
        let v = cm.get_mut(&"x").unwrap();
        *v = 42;
    }
    assert_eq!(cm.get(&"x"), Some(&42));
    assert!(cm.maps[1].is_empty());
    assert!(cm.maps[2].is_empty());
    assert_eq!(cm.maps[0].get("x"), Some(&42));
}

#[test]
fn absent_key_any_depth() {
    let mut cm: ChainMap<&str, i32> = ChainMap::default();
    cm.new_child();
    cm.new_child();
    assert_eq!(cm.get(&"nope"), None);
    assert!(cm.get_mut(&"nope").is_none());
}

#[test]
fn new_with_base_contents() {
    let mut base = HashMap::new();
    base.insert(10u64, 100u64);
    base.insert(20, 200);
    let cm = ChainMap::new(base);
    assert_eq!(cm.get(&10), Some(&100));
    assert_eq!(cm.get(&20), Some(&200));
    assert_eq!(cm.maps.len(), 1);
}
