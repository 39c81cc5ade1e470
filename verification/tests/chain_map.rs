use std::collections::HashMap;

use chainmap::ChainMap;

#[test]
fn initialization() {
    let mut test_map = HashMap::new();
    test_map.insert("test", 1);
    let chain_map = ChainMap::new(test_map);

    assert!(chain_map.maps.len() > 0);
    assert_eq!(chain_map.maps[0].get("test"), Some(&1));
}

#[test]
fn initialization_default() {
    let chain_map: ChainMap<(), ()> = ChainMap::default();

    assert!(chain_map.maps.len() > 0);
    assert!(chain_map.maps[0].is_empty());
}

#[test]
fn insert() {
    let mut chain_map = ChainMap::default();
    assert!(chain_map.insert("test", 1).is_none());

    assert_eq!(chain_map.maps[0].get("test"), Some(&1));
}

#[test]
fn get() {
    let mut chain_map = ChainMap::default();
    chain_map.insert("test", 1);

    assert_eq!(chain_map.get(&"test"), Some(&1));
}

#[test]
fn get_none() {
    let chain_map: ChainMap<&str, ()> = ChainMap::default();
    assert_eq!(chain_map.get(&"test"), None);
}

#[test]
fn get_mut() {
    let mut chain_map = ChainMap::default();
    chain_map.insert("test", 1);

    let test_value = chain_map.get_mut(&"test");
    assert_eq!(test_value, Some(&mut 1));
    *test_value.unwrap() += 1;
    let changed = chain_map.get(&"test");
    assert_eq!(changed, Some(&2));
}

#[test]
fn get_mut_outer() {
    let mut chain_map = ChainMap::default();
    chain_map.insert("outer", 1);
    chain_map.new_child();
    chain_map.insert("inner", 2);
    let ret = chain_map.get_mut("outer").unwrap();
    *ret += 9000;

    let changed = chain_map.get(&"outer");
    assert_eq!(changed, Some(&9001));
}

#[test]
fn index() {
    let mut chain_map = ChainMap::default();
    chain_map.insert("test", 1);

    assert_eq!(*chain_map.index(&"test"), 1);
}

#[test]
fn new_child() {
    let mut chain_map = ChainMap::default();
    chain_map.insert("test", 1);
    chain_map.new_child();
    assert!(chain_map.maps.len() > 1);
}

#[test]
fn scopes() {
    let mut chain_map = ChainMap::default();
    chain_map.insert("x", 0);
    chain_map.insert("y", 2);
    chain_map.new_child();
    chain_map.insert("x", 1);
    assert_eq!(chain_map.get("x"), Some(&1));
    assert_eq!(chain_map.get("y"), Some(&2));
}

#[test]
fn remove_child() {
    let mut chain_map = ChainMap::default();
    chain_map.insert("x", 0);
    chain_map.insert("y", 2);
    chain_map.new_child();
    chain_map.insert("x", 1);
    let ret = chain_map.remove_child().unwrap();
    assert_eq!(ret.get("x"), Some(&1));
    assert_eq!(chain_map.get("x"), Some(&0));
}

#[test]
fn remove_child_length_1() {
    let mut chain_map = ChainMap::default();
    chain_map.insert("x", 0);
    let _ = chain_map.remove_child();
    assert_eq!(chain_map.get("x"), None);
    assert!(chain_map.maps.len() == 1);
}
