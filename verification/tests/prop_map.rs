use spring_anim::prop_map::PropMap;

#[test]
fn insert_get_replace_remove() {
    let mut m: PropMap<u32> = PropMap::new();
    let a = "opacity".to_string();
    let b = "transform".to_string();
    assert_eq!(m.get(&a), None);
    m.insert(a.clone(), 1);
    m.insert(b.clone(), 2);
    assert_eq!(m.get(&a), Some(&1));
    assert_eq!(m.get(&b), Some(&2));
    m.insert(a.clone(), 3);
    assert_eq!(m.get(&a), Some(&3));
    m.remove(&a);
    assert!(!m.contains_key(&a));
    assert!(m.contains_key(&b));
    m.remove(&a);
    assert_eq!(m.get(&b), Some(&2));
}

#[test]
fn clone_keeps_the_keys() {
    let mut m: PropMap<String> = PropMap::new();
    m.insert("opacity".to_string(), "1".to_string());
    let c = m.clone();
    assert_eq!(c.get(&"opacity".to_string()), Some(&"1".to_string()));
}
