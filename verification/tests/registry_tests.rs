use tchux::registry::ClientRegistry;

#[test]
fn insert_get_remove() {
    let mut r: ClientRegistry<u32> = ClientRegistry::new();
    assert_eq!(r.len(), 0);
    r.insert("alice".to_string(), 1);
    r.insert("bob".to_string(), 2);
    assert_eq!(r.len(), 2);
    assert_eq!(r.get(&"alice".to_string()), Some(&1));
    assert_eq!(r.get(&"bob".to_string()), Some(&2));
    assert_eq!(r.get(&"carol".to_string()), None);
    r.remove(&"alice".to_string());
    assert_eq!(r.len(), 1);
    assert_eq!(r.get(&"alice".to_string()), None);
    assert_eq!(r.get(&"bob".to_string()), Some(&2));
}

#[test]
fn inserting_a_name_again_replaces_its_handle() {
    let mut r: ClientRegistry<&str> = ClientRegistry::new();
    r.insert("alice".to_string(), "first");
    r.insert("alice".to_string(), "second");
    assert_eq!(r.len(), 1);
    assert_eq!(r.get(&"alice".to_string()), Some(&"second"));
}

#[test]
fn removing_a_missing_name_changes_nothing() {
    let mut r: ClientRegistry<u8> = ClientRegistry::new();
    r.insert("a".to_string(), 1);
    r.remove(&"b".to_string());
    assert_eq!(r.len(), 1);
    assert_eq!(r.get(&"a".to_string()), Some(&1));
}

#[test]
fn each_member_is_reached_once() {
    let mut r: ClientRegistry<u32> = ClientRegistry::new();
    for (i, name) in ["a", "b", "c", "b", "a"].iter().enumerate() {
        r.insert(name.to_string(), i as u32);
    }
    let mut seen: Vec<u32> = (0..r.len()).map(|i| *r.handle(i)).collect();
    seen.sort();
    assert_eq!(seen, vec![2, 3, 4]);
}
