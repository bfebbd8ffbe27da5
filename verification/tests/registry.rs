use terminal_chat::registry::Registry;

#[test]
fn insert_then_contains() {
    let mut reg = Registry::new();
    assert!(!reg.contains(&"alice".to_string()));
    reg.insert("alice".to_string(), 7);
    assert!(reg.contains(&"alice".to_string()));
    assert!(!reg.contains(&"bob".to_string()));
}

#[test]
fn remove_is_unconditional() {
    let mut reg = Registry::new();
    reg.insert("alice".to_string(), 7);
    reg.remove(&"alice".to_string());
    assert!(!reg.contains(&"alice".to_string()));
    // removing again is a no-op
    reg.remove(&"alice".to_string());
    assert!(!reg.contains(&"alice".to_string()));
}

#[test]
fn same_name_overwrites_silently() {
    let mut reg = Registry::new();
    reg.insert("alice".to_string(), 1);
    reg.insert("alice".to_string(), 2);
    assert!(reg.contains(&"alice".to_string()));
    reg.remove(&"alice".to_string());
    // one removal suffices: the second registration replaced the first
    assert!(!reg.contains(&"alice".to_string()));
}

#[test]
fn removal_leaves_others_alone() {
    let mut reg = Registry::new();
    reg.insert("alice".to_string(), 1);
    reg.insert("bob".to_string(), 2);
    reg.insert("carol".to_string(), 3);
    reg.remove(&"bob".to_string());
    assert!(reg.contains(&"alice".to_string()));
    assert!(!reg.contains(&"bob".to_string()));
    assert!(reg.contains(&"carol".to_string()));
}
