use tls_cell::registry::Registry;

#[test]
fn empty_registry_has_no_slots() {
    let reg: Registry<u32> = Registry::new();
    assert_eq!(reg.len(), 0);
    assert!(!reg.contains(7));
    assert!(reg.lookup(7).is_none());
}

#[test]
fn insert_new_creates_one_slot() {
    let mut reg: Registry<u32> = Registry::new();
    reg.insert_new(7, 41);
    assert_eq!(reg.len(), 1);
    assert!(reg.contains(7));
    assert_eq!(*reg.lookup(7).unwrap(), 41);
    assert!(!reg.contains(8));
}

#[test]
fn get_or_init_initializes_on_first_touch() {
    let mut reg: Registry<String> = Registry::new();
    let v = reg.get_or_init(3, || String::from("first")).clone();
    assert_eq!(v, "first");
    assert_eq!(reg.len(), 1);
}

#[test]
fn get_or_init_reuses_existing_slot() {
    let mut reg: Registry<u32> = Registry::new();
    reg.insert_new(3, 10);
    let v = *reg.get_or_init(3, || 99);
    assert_eq!(v, 10);
    assert_eq!(reg.len(), 1);
}

#[test]
fn set_replaces_only_the_owning_threads_value() {
    let mut reg: Registry<u32> = Registry::new();
    reg.insert_new(1, 100);
    reg.insert_new(2, 200);
    reg.set(1, 111);
    assert_eq!(*reg.lookup(1).unwrap(), 111);
    assert_eq!(*reg.lookup(2).unwrap(), 200);
    assert_eq!(reg.len(), 2);
}

#[test]
fn with_hands_the_slot_value_to_the_caller() {
    let mut reg: Registry<u32> = Registry::new();
    let doubled = reg.with(5, || 21, |v: &u32| *v * 2);
    assert_eq!(doubled, 42);
    let doubled_again = reg.with(5, || 1000, |v: &u32| *v * 2);
    assert_eq!(doubled_again, 42);
    assert_eq!(reg.len(), 1);
}
