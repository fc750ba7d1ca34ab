use scene_viewer::index::IndexDriver;
use scene_viewer::registry::ResourceRegistry;

#[test]
fn index_driver_counts_up_from_zero() {
    let mut ids = IndexDriver::new();
    assert_eq!(ids.next_id(), 0);
    assert_eq!(ids.next_id(), 1);
    assert_eq!(ids.next_id(), 2);
    let mut other = IndexDriver::new();
    assert_eq!(other.next_id(), 0);
    assert_eq!(ids.next_id(), 3);
}

#[test]
fn registry_returns_what_was_inserted() {
    let mut registry: ResourceRegistry<String> = ResourceRegistry::new();
    assert_eq!(registry.len(), 0);
    assert!(!registry.contains(7));
    registry.insert(7, String::from("seven"));
    registry.insert(2, String::from("two"));
    assert!(registry.contains(7));
    assert!(registry.contains(2));
    assert!(!registry.contains(3));
    assert_eq!(registry.get(7), "seven");
    assert_eq!(registry.get(2), "two");
    assert_eq!(registry.len(), 2);
}

#[test]
fn registry_replace_swaps_one_entry() {
    let mut registry: ResourceRegistry<u32> = ResourceRegistry::new();
    registry.insert(1, 10);
    registry.insert(2, 20);
    let previous = registry.replace(1, 11);
    assert_eq!(previous, 10);
    assert_eq!(*registry.get(1), 11);
    assert_eq!(*registry.get(2), 20);
    assert_eq!(registry.len(), 2);
}
