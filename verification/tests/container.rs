use bevy_tag::{hierarchical_gid, TagContainer};

#[test]
fn tag_container_builder() {
    let container = TagContainer::new().with(1).with(2).with(3);

    assert_eq!(container.len(), 3);
    assert!(container.has(1));
    assert!(container.has(2));
    assert!(container.has(3));
    assert!(!container.has(4));
}

#[test]
fn tag_container_insert_remove() {
    let mut container = TagContainer::new();

    assert!(container.insert(1));
    assert!(!container.insert(1));
    assert_eq!(container.len(), 1);

    assert!(container.remove(1));
    assert!(!container.remove(1));
    assert!(container.is_empty());
}

#[test]
fn tag_container_from_iter() {
    let container: TagContainer = TagContainer::from_iter(vec![1, 2, 3]);
    assert_eq!(container.len(), 3);
}

#[test]
fn tag_container_extend() {
    let mut container = TagContainer::single(1);
    container.extend(vec![2, 3]);
    assert_eq!(container.len(), 3);
}

#[test]
fn tag_container_clear() {
    let mut container = TagContainer::new().with(1).with(2);
    container.clear();
    assert!(container.is_empty());
}

#[test]
fn tag_container_from_iter_drops_repeats() {
    let container = TagContainer::from_iter(vec![7, 7, 8]);
    assert_eq!(container.len(), 2);
    assert!(container.has(7));
    assert!(container.has(8));
}

#[test]
fn tag_container_iter_lists_every_tag_once() {
    let container = TagContainer::new().with(5).with(9).with(5);
    let mut all = container.iter();
    all.sort();
    assert_eq!(all, vec![5, 9]);
    assert!(TagContainer::default().iter().is_empty());
}

#[test]
fn tag_container_descendant_queries() {
    let movement = hierarchical_gid(&[b"Movement"]);
    let idle = hierarchical_gid(&[b"Movement", b"Idle"]);
    let running = hierarchical_gid(&[b"Movement", b"Running"]);
    let block = hierarchical_gid(&[b"Combat", b"Block"]);
    let combat = hierarchical_gid(&[b"Combat"]);

    let container = TagContainer::new().with(idle).with(running).with(block);
    assert!(container.has_descendant_of(movement));
    assert!(container.has_descendant_of(combat));
    assert!(container.has_descendant_of(idle));
    assert!(!container.has_descendant_of(hierarchical_gid(&[b"Other"])));

    let mut under = container.descendants_of(movement);
    under.sort();
    let mut expected = vec![idle, running];
    expected.sort();
    assert_eq!(under, expected);
    assert_eq!(container.descendants_of(combat), vec![block]);
    assert!(TagContainer::new().descendants_of(movement).is_empty());
    assert!(!TagContainer::new().has_descendant_of(movement));
}
