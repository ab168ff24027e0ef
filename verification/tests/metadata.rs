use bevy_tag::NamespaceRegistry;
use zerocopy::{FromBytes, IntoBytes};

#[test]
fn metadata_typed_set_get() {
    let mut reg = NamespaceRegistry::new();
    let gid = reg.register("Combat").unwrap();

    reg.set_meta_raw(gid, "damage", 50i32.as_bytes().to_vec());
    reg.set_meta_raw(gid, "range", 100u16.as_bytes().to_vec());

    let damage = reg.get_meta_raw(gid, "damage").and_then(|b| i32::ref_from_bytes(b).ok());
    assert_eq!(damage, Some(&50i32));
    let range = reg.get_meta_raw(gid, "range").and_then(|b| u16::ref_from_bytes(b).ok());
    assert_eq!(range, Some(&100u16));
    let missing = reg.get_meta_raw(gid, "nonexistent").and_then(|b| i32::ref_from_bytes(b).ok());
    assert_eq!(missing, None);

    // Four stored bytes are no u64.
    let wrong = reg.get_meta_raw(gid, "damage").and_then(|b| u64::ref_from_bytes(b).ok());
    assert_eq!(wrong, None);
}

#[test]
fn metadata_raw_set_get() {
    let mut reg = NamespaceRegistry::new();
    let gid = reg.register("Combat").unwrap();

    reg.set_meta_raw(gid, "data", vec![1, 2, 3, 4]);

    assert_eq!(reg.get_meta_raw(gid, "data"), Some(&[1, 2, 3, 4][..]));
}

#[test]
fn metadata_has_and_remove() {
    let mut reg = NamespaceRegistry::new();
    let gid = reg.register("Combat").unwrap();

    reg.set_meta_raw(gid, "damage", 50i32.as_bytes().to_vec());

    assert!(reg.has_meta(gid, "damage"));
    assert!(!reg.has_meta(gid, "nonexistent"));

    let removed = reg.remove_meta(gid, "damage");
    assert!(removed.is_some());
    assert!(!reg.has_meta(gid, "damage"));
}

#[test]
fn metadata_keys_and_iter() {
    let mut reg = NamespaceRegistry::new();
    let gid = reg.register("Combat").unwrap();

    reg.set_meta_raw(gid, "damage", 50i32.as_bytes().to_vec());
    reg.set_meta_raw(gid, "range", 10i32.as_bytes().to_vec());

    let keys: Vec<_> = reg.meta_keys(gid).unwrap();
    assert!(keys.contains(&"damage"));
    assert!(keys.contains(&"range"));

    let pairs: Vec<_> = reg.meta_iter(gid).unwrap();
    assert_eq!(pairs.len(), 2);
}

#[test]
fn metadata_overwrite() {
    let mut reg = NamespaceRegistry::new();
    let gid = reg.register("Combat").unwrap();

    let old = reg.set_meta_raw(gid, "damage", 50i32.as_bytes().to_vec());
    assert!(old.is_none());

    let old = reg.set_meta_raw(gid, "damage", 100i32.as_bytes().to_vec());
    assert!(old.is_some());

    let damage = reg.get_meta_raw(gid, "damage").and_then(|b| i32::ref_from_bytes(b).ok());
    assert_eq!(damage, Some(&100i32));
}

#[test]
fn metadata_returns_the_bytes_it_replaces_and_removes() {
    let mut reg = NamespaceRegistry::new();
    assert_eq!(reg.set_meta_raw(7, "k", vec![1]), None);
    assert_eq!(reg.set_meta_raw(7, "k", vec![2, 3]), Some(vec![1]));
    assert_eq!(reg.get_meta_raw(7, "k"), Some(&[2u8, 3][..]));
    assert_eq!(reg.remove_meta(7, "k"), Some(vec![2, 3]));
    assert_eq!(reg.remove_meta(7, "k"), None);
    assert_eq!(reg.get_meta_raw(7, "k"), None);
    assert_eq!(reg.remove_meta(8, "k"), None);
}

#[test]
fn metadata_is_kept_per_identifier_and_key() {
    let mut reg = NamespaceRegistry::new();
    reg.set_meta_raw(1, "a", vec![10]);
    reg.set_meta_raw(1, "b", vec![11]);
    reg.set_meta_raw(2, "a", vec![20]);
    assert_eq!(reg.get_meta_raw(1, "a"), Some(&[10u8][..]));
    assert_eq!(reg.get_meta_raw(1, "b"), Some(&[11u8][..]));
    assert_eq!(reg.get_meta_raw(2, "a"), Some(&[20u8][..]));
    assert_eq!(reg.get_meta_raw(2, "b"), None);
    assert!(!reg.has_meta(3, "a"));

    let mut keys = reg.meta_keys(1).unwrap();
    keys.sort();
    assert_eq!(keys, vec!["a", "b"]);
    let mut pairs = reg.meta_iter(1).unwrap();
    pairs.sort();
    assert_eq!(pairs, vec![("a", &[10u8][..]), ("b", &[11u8][..])]);
}

#[test]
fn metadata_listing_tells_never_stored_from_emptied() {
    let mut reg = NamespaceRegistry::new();
    assert!(reg.meta_keys(1).is_none());
    assert!(reg.meta_iter(1).is_none());
    reg.set_meta_raw(1, "a", vec![10]);
    reg.remove_meta(1, "a");
    assert_eq!(reg.meta_keys(1), Some(vec![]));
    assert_eq!(reg.meta_iter(1), Some(vec![]));
}

#[test]
fn metadata_leaves_the_nodes_alone() {
    let mut reg = NamespaceRegistry::new();
    let gid = reg.register("A.B").unwrap();
    let order = reg.dfs_order().to_vec();
    reg.set_meta_raw(gid, "k", vec![1, 2]);
    reg.remove_meta(gid, "k");
    assert_eq!(reg.len(), 2);
    assert_eq!(reg.tree_depth(), 2);
    assert_eq!(reg.dfs_order().to_vec(), order);
    assert_eq!(reg.gid_of("A.B"), Some(gid));
}

#[test]
fn metadata_of_another_size_is_not_handed_out() {
    let mut reg = NamespaceRegistry::new();
    let gid = reg.register("Combat").unwrap();
    reg.set_meta_raw(gid, "damage", 50i32.as_bytes().to_vec());
    assert_eq!(reg.get_meta_sized(gid, "damage", 4), Some(&50i32.to_ne_bytes()[..]));
    assert_eq!(reg.get_meta_sized(gid, "damage", 8), None);
    assert_eq!(reg.get_meta_sized(gid, "damage", 0), None);
    assert_eq!(reg.get_meta_sized(gid, "range", 4), None);
    reg.set_meta_raw(gid, "nothing", vec![]);
    assert_eq!(reg.get_meta_sized(gid, "nothing", 0), Some(&[][..]));
}
