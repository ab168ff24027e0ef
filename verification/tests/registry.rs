use bevy_tag::{
    depth_of, gid_is_descendant_of, hierarchical_gid, parent_of, NamespaceDef, NamespaceRegistry,
    RegistryError,
};

fn sample_defs() -> Vec<NamespaceDef> {
    vec![
        NamespaceDef::new("Movement", None),
        NamespaceDef::new("Movement.Idle", Some("Movement")),
        NamespaceDef::new("Movement.Running", Some("Movement")),
        NamespaceDef::new("Movement.Jumping", Some("Movement")),
        NamespaceDef::new("Combat", None),
        NamespaceDef::new("Combat.Attack", Some("Combat")),
        NamespaceDef::new("Combat.Block", Some("Combat")),
    ]
}

fn dfs_paths(reg: &NamespaceRegistry) -> Vec<&str> {
    reg.dfs_order().iter().filter_map(|&gid| reg.path_of(gid)).collect()
}

#[test]
fn build_and_lookup() {
    let reg = NamespaceRegistry::build(&sample_defs()).unwrap();

    assert!(reg.gid_of("Movement").is_some());
    assert!(reg.gid_of("Movement.Idle").is_some());
    assert!(reg.gid_of("Combat.Attack").is_some());

    let gid = reg.gid_of("Movement.Running").unwrap();
    assert_eq!(reg.path_of(gid).unwrap(), "Movement.Running");
}

#[test]
fn gid_is_stable_regardless_of_def_order() {
    let defs_a = &[
        NamespaceDef::new("A", None),
        NamespaceDef::new("A.B", Some("A")),
        NamespaceDef::new("X", None),
    ];
    let defs_b = &[
        NamespaceDef::new("X", None),
        NamespaceDef::new("A.B", Some("A")),
        NamespaceDef::new("A", None),
    ];

    let reg_a = NamespaceRegistry::build(defs_a).unwrap();
    let reg_b = NamespaceRegistry::build(defs_b).unwrap();

    assert_eq!(reg_a.gid_of("A"), reg_b.gid_of("A"));
    assert_eq!(reg_a.gid_of("A.B"), reg_b.gid_of("A.B"));
    assert_eq!(reg_a.gid_of("X"), reg_b.gid_of("X"));
}

#[test]
fn gid_is_stable_after_adding_sibling() {
    let defs_v1 = &[
        NamespaceDef::new("A", None),
        NamespaceDef::new("A.B", Some("A")),
        NamespaceDef::new("X", None),
    ];
    let defs_v2 = &[
        NamespaceDef::new("A", None),
        NamespaceDef::new("A.B", Some("A")),
        NamespaceDef::new("A.NEW", Some("A")),
        NamespaceDef::new("X", None),
    ];

    let reg_v1 = NamespaceRegistry::build(defs_v1).unwrap();
    let reg_v2 = NamespaceRegistry::build(defs_v2).unwrap();

    assert_eq!(reg_v1.gid_of("A"), reg_v2.gid_of("A"));
    assert_eq!(reg_v1.gid_of("A.B"), reg_v2.gid_of("A.B"));
    assert_eq!(reg_v1.gid_of("X"), reg_v2.gid_of("X"));

    assert!(reg_v2.gid_of("A.NEW").is_some());
}

#[test]
fn subtree_check_o1() {
    let reg = NamespaceRegistry::build(&sample_defs()).unwrap();

    let movement = reg.gid_of("Movement").unwrap();
    let idle = reg.gid_of("Movement.Idle").unwrap();
    let running = reg.gid_of("Movement.Running").unwrap();
    let combat = reg.gid_of("Combat").unwrap();
    let attack = reg.gid_of("Combat.Attack").unwrap();

    assert!(gid_is_descendant_of(idle, movement));
    assert!(gid_is_descendant_of(running, movement));

    assert!(!gid_is_descendant_of(attack, movement));

    assert!(gid_is_descendant_of(attack, combat));

    assert!(gid_is_descendant_of(movement, movement));

    assert_eq!(reg.is_descendant_of_path("Movement.Idle", "Movement"), Some(true));
    assert_eq!(reg.is_descendant_of_path("Combat.Attack", "Movement"), Some(false));
    assert_eq!(reg.is_descendant_of_path("Unknown", "Movement"), None);
}

#[test]
fn descendants_of_collects_subtree() {
    let reg = NamespaceRegistry::build(&sample_defs()).unwrap();
    let movement = reg.gid_of("Movement").unwrap();

    let desc = reg.descendants_of(movement);
    let desc_paths: Vec<&str> = desc.iter().filter_map(|&gid| reg.path_of(gid)).collect();

    assert!(desc_paths.contains(&"Movement"));
    assert!(desc_paths.contains(&"Movement.Idle"));
    assert!(desc_paths.contains(&"Movement.Running"));
    assert!(desc_paths.contains(&"Movement.Jumping"));
    assert!(!desc_paths.contains(&"Combat"));
    assert!(!desc_paths.contains(&"Combat.Attack"));
}

#[test]
fn depth_tracking() {
    let reg = NamespaceRegistry::build(&sample_defs()).unwrap();

    assert_eq!(depth_of(reg.gid_of("Movement").unwrap()), 0);
    assert_eq!(depth_of(reg.gid_of("Movement.Idle").unwrap()), 1);
    assert_eq!(depth_of(reg.gid_of("Combat.Attack").unwrap()), 1);
}

#[test]
fn parent_tracking() {
    let reg = NamespaceRegistry::build(&sample_defs()).unwrap();

    let movement = reg.gid_of("Movement").unwrap();
    let idle = reg.gid_of("Movement.Idle").unwrap();

    assert_eq!(parent_of(movement), None);
    assert_eq!(parent_of(idle), Some(movement));
}

#[test]
fn empty_build_returns_empty_registry() {
    let reg = NamespaceRegistry::build(&[]).unwrap();
    assert!(reg.is_empty());
}

#[test]
fn rejects_duplicate_path() {
    let defs = &[NamespaceDef::new("A", None), NamespaceDef::new("A", None)];
    assert!(NamespaceRegistry::build(defs).is_err());
}

#[test]
fn rejects_missing_parent() {
    let defs = &[NamespaceDef::new("A.B", Some("A"))];
    assert!(NamespaceRegistry::build(defs).is_err());
}

#[test]
fn deep_tree_works() {
    let defs = &[
        NamespaceDef::new("A", None),
        NamespaceDef::new("A.B", Some("A")),
        NamespaceDef::new("A.B.C", Some("A.B")),
        NamespaceDef::new("A.B.C.D", Some("A.B.C")),
    ];

    let reg = NamespaceRegistry::build(defs).unwrap();

    let a = reg.gid_of("A").unwrap();
    let ab = reg.gid_of("A.B").unwrap();
    let abc = reg.gid_of("A.B.C").unwrap();
    let abcd = reg.gid_of("A.B.C.D").unwrap();

    assert!(gid_is_descendant_of(abcd, abc));
    assert!(gid_is_descendant_of(abcd, ab));
    assert!(gid_is_descendant_of(abcd, a));
    assert!(gid_is_descendant_of(abc, ab));
    assert!(gid_is_descendant_of(abc, a));
    assert!(gid_is_descendant_of(ab, a));

    assert!(!gid_is_descendant_of(a, ab));

    assert_eq!(depth_of(a), 0);
    assert_eq!(depth_of(ab), 1);
    assert_eq!(depth_of(abc), 2);
    assert_eq!(depth_of(abcd), 3);
}

#[test]
fn very_deep_tree_works() {
    let defs: Vec<NamespaceDef> = (0..8)
        .map(|i| {
            let path: &'static str = match i {
                0 => "L0",
                1 => "L0.L1",
                2 => "L0.L1.L2",
                3 => "L0.L1.L2.L3",
                4 => "L0.L1.L2.L3.L4",
                5 => "L0.L1.L2.L3.L4.L5",
                6 => "L0.L1.L2.L3.L4.L5.L6",
                7 => "L0.L1.L2.L3.L4.L5.L6.L7",
                _ => unreachable!(),
            };
            let parent: Option<&'static str> = if i == 0 {
                None
            } else {
                Some(match i {
                    1 => "L0",
                    2 => "L0.L1",
                    3 => "L0.L1.L2",
                    4 => "L0.L1.L2.L3",
                    5 => "L0.L1.L2.L3.L4",
                    6 => "L0.L1.L2.L3.L4.L5",
                    7 => "L0.L1.L2.L3.L4.L5.L6",
                    _ => unreachable!(),
                })
            };
            NamespaceDef::new(path, parent)
        })
        .collect();

    let reg = NamespaceRegistry::build(&defs).unwrap();

    for i in 0..8 {
        let path = defs[i].path;
        assert_eq!(depth_of(reg.gid_of(path).unwrap()), i as u8);
    }

    let root = reg.gid_of("L0").unwrap();
    let leaf = reg.gid_of("L0.L1.L2.L3.L4.L5.L6.L7").unwrap();
    assert!(gid_is_descendant_of(leaf, root));
}

#[test]
fn dynamic_register_basic() {
    let mut reg = NamespaceRegistry::new();

    let gid = reg.register("Combat").unwrap();
    assert!(reg.contains("Combat"));
    assert!(reg.contains_gid(gid));
    assert_eq!(reg.path_of(gid).unwrap(), "Combat");
    assert_eq!(depth_of(gid), 0);
}

#[test]
fn dynamic_register_nested() {
    let mut reg = NamespaceRegistry::new();

    let gid = reg.register("Combat.Special.Fireball").unwrap();

    assert!(reg.contains("Combat"));
    assert!(reg.contains("Combat.Special"));
    assert!(reg.contains("Combat.Special.Fireball"));

    assert_eq!(depth_of(reg.gid_of("Combat").unwrap()), 0);
    assert_eq!(depth_of(reg.gid_of("Combat.Special").unwrap()), 1);
    assert_eq!(depth_of(gid), 2);

    let combat = reg.gid_of("Combat").unwrap();
    assert!(gid_is_descendant_of(gid, combat));
}

#[test]
fn dynamic_register_idempotent() {
    let mut reg = NamespaceRegistry::new();

    let gid1 = reg.register("Combat").unwrap();
    let gid2 = reg.register("Combat").unwrap();

    assert_eq!(gid1, gid2);
    assert_eq!(reg.len(), 1);
}

#[test]
fn dynamic_register_all_marked_dynamic() {
    let mut reg = NamespaceRegistry::new();
    reg.register("A.B.C").unwrap();

    for entry in reg.entries() {
        assert!(entry.is_dynamic);
    }
}

#[test]
fn dynamic_mixed_with_static() {
    let defs = &[
        NamespaceDef::new("Movement", None),
        NamespaceDef::new("Movement.Idle", Some("Movement")),
    ];
    let mut reg = NamespaceRegistry::build(defs).unwrap();

    assert!(!reg.entries().iter().any(|e| e.is_dynamic));

    reg.register("Movement.Running").unwrap();
    reg.register("Combat.Attack").unwrap();

    assert!(!reg.entries().iter().find(|e| e.path == "Movement").unwrap().is_dynamic);
    assert!(!reg.entries().iter().find(|e| e.path == "Movement.Idle").unwrap().is_dynamic);
    assert!(reg.entries().iter().find(|e| e.path == "Movement.Running").unwrap().is_dynamic);
    assert!(reg.entries().iter().find(|e| e.path == "Combat").unwrap().is_dynamic);
    assert!(reg.entries().iter().find(|e| e.path == "Combat.Attack").unwrap().is_dynamic);

    let movement = reg.gid_of("Movement").unwrap();
    let running = reg.gid_of("Movement.Running").unwrap();
    assert!(gid_is_descendant_of(running, movement));
}

#[test]
fn dynamic_rejects_empty_path() {
    let mut reg = NamespaceRegistry::new();
    assert!(reg.register("").is_err());
}

#[test]
fn dynamic_gid_stable() {
    let mut reg1 = NamespaceRegistry::new();
    let mut reg2 = NamespaceRegistry::new();

    reg1.register("A.B.C").unwrap();
    reg2.register("X.Y").unwrap();
    reg2.register("A.B.C").unwrap();

    assert_eq!(reg1.gid_of("A.B.C"), reg2.gid_of("A.B.C"));
}

#[test]
fn tree_depth_grows_dynamically() {
    let mut reg = NamespaceRegistry::new();

    assert_eq!(reg.tree_depth(), 0);

    reg.register("Root").unwrap();
    assert_eq!(reg.tree_depth(), 1);

    reg.register("Root.Child").unwrap();
    assert_eq!(reg.tree_depth(), 2);

    reg.register("Root.Child.Grand.Great").unwrap();
    assert_eq!(reg.tree_depth(), 4);

    reg.register("Other").unwrap();
    assert_eq!(reg.tree_depth(), 4);

    reg.register("Other.A.B.C").unwrap();
    assert_eq!(reg.tree_depth(), 4);

    reg.register("Other.A.B.C.D").unwrap();
    assert_eq!(reg.tree_depth(), 5);
}

#[test]
fn tree_depth_with_static_defs() {
    let defs = &[
        NamespaceDef::new("A", None),
        NamespaceDef::new("A.B", Some("A")),
        NamespaceDef::new("A.B.C", Some("A.B")),
    ];

    let mut reg = NamespaceRegistry::build(defs).unwrap();
    assert_eq!(reg.tree_depth(), 3);

    reg.register("A.B.C.D.E").unwrap();
    assert_eq!(reg.tree_depth(), 5);
}

#[test]
fn dynamic_register_maintains_dfs_order() {
    let mut reg = NamespaceRegistry::new();

    reg.register("B").unwrap();
    reg.register("A").unwrap();
    reg.register("A.C").unwrap();
    reg.register("A.B").unwrap();
    reg.register("B.A").unwrap();

    let paths: Vec<&str> = reg.dfs_order().iter().filter_map(|&gid| reg.path_of(gid)).collect();

    assert_eq!(paths, vec!["A", "A.B", "A.C", "B", "B.A"]);
}

#[test]
fn dynamic_register_dfs_order_with_deep_nesting() {
    let mut reg = NamespaceRegistry::new();

    reg.register("Root.Child.Grandchild").unwrap();
    reg.register("Root.Another").unwrap();
    reg.register("Root.Child.Alpha").unwrap();

    let paths: Vec<&str> = reg.dfs_order().iter().filter_map(|&gid| reg.path_of(gid)).collect();

    assert_eq!(
        paths,
        vec!["Root", "Root.Another", "Root.Child", "Root.Child.Alpha", "Root.Child.Grandchild"]
    );
}

#[test]
fn dynamic_register_dfs_order_mixed_with_static() {
    let defs = &[
        NamespaceDef::new("Combat", None),
        NamespaceDef::new("Combat.Attack", Some("Combat")),
    ];
    let mut reg = NamespaceRegistry::build(defs).unwrap();

    let paths_before: Vec<&str> =
        reg.dfs_order().iter().filter_map(|&gid| reg.path_of(gid)).collect();
    assert_eq!(paths_before, vec!["Combat", "Combat.Attack"]);

    reg.register("Combat.Ability").unwrap();

    let paths_after: Vec<&str> =
        reg.dfs_order().iter().filter_map(|&gid| reg.path_of(gid)).collect();
    assert_eq!(paths_after, vec!["Combat", "Combat.Ability", "Combat.Attack"]);
}

#[test]
fn standalone_is_descendant_of_works_with_dynamic_gids() {
    let mut reg = NamespaceRegistry::new();

    let root = reg.register("DynRoot").unwrap();
    let child = reg.register("DynRoot.Child").unwrap();
    let grandchild = reg.register("DynRoot.Child.Grandchild").unwrap();
    let other = reg.register("OtherRoot").unwrap();

    assert_eq!(depth_of(root), 0);
    assert_eq!(depth_of(child), 1);
    assert_eq!(depth_of(grandchild), 2);
    assert_eq!(depth_of(other), 0);

    assert!(gid_is_descendant_of(child, root));
    assert!(gid_is_descendant_of(grandchild, root));
    assert!(gid_is_descendant_of(grandchild, child));

    assert!(gid_is_descendant_of(root, root));
    assert!(gid_is_descendant_of(child, child));

    assert!(!gid_is_descendant_of(other, root));
    assert!(!gid_is_descendant_of(root, other));

    assert!(!gid_is_descendant_of(root, child));
    assert!(!gid_is_descendant_of(child, grandchild));
}

#[test]
fn build_lists_nodes_depth_first_whatever_the_order_of_definitions() {
    let mut defs = sample_defs();
    defs.reverse();
    let reg = NamespaceRegistry::build(&defs).unwrap();
    let expected = vec![
        "Combat",
        "Combat.Attack",
        "Combat.Block",
        "Movement",
        "Movement.Idle",
        "Movement.Jumping",
        "Movement.Running",
    ];
    let entry_paths: Vec<&str> = reg.entries().iter().map(|e| e.path.as_str()).collect();
    assert_eq!(entry_paths, expected);
    assert_eq!(dfs_paths(&reg), expected);
    assert_eq!(reg.len(), 7);
    assert_eq!(reg.tree_depth(), 2);
    for entry in reg.entries() {
        assert!(!entry.is_dynamic);
    }
}

#[test]
fn built_gids_are_the_hashes_of_the_paths() {
    let reg = NamespaceRegistry::build(&sample_defs()).unwrap();
    assert_eq!(reg.gid_of("Movement"), Some(hierarchical_gid(&[b"Movement"])));
    assert_eq!(reg.gid_of("Movement.Idle"), Some(hierarchical_gid(&[b"Movement", b"Idle"])));
    assert_eq!(reg.gid_of("Movement.Idle"), Some(0x2363_9e60_5a00_0000_0000_0000_0000_0000));
    assert_eq!(reg.gid_of("Nowhere"), None);
    assert_eq!(reg.path_of(12345), None);
    assert!(!reg.contains("Nowhere"));
    assert!(!reg.contains_gid(12345));
}

#[test]
fn children_follow_their_parent_before_later_siblings_of_it() {
    // "A-C" sorts before "A.B" as text, yet "A.B" is a child of "A".
    let mut reg = NamespaceRegistry::new();
    reg.register("A-C").unwrap();
    reg.register("A.B").unwrap();
    assert_eq!(dfs_paths(&reg), vec!["A", "A.B", "A-C"]);

    let defs = &[
        NamespaceDef::new("A-C", None),
        NamespaceDef::new("A.B", Some("A")),
        NamespaceDef::new("A", None),
    ];
    let built = NamespaceRegistry::build(defs).unwrap();
    assert_eq!(dfs_paths(&built), vec!["A", "A.B", "A-C"]);
}

#[test]
fn three_levels_are_built() {
    let defs = &[
        NamespaceDef::new("A", None),
        NamespaceDef::new("A.B", Some("A")),
        NamespaceDef::new("A.B.C", Some("A.B")),
    ];
    let reg = NamespaceRegistry::build(defs).unwrap();
    assert_eq!(reg.len(), 3);
    assert_eq!(depth_of(reg.gid_of("A").unwrap()), 0);
    assert_eq!(depth_of(reg.gid_of("A.B").unwrap()), 1);
    assert_eq!(depth_of(reg.gid_of("A.B.C").unwrap()), 2);
    assert!(reg.is_descendant_of(reg.gid_of("A.B.C").unwrap(), reg.gid_of("A").unwrap()));
}

#[test]
fn register_creates_ancestors_once() {
    let mut reg = NamespaceRegistry::new();
    let first = reg.register("X.Y.Z").unwrap();
    let paths: Vec<&str> = reg.entries().iter().map(|e| e.path.as_str()).collect();
    assert_eq!(paths, vec!["X", "X.Y", "X.Y.Z"]);
    assert!(reg.entries().iter().all(|e| e.is_dynamic));
    let second = reg.register("X.Y.Z").unwrap();
    assert_eq!(first, second);
    assert_eq!(first, hierarchical_gid(&[b"X", b"Y", b"Z"]));
    assert_eq!(reg.len(), 3);
}

#[test]
fn descendants_of_a_root_are_its_subtree() {
    let defs = &[
        NamespaceDef::new("A", None),
        NamespaceDef::new("A.B", Some("A")),
        NamespaceDef::new("A.C", Some("A")),
        NamespaceDef::new("X", None),
    ];
    let reg = NamespaceRegistry::build(defs).unwrap();
    let found = reg.descendants_of(reg.gid_of("A").unwrap());
    let expected = vec![
        reg.gid_of("A").unwrap(),
        reg.gid_of("A.B").unwrap(),
        reg.gid_of("A.C").unwrap(),
    ];
    assert_eq!(found, expected);
    assert_eq!(reg.descendants_of(reg.gid_of("A.C").unwrap()), vec![reg.gid_of("A.C").unwrap()]);
    assert!(reg.descendants_of(hierarchical_gid(&[b"Nowhere"])).is_empty());
}

#[test]
fn build_names_the_duplicate_path() {
    let defs = &[NamespaceDef::new("A", None), NamespaceDef::new("A", None)];
    match NamespaceRegistry::build(defs) {
        Err(RegistryError::DuplicatePath { path }) => assert_eq!(path, "A"),
        _ => panic!("expected a duplicate-path error"),
    }
}

#[test]
fn build_names_the_missing_parent() {
    let defs = &[NamespaceDef::new("A.B", Some("A"))];
    match NamespaceRegistry::build(defs) {
        Err(RegistryError::MissingParent { path, parent }) => {
            assert_eq!(path, "A.B");
            assert_eq!(parent, "A");
        }
        _ => panic!("expected a missing-parent error"),
    }
}

#[test]
fn build_rejects_an_empty_path() {
    let defs = &[NamespaceDef::new("A", None), NamespaceDef::new("", None)];
    assert!(matches!(NamespaceRegistry::build(defs), Err(RegistryError::EmptyPath)));
}

#[test]
fn the_first_definition_at_fault_decides_the_error() {
    let defs = &[
        NamespaceDef::new("A", None),
        NamespaceDef::new("A", None),
        NamespaceDef::new("", None),
    ];
    assert!(matches!(NamespaceRegistry::build(defs), Err(RegistryError::DuplicatePath { .. })));
    let defs = &[
        NamespaceDef::new("", None),
        NamespaceDef::new("A", None),
        NamespaceDef::new("A", None),
    ];
    assert!(matches!(NamespaceRegistry::build(defs), Err(RegistryError::EmptyPath)));
    // Paths are checked before parents.
    let defs = &[
        NamespaceDef::new("B", Some("Nowhere")),
        NamespaceDef::new("A", None),
        NamespaceDef::new("A", None),
    ];
    assert!(matches!(NamespaceRegistry::build(defs), Err(RegistryError::DuplicatePath { .. })));
}

#[test]
fn build_rejects_a_cycle_as_disconnected() {
    let defs = &[
        NamespaceDef::new("Root", None),
        NamespaceDef::new("P", Some("Q")),
        NamespaceDef::new("Q", Some("P")),
    ];
    assert!(matches!(NamespaceRegistry::build(defs), Err(RegistryError::Disconnected)));
    let defs = &[NamespaceDef::new("Self", Some("Self"))];
    assert!(matches!(NamespaceRegistry::build(defs), Err(RegistryError::Disconnected)));
}

#[test]
fn build_rejects_a_chain_of_nine_links() {
    let defs = &[
        NamespaceDef::new("n0", None),
        NamespaceDef::new("n1", Some("n0")),
        NamespaceDef::new("n2", Some("n1")),
        NamespaceDef::new("n3", Some("n2")),
        NamespaceDef::new("n4", Some("n3")),
        NamespaceDef::new("n5", Some("n4")),
        NamespaceDef::new("n6", Some("n5")),
        NamespaceDef::new("n7", Some("n6")),
        NamespaceDef::new("n8", Some("n7")),
    ];
    match NamespaceRegistry::build(defs) {
        Err(RegistryError::DepthExceeded { path }) => assert_eq!(path, "n8"),
        _ => panic!("expected a depth error"),
    }
    // Eight levels are fine.
    assert_eq!(NamespaceRegistry::build(&defs[..8]).unwrap().tree_depth(), 8);
}

#[test]
fn build_rejects_a_path_of_nine_segments() {
    let defs = &[NamespaceDef::new("a.b.c.d.e.f.g.h.i", None)];
    match NamespaceRegistry::build(defs) {
        Err(RegistryError::DepthExceeded { path }) => assert_eq!(path, "a.b.c.d.e.f.g.h.i"),
        _ => panic!("expected a depth error"),
    }
}

#[test]
fn build_detects_a_collision_and_names_both_paths() {
    // Two names whose 21-bit hashes are equal.
    assert_eq!(hierarchical_gid(&[b"Tag2343"]), hierarchical_gid(&[b"Tag4529"]));
    let defs = &[
        NamespaceDef::new("Tag4529", None),
        NamespaceDef::new("Other", None),
        NamespaceDef::new("Tag2343", None),
    ];
    match NamespaceRegistry::build(defs) {
        Err(RegistryError::Collision { path, existing, gid }) => {
            assert_eq!(path, "Tag4529");
            assert_eq!(existing, "Tag2343");
            assert_eq!(gid, 0x16bf_5e00_0000_0000_0000_0000_0000_0000);
        }
        _ => panic!("expected a collision"),
    }
}

#[test]
fn register_detects_a_collision_and_changes_nothing() {
    assert_eq!(
        hierarchical_gid(&[b"Root", b"N387"]),
        hierarchical_gid(&[b"Root", b"N621"])
    );
    let mut reg = NamespaceRegistry::new();
    reg.register("Root.N387").unwrap();
    match reg.register("Root.N621") {
        Err(RegistryError::Collision { path, existing, gid }) => {
            assert_eq!(path, "Root.N621");
            assert_eq!(existing, "Root.N387");
            assert_eq!(gid, hierarchical_gid(&[b"Root", b"N387"]));
        }
        _ => panic!("expected a collision"),
    }
    assert_eq!(reg.len(), 2);
    assert!(!reg.contains("Root.N621"));
}

#[test]
fn a_failed_registration_adds_no_ancestor() {
    // The ancestor "Tag4529" collides with the registered "Tag2343": the
    // call fails as a whole, and neither the ancestor nor the leaf is added.
    let mut reg = NamespaceRegistry::new();
    reg.register("Tag2343").unwrap();
    reg.register("Fresh").unwrap();
    let before: Vec<String> = reg.entries().iter().map(|e| e.path.clone()).collect();
    let order_before = reg.dfs_order().to_vec();
    match reg.register("Tag4529.Leaf") {
        Err(RegistryError::Collision { path, existing, .. }) => {
            assert_eq!(path, "Tag4529");
            assert_eq!(existing, "Tag2343");
        }
        _ => panic!("expected a collision"),
    }
    let after: Vec<String> = reg.entries().iter().map(|e| e.path.clone()).collect();
    assert_eq!(before, after);
    assert_eq!(order_before, reg.dfs_order().to_vec());
    assert_eq!(reg.tree_depth(), 1);

    // A leaf that collides under a fresh ancestor leaves the ancestor out too.
    let mut reg = NamespaceRegistry::new();
    reg.register("Root.N387").unwrap();
    reg.register("Root.N387.Deep").unwrap();
    assert!(reg.register("Root.N621.Deep").is_err());
    assert!(!reg.contains("Root.N621"));
    assert_eq!(reg.len(), 3);
}

#[test]
fn register_rejects_a_path_of_nine_segments() {
    let mut reg = NamespaceRegistry::new();
    match reg.register("a.b.c.d.e.f.g.h.i") {
        Err(RegistryError::DepthExceeded { path }) => assert_eq!(path, "a.b.c.d.e.f.g.h.i"),
        _ => panic!("expected a depth error"),
    }
    assert!(reg.is_empty());
    assert!(reg.register("a.b.c.d.e.f.g.h").is_ok());
    assert_eq!(reg.tree_depth(), 8);
    assert_eq!(reg.len(), 8);
}

#[test]
fn register_keeps_existing_ancestors_and_gids() {
    let defs = &[NamespaceDef::new("A", None), NamespaceDef::new("A.B", Some("A"))];
    let mut reg = NamespaceRegistry::build(defs).unwrap();
    let a = reg.gid_of("A").unwrap();
    let ab = reg.gid_of("A.B").unwrap();
    let abcd = reg.register("A.B.C.D").unwrap();
    assert_eq!(reg.gid_of("A"), Some(a));
    assert_eq!(reg.gid_of("A.B"), Some(ab));
    assert_eq!(reg.gid_of("A.B.C.D"), Some(abcd));
    let paths: Vec<&str> = reg.entries().iter().map(|e| e.path.as_str()).collect();
    assert_eq!(paths, vec!["A", "A.B", "A.B.C", "A.B.C.D"]);
    let dynamic: Vec<bool> = reg.entries().iter().map(|e| e.is_dynamic).collect();
    assert_eq!(dynamic, vec![false, false, true, true]);
}

#[test]
fn max_depth_runs_with_registrations() {
    let mut reg = NamespaceRegistry::new();
    reg.register("Root").unwrap();
    reg.register("Root.Child").unwrap();
    reg.register("Root.Child.Grand.Great").unwrap();
    reg.register("Other").unwrap();
    reg.register("Other.A.B.C.D").unwrap();
    assert_eq!(reg.tree_depth(), 5);
}

#[test]
fn paths_outside_ascii_are_cut_at_dots_only() {
    let mut reg = NamespaceRegistry::new();
    let gid = reg.register("Größe.Länge").unwrap();
    assert_eq!(depth_of(gid), 1);
    assert!(reg.contains("Größe"));
    assert_eq!(gid, hierarchical_gid(&["Größe".as_bytes(), "Länge".as_bytes()]));
    assert_eq!(reg.path_of(gid), Some("Größe.Länge"));
}

#[test]
fn default_registry_is_empty() {
    let reg = NamespaceRegistry::default();
    assert!(reg.is_empty());
    assert_eq!(reg.len(), 0);
    assert_eq!(reg.tree_depth(), 0);
    assert!(reg.dfs_order().is_empty());
    assert!(reg.entries().is_empty());
}
