use bevy_tag::{
    depth_of, gid_is_descendant_of, hierarchical_gid, NamespaceDef, NamespaceRegistry, GID,
};

/// Children with the same name under different parents.
const DEFINITIONS: &[NamespaceDef] = &[
    NamespaceDef { path: "Combat", parent: None },
    NamespaceDef { path: "Combat.Attack", parent: Some("Combat") },
    NamespaceDef { path: "Combat.Idle", parent: Some("Combat") },
    NamespaceDef { path: "Movement", parent: None },
    NamespaceDef { path: "Movement.Attack", parent: Some("Movement") },
    NamespaceDef { path: "Movement.Idle", parent: Some("Movement") },
    NamespaceDef { path: "Status", parent: None },
    NamespaceDef { path: "Status.Active", parent: Some("Status") },
    NamespaceDef { path: "Status.Active.Running", parent: Some("Status.Active") },
    NamespaceDef { path: "Status.Passive", parent: Some("Status") },
    NamespaceDef { path: "Status.Passive.Running", parent: Some("Status.Passive") },
];

fn gid(path: &str) -> GID {
    let segments: Vec<&[u8]> = path.split('.').map(|s| s.as_bytes()).collect();
    hierarchical_gid(&segments)
}

#[test]
fn test_same_name_different_parents_compile() {
    let combat_attack = gid("Combat.Attack");
    let movement_attack = gid("Movement.Attack");

    let combat_idle = gid("Combat.Idle");
    let movement_idle = gid("Movement.Idle");

    assert_ne!(combat_attack, movement_attack);
    assert_ne!(combat_idle, movement_idle);
    assert_ne!(combat_attack, combat_idle);
    assert_ne!(movement_attack, movement_idle);
}

#[test]
fn test_same_name_correct_paths() {
    let registry = NamespaceRegistry::build(DEFINITIONS).unwrap();
    assert_eq!(registry.path_of(gid("Combat.Attack")), Some("Combat.Attack"));
    assert_eq!(registry.path_of(gid("Movement.Attack")), Some("Movement.Attack"));

    assert_eq!(registry.path_of(gid("Combat.Idle")), Some("Combat.Idle"));
    assert_eq!(registry.path_of(gid("Movement.Idle")), Some("Movement.Idle"));
}

#[test]
fn test_same_name_correct_depths() {
    assert_eq!(depth_of(gid("Combat.Attack")), 1);
    assert_eq!(depth_of(gid("Movement.Attack")), 1);

    assert_eq!(depth_of(gid("Combat")), 0);
    assert_eq!(depth_of(gid("Movement")), 0);
}

#[test]
fn test_deeply_nested_same_names() {
    let registry = NamespaceRegistry::build(DEFINITIONS).unwrap();
    let active_running = gid("Status.Active.Running");
    let passive_running = gid("Status.Passive.Running");

    assert_ne!(active_running, passive_running);

    assert_eq!(registry.path_of(active_running), Some("Status.Active.Running"));
    assert_eq!(registry.path_of(passive_running), Some("Status.Passive.Running"));

    assert_eq!(depth_of(active_running), 2);
    assert_eq!(depth_of(passive_running), 2);
}

#[test]
fn test_hierarchy_check_same_names() {
    let combat = gid("Combat");
    let movement = gid("Movement");
    let combat_attack = gid("Combat.Attack");
    let movement_attack = gid("Movement.Attack");

    assert!(gid_is_descendant_of(combat_attack, combat));

    assert!(gid_is_descendant_of(movement_attack, movement));

    assert!(!gid_is_descendant_of(combat_attack, movement));

    assert!(!gid_is_descendant_of(movement_attack, combat));
}

#[test]
fn test_registry_with_same_names() {
    let registry = NamespaceRegistry::build(DEFINITIONS).unwrap();

    assert!(registry.gid_of("Combat.Attack").is_some());
    assert!(registry.gid_of("Movement.Attack").is_some());
    assert!(registry.gid_of("Combat.Idle").is_some());
    assert!(registry.gid_of("Movement.Idle").is_some());

    assert_eq!(registry.gid_of("Combat.Attack"), Some(gid("Combat.Attack")));
    assert_eq!(registry.gid_of("Movement.Attack"), Some(gid("Movement.Attack")));
}

#[test]
fn test_gid_still_works() {
    let basic_gid = gid("BasicAttack");
    let heavy_gid = gid("HeavyAttack");
    let sprint_gid = gid("Movement.Sprint");

    assert_ne!(basic_gid, heavy_gid);
    assert_ne!(basic_gid, sprint_gid);
    assert_ne!(heavy_gid, sprint_gid);

    assert_ne!(basic_gid, 0);
    assert_ne!(heavy_gid, 0);
}
