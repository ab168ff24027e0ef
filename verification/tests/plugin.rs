use bevy_tag::{NamespaceDef, NamespacePlugin, RegistryError};

const DEFINITIONS: &[NamespaceDef] = &[
    NamespaceDef { path: "Movement", parent: None },
    NamespaceDef { path: "Movement.Idle", parent: Some("Movement") },
];

const BROKEN: &[NamespaceDef] = &[NamespaceDef { path: "Movement.Idle", parent: Some("Movement") }];

#[test]
fn plugin_without_definitions_starts_empty() {
    let plugin = NamespacePlugin::new();
    assert!(plugin.registry().unwrap().is_empty());
    assert!(!plugin.config().allow_dynamic);
    assert!(NamespacePlugin::default().registry().unwrap().is_empty());
}

#[test]
fn plugin_builds_from_definitions() {
    let plugin = NamespacePlugin::from_definitions(DEFINITIONS);
    let registry = plugin.registry().unwrap();
    assert_eq!(registry.len(), 2);
    assert!(registry.contains("Movement.Idle"));
    assert!(!plugin.config().allow_dynamic);
}

#[test]
fn plugin_switches_dynamic_registration() {
    let plugin = NamespacePlugin::from_definitions(DEFINITIONS).allow_dynamic_registration(true);
    assert!(plugin.config().allow_dynamic);
    assert_eq!(plugin.registry().unwrap().len(), 2);
    let plugin = plugin.allow_dynamic_registration(false);
    assert!(!plugin.config().allow_dynamic);
}

#[test]
fn plugin_reports_invalid_definitions() {
    let plugin = NamespacePlugin::from_definitions(BROKEN);
    assert!(matches!(plugin.registry(), Err(RegistryError::MissingParent { .. })));
}
