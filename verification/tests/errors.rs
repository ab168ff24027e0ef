use bevy_tag::error::gid_to_text;
use bevy_tag::{NamespaceDef, NamespaceRegistry, RegistryError};

#[test]
fn messages_name_the_paths() {
    assert_eq!(RegistryError::EmptyPath.message(), "empty path is not allowed");
    assert_eq!(
        RegistryError::DuplicatePath { path: "A.B".to_string() }.message(),
        "duplicate namespace path: A.B"
    );
    assert_eq!(
        RegistryError::MissingParent { path: "A.B".to_string(), parent: "A".to_string() }
            .message(),
        "missing parent for 'A.B': 'A'"
    );
    assert_eq!(
        RegistryError::DepthExceeded { path: "a.b".to_string() }.message(),
        "tree depth exceeds maximum (8) at path 'a.b'"
    );
    assert_eq!(
        RegistryError::Disconnected.message(),
        "disconnected tree: some nodes are unreachable from roots"
    );
}

#[test]
fn collision_message_names_both_paths_and_the_identifier() {
    let defs = &[NamespaceDef::new("Tag2343", None), NamespaceDef::new("Tag4529", None)];
    let error = match NamespaceRegistry::build(defs) {
        Err(e) => e,
        Ok(_) => panic!("expected a collision"),
    };
    assert_eq!(
        error.message(),
        "GID collision: 'Tag4529' and 'Tag2343' produce the same hierarchical hash \
         0x16bf5e00000000000000000000000000. Consider renaming one of them."
    );
}

#[test]
fn identifiers_are_written_as_thirty_two_hex_digits() {
    for gid in [0u128, 1, 0xabcdef, u128::MAX, 0x2363_9e60_5a00_0000_0000_0000_0000_0000] {
        assert_eq!(gid_to_text(gid), format!("{:#034x}", gid));
    }
    assert_eq!(gid_to_text(255), "0x000000000000000000000000000000ff");
}
