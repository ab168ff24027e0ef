//! Stable hierarchical identifiers for tree-structured namespaces.
//!
//! A [`GID`] packs a three-bit depth and eight per-level hash fields into a
//! `u128`.  Ancestry between two identifiers is a single mask comparison, and
//! a [`NamespaceRegistry`] maps paths such as `Combat.Attack.Melee` to their
//! identifiers and back.

pub mod assign;
pub mod config;
pub mod container;
pub mod defs;
pub mod dfs;
pub mod entry;
pub mod error;
pub mod hash;
pub mod hash_lemmas;
pub mod laws;
pub mod layout;
pub mod layout_lemmas;
pub mod meta;
pub mod order;
pub mod order_laws;
pub mod path;
pub mod plugin;
pub mod registry;
pub mod registry_laws;
pub mod tree;

pub use config::{OnRemove, RedirectEntry, TagEntry, TagsConfig, TagsConfigError};
pub use container::TagContainer;
pub use defs::NamespaceDef;
pub use entry::NamespaceEntry;
pub use error::RegistryError;
pub use hash::{fnv1a_64, hierarchical_gid, hierarchical_gid_with_layout, segment_hash};
pub use layout::{
    depth_of, encode_gid, gid_is_descendant_of, is_sibling, parent_of, DEPTH_BITS, DEPTH_MASK,
    DEPTH_SHIFT, GID, LEVEL_MASKS, LEVEL_OFFSETS, LEVEL_WIDTHS, MAX_DEPTH, ROOT_GID,
};
pub use plugin::{NamespaceConfig, NamespacePlugin};
pub use registry::NamespaceRegistry;
