//! The nodes that a registry holds.

use vstd::prelude::*;
use crate::layout::GID;
use crate::path::{path_depth, path_gid};

verus! {

/// A registered node.
#[derive(Clone, Debug, PartialEq, Eq)]
pub struct NamespaceEntry {
    /// The identifier of the node.
    pub gid: GID,
    /// The full path of the node.
    pub path: String,
    /// Whether the node was registered at run time rather than built from a
    /// definition.
    pub is_dynamic: bool,
}

/// A registered node as text.
pub struct EntryView {
    pub gid: u128,
    pub path: Seq<char>,
    pub is_dynamic: bool,
}

impl View for NamespaceEntry {
    type V = EntryView;

    open spec fn view(&self) -> EntryView {
        EntryView { gid: self.gid, path: self.path@, is_dynamic: self.is_dynamic }
    }
}

/// The nodes as text.
pub open spec fn entries_view(entries: Seq<NamespaceEntry>) -> Seq<EntryView> {
    entries.map_values(|e: NamespaceEntry| e@)
}

/// The node that stands for `path`.
pub open spec fn entry_for(path: Seq<char>, is_dynamic: bool) -> EntryView {
    EntryView { gid: path_gid(path), path, is_dynamic }
}

/// Some node has the path `p`.
pub open spec fn has_entry_path(entries: Seq<EntryView>, p: Seq<char>) -> bool {
    exists|i: int| 0 <= i < entries.len() && (#[trigger] entries[i]).path == p
}

/// Some node has the identifier `g`.
pub open spec fn has_entry_gid(entries: Seq<EntryView>, g: u128) -> bool {
    exists|i: int| 0 <= i < entries.len() && (#[trigger] entries[i]).gid == g
}

/// The place of a node with the path `p`.
pub open spec fn place_of_path(entries: Seq<EntryView>, p: Seq<char>) -> int {
    choose|i: int| 0 <= i < entries.len() && (#[trigger] entries[i]).path == p
}

/// The place of a node with the identifier `g`.
pub open spec fn place_of_gid(entries: Seq<EntryView>, g: u128) -> int {
    choose|i: int| 0 <= i < entries.len() && (#[trigger] entries[i]).gid == g
}

/// Every node carries the identifier of its path, no path has more than
/// eight segments, and no path and no identifier occurs twice.
pub open spec fn entries_sound(entries: Seq<EntryView>) -> bool {
    &&& forall|i: int|
        0 <= i < entries.len() ==> (#[trigger] entries[i]).gid == path_gid(entries[i].path)
            && path_depth(entries[i].path) < 8
    &&& forall|i: int, j: int|
        0 <= i < entries.len() && 0 <= j < entries.len() && i != j ==> (#[trigger] entries[i]).path
            != (#[trigger] entries[j]).path
    &&& forall|i: int, j: int|
        0 <= i < entries.len() && 0 <= j < entries.len() && i != j ==> (#[trigger] entries[i]).gid
            != (#[trigger] entries[j]).gid
}

} // verus!
