//! Definitions of namespace nodes and what makes a list of them a forest.
//!
//! A definition gives a path and, unless it is a root, the path of its
//! parent.  The links from child to parent are what the tree is read from.

use vstd::prelude::*;
use vstd::utf8::encode_utf8;
use crate::path::{path_depth, path_gid};

verus! {

/// One node of a namespace: its full path and the path of its parent.
#[derive(Clone, Copy, Debug)]
pub struct NamespaceDef {
    pub path: &'static str,
    pub parent: Option<&'static str>,
}

/// A definition as text.
pub struct DefView {
    pub path: Seq<char>,
    pub parent: Option<Seq<char>>,
}

impl View for NamespaceDef {
    type V = DefView;

    open spec fn view(&self) -> DefView {
        DefView {
            path: self.path@,
            parent: match self.parent {
                Some(p) => Some(p@),
                None => None,
            },
        }
    }
}

impl NamespaceDef {
    /// A definition of the node at `path` under `parent`.
    pub fn new(path: &'static str, parent: Option<&'static str>) -> (def: Self)
        ensures
            def.path == path,
            def.parent == parent,
    {
        NamespaceDef { path, parent }
    }
}

/// The definitions as text.
pub open spec fn defs_view(defs: Seq<NamespaceDef>) -> Seq<DefView> {
    defs.map_values(|d: NamespaceDef| d@)
}

/// Some definition has the path `p`.
pub open spec fn has_path(defs: Seq<DefView>, p: Seq<char>) -> bool {
    exists|j: int| 0 <= j < defs.len() && (#[trigger] defs[j]).path == p
}

/// The index of a definition with the path `p`.
pub open spec fn index_of_path(defs: Seq<DefView>, p: Seq<char>) -> int {
    choose|j: int| 0 <= j < defs.len() && (#[trigger] defs[j]).path == p
}

/// The path of definition `i` is empty, or an earlier definition has it.
pub open spec fn flawed_at(defs: Seq<DefView>, i: int) -> bool {
    defs[i].path.len() == 0 || has_path(defs.take(i), defs[i].path)
}

/// Every path is non-empty and no two definitions share one.
pub open spec fn paths_sound(defs: Seq<DefView>) -> bool {
    forall|i: int| 0 <= i < defs.len() ==> !flawed_at(defs, i)
}

/// The parent that definition `i` names is not defined.
pub open spec fn orphan_at(defs: Seq<DefView>, i: int) -> bool {
    defs[i].parent is Some && !has_path(defs, defs[i].parent->0)
}

/// Every parent that a definition names is itself defined.
pub open spec fn parents_present(defs: Seq<DefView>) -> bool {
    forall|i: int| 0 <= i < defs.len() ==> !orphan_at(defs, i)
}

/// The number of links from definition `i` up to a root, if a root is
/// reached within `fuel` links.
pub open spec fn link_depth(defs: Seq<DefView>, i: int, fuel: nat) -> Option<nat>
    decreases fuel,
{
    match defs[i].parent {
        None => Some(0),
        Some(p) => if fuel == 0 {
            None
        } else {
            match link_depth(defs, index_of_path(defs, p), (fuel - 1) as nat) {
                Some(d) => Some(d + 1),
                None => None,
            }
        },
    }
}

/// The paths, as bytes, from the root above definition `i` down to it, where
/// a root is reached within `fuel` links.
pub open spec fn link_chain(defs: Seq<DefView>, i: int, fuel: nat) -> Seq<Seq<u8>>
    decreases fuel,
{
    match defs[i].parent {
        None => seq![encode_utf8(defs[i].path)],
        Some(p) => if fuel == 0 {
            seq![encode_utf8(defs[i].path)]
        } else {
            link_chain(defs, index_of_path(defs, p), (fuel - 1) as nat).push(
                encode_utf8(defs[i].path),
            )
        },
    }
}

/// Definition `i` sits exactly eight links below a root: one level too deep.
pub open spec fn too_deep_at(defs: Seq<DefView>, i: int) -> bool {
    link_depth(defs, i, 8) == Some(8nat)
}

/// No definition sits eight links below a root.
pub open spec fn links_shallow(defs: Seq<DefView>) -> bool {
    forall|i: int| 0 <= i < defs.len() ==> !too_deep_at(defs, i)
}

/// Every definition reaches a root by following its links.
pub open spec fn links_rooted(defs: Seq<DefView>) -> bool {
    forall|i: int| 0 <= i < defs.len() ==> link_depth(defs, i, 8) is Some
}

/// Every path has at most eight segments.
pub open spec fn paths_shallow(defs: Seq<DefView>) -> bool {
    forall|i: int| 0 <= i < defs.len() ==> path_depth(#[trigger] defs[i].path) < 8
}

/// No two definitions stand for the same identifier.
pub open spec fn gids_distinct(defs: Seq<DefView>) -> bool {
    forall|i: int, j: int|
        0 <= i < defs.len() && 0 <= j < defs.len() && i != j ==> path_gid(
            #[trigger] defs[i].path,
        ) != path_gid(#[trigger] defs[j].path)
}

/// The depth of a definition does not depend on the fuel, once there is
/// enough of it.
pub proof fn lemma_depth_needs_no_more_fuel(defs: Seq<DefView>, i: int, fuel: nat, more: nat)
    requires
        link_depth(defs, i, fuel) is Some,
        more >= fuel,
    ensures
        link_depth(defs, i, more) == link_depth(defs, i, fuel),
        link_depth(defs, i, fuel)->0 <= fuel,
    decreases fuel,
{
    if defs[i].parent is Some && fuel > 0 {
        let above = index_of_path(defs, defs[i].parent->0);
        lemma_depth_needs_no_more_fuel(defs, above, (fuel - 1) as nat, (more - 1) as nat);
    }
}

/// A definition of depth `d` has its depth with `d` links of fuel already.
pub proof fn lemma_depth_is_enough_fuel(defs: Seq<DefView>, i: int, fuel: nat)
    requires
        link_depth(defs, i, fuel) is Some,
    ensures
        link_depth(defs, i, link_depth(defs, i, fuel)->0) == link_depth(defs, i, fuel),
    decreases fuel,
{
    if defs[i].parent is Some && fuel > 0 {
        let above = index_of_path(defs, defs[i].parent->0);
        lemma_depth_is_enough_fuel(defs, above, (fuel - 1) as nat);
    }
}

/// Above a definition of depth nine or more sits one of depth eight.
pub proof fn lemma_deep_has_eight_above(defs: Seq<DefView>, i: int, fuel: nat) -> (above: int)
    requires
        parents_present(defs),
        0 <= i < defs.len(),
        link_depth(defs, i, fuel) is Some,
        link_depth(defs, i, fuel)->0 >= 8,
    ensures
        0 <= above < defs.len(),
        too_deep_at(defs, above),
    decreases fuel,
{
    let d = link_depth(defs, i, fuel)->0;
    if d == 8 {
        lemma_depth_is_enough_fuel(defs, i, fuel);
        i
    } else {
        assert(!orphan_at(defs, i));
        let next = index_of_path(defs, defs[i].parent->0);
        lemma_deep_has_eight_above(defs, next, (fuel - 1) as nat)
    }
}

/// Eight links of fuel decide whether a definition reaches a root: where no
/// definition sits eight links deep, a definition that reaches no root
/// within eight links reaches none at all, and the depth of one that does
/// is the same with any more fuel.
pub proof fn lemma_eight_links_decide(defs: Seq<DefView>, i: int, fuel: nat)
    requires
        parents_present(defs),
        links_shallow(defs),
        0 <= i < defs.len(),
        fuel >= 8,
    ensures
        link_depth(defs, i, fuel) == link_depth(defs, i, 8),
{
    if link_depth(defs, i, 8) is Some {
        lemma_depth_needs_no_more_fuel(defs, i, 8, fuel);
    } else if link_depth(defs, i, fuel) is Some {
        let d = link_depth(defs, i, fuel)->0;
        if d >= 8 {
            let above = lemma_deep_has_eight_above(defs, i, fuel);
        } else {
            lemma_depth_is_enough_fuel(defs, i, fuel);
            lemma_depth_needs_no_more_fuel(defs, i, d, 8);
        }
    }
}

/// The list of definitions is a forest that a registry can be built from.
pub open spec fn defs_valid(defs: Seq<DefView>) -> bool {
    &&& paths_sound(defs)
    &&& parents_present(defs)
    &&& links_shallow(defs)
    &&& links_rooted(defs)
    &&& paths_shallow(defs)
    &&& gids_distinct(defs)
}

} // verus!
