//! The registry of a namespace: paths and identifiers looked up in both
//! directions, grown at run time, kept in depth-first order, with a store
//! of byte blobs per identifier and key.

use vstd::prelude::*;
use vstd::hash_map::StringHashMap;
use vstd::slice::slice_subrange;
use vstd::utf8::encode_utf8;
use std::collections::HashMap;
use crate::assign::{assign_gids, entries_in_order};
use crate::defs::{
    defs_valid, defs_view, gids_distinct, links_rooted, links_shallow, parents_present,
    paths_shallow, paths_sound, too_deep_at, DefView, NamespaceDef,
};
use crate::dfs::{
    collision_named, gids_at, is_textual_dfs, lemma_prefix_is, missing_upto, prefix_collides,
    prefix_text, registration_collides, textual_order,
};
use crate::entry::{
    entries_sound, entries_view, entry_for, has_entry_gid, has_entry_path, place_of_gid,
    place_of_path, EntryView, NamespaceEntry,
};
use crate::error::{ErrorView, RegistryError};
use crate::hash::{hierarchical_gid, segments_view};
use crate::layout::{gid_is_descendant_of, spec_depth_of, spec_is_descendant, GID};
use crate::meta::{
    keys_distinct, lemma_place_of_key, table_get, table_insert, table_keys, table_map, table_pairs,
    table_remove, MetaRecord,
};
use crate::path::{
    as_ints, dot_positions, find_dots, lemma_dot_positions, path_depth, path_gid, path_segments,
    path_segs, prefix_before,
};
use crate::tree::{
    first_flaw, first_orphan, is_dfs_order, is_max_link_depth, validate_defs, TreeBuilder,
};

verus! {

broadcast use vstd::std_specs::hash::group_hash_axioms;

/// Registry of the nodes of a namespace.
pub struct NamespaceRegistry {
    max_depth: usize,
    entries: Vec<NamespaceEntry>,
    path_to_idx: StringHashMap<usize>,
    gid_to_idx: HashMap<GID, usize>,
    dfs_order: Vec<GID>,
    metadata: HashMap<GID, Vec<MetaRecord>>,
}

/// What a registry holds.
pub struct RegistryView {
    /// The greatest depth seen plus one; zero for an empty registry.
    pub max_depth: nat,
    /// The nodes, in the order in which they were built or registered.
    pub entries: Seq<EntryView>,
    /// The identifiers of the nodes in depth-first order.
    pub dfs_order: Seq<u128>,
    /// The blob stored under each identifier and key.
    pub metadata: Map<u128, Map<Seq<char>, Seq<u8>>>,
}

impl RegistryView {
    /// The identifier registered for `path`.
    pub open spec fn gid_of(self, path: Seq<char>) -> Option<u128> {
        if has_entry_path(self.entries, path) {
            Some(self.entries[place_of_path(self.entries, path)].gid)
        } else {
            None
        }
    }

    /// The path registered for `gid`.
    pub open spec fn path_of(self, gid: u128) -> Option<Seq<char>> {
        if has_entry_gid(self.entries, gid) {
            Some(self.entries[place_of_gid(self.entries, gid)].path)
        } else {
            None
        }
    }

    /// The nodes are sound and the depth-first list names registered nodes
    /// only.
    pub open spec fn sound(self) -> bool {
        &&& entries_sound(self.entries)
        &&& forall|k: int|
            0 <= k < self.dfs_order.len() ==> has_entry_gid(self.entries, #[trigger] self.dfs_order[k])
    }

    /// The blobs stored for `gid`, by key; none where nothing was ever
    /// stored for it.
    pub open spec fn table_of(self, gid: u128) -> Map<Seq<char>, Seq<u8>> {
        if self.metadata.contains_key(gid) {
            self.metadata[gid]
        } else {
            Map::empty()
        }
    }

    /// The blob stored for `gid` under `key`.
    pub open spec fn blob(self, gid: u128, key: Seq<char>) -> Option<Seq<u8>> {
        if self.table_of(gid).contains_key(key) {
            Some(self.table_of(gid)[key])
        } else {
            None
        }
    }

    /// The registry that holds nothing.
    pub open spec fn empty() -> RegistryView {
        RegistryView {
            max_depth: 0,
            entries: Seq::empty(),
            dfs_order: Seq::empty(),
            metadata: Map::empty(),
        }
    }
}

/// The tables of blobs as maps.
pub open spec fn tables_map(tables: Map<u128, Vec<MetaRecord>>) -> Map<
    u128,
    Map<Seq<char>, Seq<u8>>,
> {
    Map::new(|g: u128| tables.contains_key(g), |g: u128| table_map(tables[g]@))
}

/// The identifiers of the nodes, in the order of the nodes.
pub open spec fn gids_of(entries: Seq<EntryView>) -> Seq<u128> {
    entries.map_values(|e: EntryView| e.gid)
}

/// What `NamespaceRegistry::build` answers for a list of definitions.
///
/// A registry is built when the list is valid; it then holds one node per
/// definition, in depth-first order along the links.  Otherwise the first
/// check that fails decides the error: paths that are empty or defined
/// twice, then parents that are missing, then a definition eight links deep,
/// then one that reaches no root, then a path of more than eight segments,
/// then two paths with one identifier.
pub open spec fn build_outcome(defs: Seq<DefView>, r: Result<RegistryView, ErrorView>) -> bool {
    match r {
        Ok(v) => {
            &&& defs_valid(defs)
            &&& exists|order: Seq<usize>|
                is_dfs_order(order, defs) && v.entries == #[trigger] entries_in_order(order, defs)
            &&& v.dfs_order == gids_of(v.entries)
            &&& v.metadata == Map::<u128, Map<Seq<char>, Seq<u8>>>::empty()
            &&& defs.len() == 0 ==> v.max_depth == 0
            &&& defs.len() > 0 ==> v.max_depth >= 1 && is_max_link_depth(
                (v.max_depth - 1) as nat,
                defs,
            )
        },
        Err(ErrorView::EmptyPath) => exists|i: int|
            first_flaw(defs, i) && (#[trigger] defs[i]).path.len() == 0,
        Err(ErrorView::DuplicatePath { path }) => exists|i: int|
            first_flaw(defs, i) && (#[trigger] defs[i]).path.len() > 0 && defs[i].path == path,
        Err(ErrorView::MissingParent { path, parent }) => paths_sound(defs) && exists|i: int|
            first_orphan(defs, i) && (#[trigger] defs[i]).path == path && defs[i].parent == Some(
                parent,
            ),
        Err(ErrorView::DepthExceeded { path }) => {
            &&& paths_sound(defs)
            &&& parents_present(defs)
            &&& exists|i: int|
                0 <= i < defs.len() && (#[trigger] defs[i]).path == path && (too_deep_at(defs, i)
                    || (links_shallow(defs) && links_rooted(defs) && path_depth(path) >= 8))
        },
        Err(ErrorView::Disconnected) => {
            &&& paths_sound(defs)
            &&& parents_present(defs)
            &&& links_shallow(defs)
            &&& !links_rooted(defs)
        },
        Err(ErrorView::Collision { path, existing, gid }) => {
            &&& paths_sound(defs)
            &&& parents_present(defs)
            &&& links_shallow(defs)
            &&& links_rooted(defs)
            &&& paths_shallow(defs)
            &&& exists|i: int, j: int|
                0 <= i < defs.len() && 0 <= j < defs.len() && i != j && (#[trigger] defs[i]).path
                    == path && (#[trigger] defs[j]).path == existing
            &&& path != existing
            &&& gid == path_gid(path)
            &&& gid == path_gid(existing)
        },
    }
}

/// The nodes of a valid list of definitions, in an order that lists each
/// definition once, are sound.
pub proof fn lemma_entries_in_order_sound(order: Seq<usize>, defs: Seq<DefView>)
    requires
        paths_sound(defs),
        paths_shallow(defs),
        gids_distinct(defs),
        crate::order::is_arrangement(order, defs.len() as int),
    ensures
        entries_sound(entries_in_order(order, defs)),
{
    let entries = entries_in_order(order, defs);
    assert forall|i: int, j: int|
        0 <= i < entries.len() && 0 <= j < entries.len() && i != j implies (
    #[trigger] entries[i]).path != (#[trigger] entries[j]).path && entries[i].gid
        != entries[j].gid by {
        let x = order[i] as int;
        let y = order[j] as int;
        assert(x != y);
        assert(path_gid(defs[x].path) != path_gid(defs[y].path));
    }
}

/// Two different places among the registered nodes followed by planned
/// nodes hold different paths and different identifiers, where the planned
/// nodes are new and lie at different depths.
proof fn lemma_join_distinct(ev: Seq<EntryView>, plan: Seq<NamespaceEntry>, i: int, j: int)
    requires
        entries_sound(ev),
        forall|q: int|
            0 <= q < plan.len() ==> {
                &&& !has_entry_path(ev, (#[trigger] plan[q]).path@)
                &&& !has_entry_gid(ev, plan[q].gid)
                &&& spec_depth_of(plan[q].gid) == path_depth(plan[q].path@)
            },
        forall|a: int, b: int|
            0 <= a < b < plan.len() ==> path_depth((#[trigger] plan[a]).path@) < path_depth(
                (#[trigger] plan[b]).path@,
            ),
        0 <= i < ev.len() + plan.len(),
        0 <= j < ev.len() + plan.len(),
        i != j,
    ensures
        (ev + entries_view(plan))[i].path != (ev + entries_view(plan))[j].path,
        (ev + entries_view(plan))[i].gid != (ev + entries_view(plan))[j].gid,
{
    let all = ev + entries_view(plan);
    let n = ev.len();
    if i < n && j < n {
        assert(all[i] == ev[i] && all[j] == ev[j]);
    } else if i < n {
        assert(all[i] == ev[i]);
        assert(all[j] == plan[j - n]@);
        let _ = plan[j - n];
    } else if j < n {
        assert(all[j] == ev[j]);
        assert(all[i] == plan[i - n]@);
        let _ = plan[i - n];
    } else {
        assert(all[i] == plan[i - n]@);
        assert(all[j] == plan[j - n]@);
        if i < j {
            assert(path_depth(plan[i - n].path@) < path_depth(plan[j - n].path@));
        } else {
            assert(path_depth(plan[j - n].path@) < path_depth(plan[i - n].path@));
        }
    }
}

/// The larger of two numbers.
pub open spec fn larger(a: nat, b: nat) -> nat {
    if a >= b {
        a
    } else {
        b
    }
}

/// What `NamespaceRegistry::register` answers and does for a path.
///
/// An empty path is refused.  A registered path gives its identifier and
/// changes nothing.  A path of more than eight segments is refused.  A path
/// that would give a new node the identifier of a registered one is
/// refused, and both paths are named.  In each of these cases the registry
/// stays as it was.  Otherwise the missing ancestors and the path are
/// appended as dynamic nodes, the depth grows to cover the path, and the
/// depth-first list is made anew.
pub open spec fn register_outcome(
    before: RegistryView,
    path: Seq<char>,
    after: RegistryView,
    r: Result<u128, ErrorView>,
) -> bool {
    if path.len() == 0 {
        r == Err::<u128, ErrorView>(ErrorView::EmptyPath) && after == before
    } else if has_entry_path(before.entries, path) {
        r == Ok::<u128, ErrorView>(path_gid(path)) && after == before
    } else if path_depth(path) >= 8 {
        r == Err::<u128, ErrorView>(ErrorView::DepthExceeded { path }) && after == before
    } else if registration_collides(before.entries, path) {
        r is Err && collision_named(before.entries, path, r->Err_0) && after == before
    } else {
        &&& r == Ok::<u128, ErrorView>(path_gid(path))
        &&& after.entries == before.entries + missing_upto(
            before.entries,
            path,
            path_depth(path) as int + 1,
        )
        &&& after.max_depth == larger(before.max_depth, path_depth(path) + 1)
        &&& after.metadata == before.metadata
        &&& exists|order: Seq<usize>|
            is_textual_dfs(order, after.entries) && after.dfs_order == #[trigger] gids_at(
                order,
                after.entries,
            )
    }
}

/// The view of a result that holds an identifier.
pub open spec fn gid_result_view(r: Result<GID, RegistryError>) -> Result<u128, ErrorView> {
    match r {
        Ok(gid) => Ok(gid),
        Err(e) => Err(e@),
    }
}

/// The view of a result that holds a registry.
pub open spec fn registry_result_view(r: Result<NamespaceRegistry, RegistryError>) -> Result<
    RegistryView,
    ErrorView,
> {
    match r {
        Ok(registry) => Ok(registry@),
        Err(e) => Err(e@),
    }
}

/// A list that `build` refuses is not valid.
pub proof fn lemma_refused_is_invalid(defs: Seq<DefView>, e: ErrorView)
    requires
        build_outcome(defs, Err(e)),
    ensures
        !defs_valid(defs),
{
    match e {
        ErrorView::Collision { path, existing, gid } => {
            let (i, j) = choose|i: int, j: int|
                0 <= i < defs.len() && 0 <= j < defs.len() && i != j && (#[trigger] defs[i]).path
                    == path && (#[trigger] defs[j]).path == existing;
            assert(path_gid(defs[i].path) == path_gid(defs[j].path));
        },
        ErrorView::DepthExceeded { path } => {
            let i = choose|i: int|
                0 <= i < defs.len() && (#[trigger] defs[i]).path == path && (too_deep_at(defs, i)
                    || (links_shallow(defs) && links_rooted(defs) && path_depth(path) >= 8));
            assert(too_deep_at(defs, i) || path_depth(defs[i].path) >= 8);
        },
        _ => {},
    }
}

impl View for NamespaceRegistry {
    type V = RegistryView;

    closed spec fn view(&self) -> RegistryView {
        RegistryView {
            max_depth: self.max_depth as nat,
            entries: entries_view(self.entries@),
            dfs_order: self.dfs_order@,
            metadata: tables_map(self.metadata@),
        }
    }
}

impl NamespaceRegistry {
    /// The invariant of a registry: its nodes are sound, both indexes know
    /// exactly the nodes, and no blob is stored twice.
    pub closed spec fn wf(&self) -> bool {
        let ev = entries_view(self.entries@);
        &&& self@.sound()
        &&& forall|p: Seq<char>| self.path_to_idx@.contains_key(p) <==> has_entry_path(ev, p)
        &&& forall|i: int| 0 <= i < ev.len() ==> self.path_to_idx@[(#[trigger] ev[i]).path] == i
        &&& forall|g: u128| self.gid_to_idx@.contains_key(g) <==> has_entry_gid(ev, g)
        &&& forall|i: int| 0 <= i < ev.len() ==> self.gid_to_idx@[(#[trigger] ev[i]).gid] == i
        &&& forall|g: u128|
            self.metadata@.contains_key(g) ==> keys_distinct((#[trigger] self.metadata@[g])@)
    }

    /// A well-formed registry is sound.
    pub proof fn lemma_wf_sound(&self)
        requires
            self.wf(),
        ensures
            self@.sound(),
    {
    }

    /// An empty registry.
    pub fn new() -> (registry: Self)
        ensures
            registry.wf(),
            registry@ == RegistryView::empty(),
    {
        let registry = NamespaceRegistry {
            max_depth: 0,
            entries: Vec::new(),
            path_to_idx: StringHashMap::new(),
            gid_to_idx: HashMap::new(),
            dfs_order: Vec::new(),
            metadata: HashMap::new(),
        };
        proof {
            assert(registry@.entries =~= Seq::empty());
            assert(registry@.metadata =~= Map::empty());
        }
        registry
    }

    /// A registry of the given nodes, indexed, with the nodes in the given
    /// order as its depth-first list.
    fn from_entries(entries: Vec<NamespaceEntry>, max_depth: usize) -> (registry: Self)
        requires
            entries_sound(entries_view(entries@)),
        ensures
            registry.wf(),
            registry@.entries == entries_view(entries@),
            registry@.dfs_order == gids_of(entries_view(entries@)),
            registry@.max_depth == max_depth,
            registry@.metadata == Map::<u128, Map<Seq<char>, Seq<u8>>>::empty(),
    {
        let ghost ev = entries_view(entries@);
        let mut path_to_idx: StringHashMap<usize> = StringHashMap::new();
        let mut gid_to_idx: HashMap<GID, usize> = HashMap::new();
        let mut dfs_order: Vec<GID> = Vec::new();
        let mut i: usize = 0;
        while i < entries.len()
            invariant
                i <= entries@.len(),
                ev == entries_view(entries@),
                entries_sound(ev),
                dfs_order@ == gids_of(ev.take(i as int)),
                forall|p: Seq<char>|
                    path_to_idx@.contains_key(p) <==> has_entry_path(ev.take(i as int), p),
                forall|j: int| 0 <= j < i ==> path_to_idx@[(#[trigger] ev[j]).path] == j,
                forall|g: u128| gid_to_idx@.contains_key(g) <==> has_entry_gid(ev.take(i as int), g),
                forall|j: int| 0 <= j < i ==> gid_to_idx@[(#[trigger] ev[j]).gid] == j,
            decreases entries@.len() - i,
        {
            let path: String = entries[i].path.clone();
            let gid: GID = entries[i].gid;
            assert(path@ == ev[i as int].path && gid == ev[i as int].gid);
            path_to_idx.insert(path, i);
            gid_to_idx.insert(gid, i);
            dfs_order.push(gid);
            proof {
                let before = ev.take(i as int);
                let after = ev.take(i + 1);
                assert(after =~= before.push(ev[i as int]));
                assert(gids_of(after) =~= gids_of(before).push(gid));
                assert forall|p: Seq<char>| path_to_idx@.contains_key(p) <==> has_entry_path(
                    after,
                    p,
                ) by {
                    if has_entry_path(after, p) {
                        let j = choose|j: int|
                            0 <= j < after.len() && (#[trigger] after[j]).path == p;
                        if j < i {
                            assert(before[j].path == p);
                        }
                    }
                    if has_entry_path(before, p) {
                        let j = choose|j: int|
                            0 <= j < before.len() && (#[trigger] before[j]).path == p;
                        assert(after[j].path == p);
                    }
                    if p == ev[i as int].path {
                        assert(after[i as int].path == p);
                    }
                }
                assert forall|g: u128| gid_to_idx@.contains_key(g) <==> has_entry_gid(
                    after,
                    g,
                ) by {
                    if has_entry_gid(after, g) {
                        let j = choose|j: int| 0 <= j < after.len() && (#[trigger] after[j]).gid == g;
                        if j < i {
                            assert(before[j].gid == g);
                        }
                    }
                    if has_entry_gid(before, g) {
                        let j = choose|j: int|
                            0 <= j < before.len() && (#[trigger] before[j]).gid == g;
                        assert(after[j].gid == g);
                    }
                    if g == gid {
                        assert(after[i as int].gid == g);
                    }
                }
            }
            i += 1;
        }
        proof {
            assert(ev.take(i as int) =~= ev);
        }
        let registry = NamespaceRegistry {
            max_depth,
            entries,
            path_to_idx,
            gid_to_idx,
            dfs_order,
            metadata: HashMap::new(),
        };
        proof {
            assert(registry@.metadata =~= Map::empty());
            assert forall|k: int| 0 <= k < registry@.dfs_order.len() implies has_entry_gid(
                ev,
                #[trigger] registry@.dfs_order[k],
            ) by {
                assert(ev[k].gid == registry@.dfs_order[k]);
            }
        }
        registry
    }

    /// Builds a registry from a list of definitions.
    pub fn build(defs: &[NamespaceDef]) -> (r: Result<Self, RegistryError>)
        ensures
            build_outcome(defs_view(defs@), registry_result_view(r)),
            r is Ok <==> defs_valid(defs_view(defs@)),
            r is Ok ==> r->Ok_0.wf(),
            r is Ok ==> forall|path: Seq<char>|
                crate::defs::has_path(defs_view(defs@), path) ==> #[trigger] r->Ok_0@.gid_of(path)
                    == Some(path_gid(path)),
    {
        let ghost dv = defs_view(defs@);
        if defs.len() == 0 {
            let registry = Self::new();
            proof {
                let order = Seq::<usize>::empty();
                assert(is_dfs_order(order, dv));
                assert(registry@.entries =~= entries_in_order(order, dv));
                assert(registry@.dfs_order =~= gids_of(registry@.entries));
            }
            return Ok(registry);
        }
        let index: StringHashMap<usize> = match validate_defs(defs) {
            Ok(index) => index,
            Err(e) => {
                proof {
                    lemma_refused_is_invalid(dv, e@);
                }
                return Err(e);
            },
        };
        let tree: TreeBuilder = match TreeBuilder::from_defs(defs, &index) {
            Ok(tree) => tree,
            Err(e) => {
                proof {
                    lemma_refused_is_invalid(dv, e@);
                }
                return Err(e);
            },
        };
        let entries: Vec<NamespaceEntry> = match assign_gids(defs, &tree.nodes) {
            Ok(entries) => entries,
            Err(e) => {
                proof {
                    lemma_refused_is_invalid(dv, e@);
                }
                return Err(e);
            },
        };
        proof {
            lemma_entries_in_order_sound(tree.nodes@, dv);
        }
        let max_depth: usize = tree.max_depth as usize + 1;
        let registry = Self::from_entries(entries, max_depth);
        proof {
            assert(build_outcome(dv, Ok(registry@)));
            assert forall|path: Seq<char>| crate::defs::has_path(dv, path) implies #[trigger] registry@.gid_of(
                path,
            ) == Some(path_gid(path)) by {
                crate::registry_laws::lemma_build_assigns_path_gid(dv, registry@, path);
            }
        }
        Ok(registry)
    }

    /// Appends the planned nodes and enters them in both indexes.
    fn commit(&mut self, plan: &Vec<NamespaceEntry>)
        requires
            old(self).wf(),
            entries_sound(old(self)@.entries + entries_view(plan@)),
        ensures
            final(self).wf(),
            final(self)@.entries == old(self)@.entries + entries_view(plan@),
            final(self)@.dfs_order == old(self)@.dfs_order,
            final(self)@.max_depth == old(self)@.max_depth,
            final(self)@.metadata == old(self)@.metadata,
    {
        let ghost start = entries_view(self.entries@);
        let ghost target = start + entries_view(plan@);
        let ghost base = start.len();
        let ghost listed = self.dfs_order@;
        proof {
            assert(self@.sound());
            assert forall|k: int| 0 <= k < listed.len() implies has_entry_gid(
                start,
                #[trigger] listed[k],
            ) by {
                assert(has_entry_gid(self@.entries, self@.dfs_order[k]));
            }
            assert(target.take(base as int) =~= start);
            assert forall|j: int| 0 <= j < base implies self.path_to_idx@[(
            #[trigger] target[j]).path] == j && self.gid_to_idx@[target[j].gid] == j by {
                assert(target[j] == start[j]);
            }
        }
        let mut i: usize = 0;
        while i < plan.len()
            invariant
                i <= plan@.len(),
                target == start + entries_view(plan@),
                base == start.len(),
                entries_sound(target),
                entries_view(self.entries@) == target.take(base + i),
                self.dfs_order == old(self).dfs_order,
                self.max_depth == old(self).max_depth,
                self.metadata == old(self).metadata,
                listed == self.dfs_order@,
                forall|k: int| 0 <= k < listed.len() ==> has_entry_gid(start, #[trigger] listed[k]),
                forall|g: u128|
                    self.metadata@.contains_key(g) ==> keys_distinct(
                        (#[trigger] self.metadata@[g])@,
                    ),
                forall|p: Seq<char>|
                    self.path_to_idx@.contains_key(p) <==> has_entry_path(target.take(base + i), p),
                forall|j: int|
                    0 <= j < base + i ==> self.path_to_idx@[(#[trigger] target[j]).path] == j,
                forall|g: u128|
                    self.gid_to_idx@.contains_key(g) <==> has_entry_gid(target.take(base + i), g),
                forall|j: int|
                    0 <= j < base + i ==> self.gid_to_idx@[(#[trigger] target[j]).gid] == j,
            decreases plan@.len() - i,
        {
            let path: String = plan[i].path.clone();
            let gid: GID = plan[i].gid;
            let is_dynamic: bool = plan[i].is_dynamic;
            let at: usize = self.entries.len();
            proof {
                assert(target[base + i] == entries_view(plan@)[i as int]);
                assert(path@ == target[base + i].path && gid == target[base + i].gid);
            }
            self.path_to_idx.insert(path.clone(), at);
            self.gid_to_idx.insert(gid, at);
            self.entries.push(NamespaceEntry { gid, path, is_dynamic });
            proof {
                let before = target.take(base + i);
                let after = target.take(base + i + 1);
                let here = target[base + i];
                assert(after =~= before.push(here));
                assert(entries_view(self.entries@) =~= after);
                assert forall|p: Seq<char>| self.path_to_idx@.contains_key(p) <==> has_entry_path(
                    after,
                    p,
                ) by {
                    if has_entry_path(after, p) {
                        let j = choose|j: int|
                            0 <= j < after.len() && (#[trigger] after[j]).path == p;
                        if j < base + i {
                            assert(before[j].path == p);
                        }
                    }
                    if has_entry_path(before, p) {
                        let j = choose|j: int|
                            0 <= j < before.len() && (#[trigger] before[j]).path == p;
                        assert(after[j].path == p);
                    }
                    if p == here.path {
                        assert(after[base + i].path == p);
                    }
                }
                assert forall|g: u128| self.gid_to_idx@.contains_key(g) <==> has_entry_gid(
                    after,
                    g,
                ) by {
                    if has_entry_gid(after, g) {
                        let j = choose|j: int| 0 <= j < after.len() && (#[trigger] after[j]).gid == g;
                        if j < base + i {
                            assert(before[j].gid == g);
                        }
                    }
                    if has_entry_gid(before, g) {
                        let j = choose|j: int|
                            0 <= j < before.len() && (#[trigger] before[j]).gid == g;
                        assert(after[j].gid == g);
                    }
                    if g == gid {
                        assert(after[base + i].gid == g);
                    }
                }
            }
            i += 1;
        }
        proof {
            assert(target.take(base + i) =~= target);
            let ev = entries_view(self.entries@);
            assert forall|k: int| 0 <= k < self.dfs_order@.len() implies has_entry_gid(
                ev,
                #[trigger] self.dfs_order@[k],
            ) by {
                let g = self.dfs_order@[k];
                assert(has_entry_gid(start, listed[k]));
                let j = choose|j: int| 0 <= j < start.len() && (#[trigger] start[j]).gid == g;
                assert(ev[j].gid == g);
            }
        }
    }

    /// Plans the registration of a path that is not registered: one dynamic
    /// node for each of its prefixes that is missing, shallowest first, the
    /// path itself last.  Nothing is planned where a new node would take
    /// the identifier of a registered one.
    fn plan_registration(&self, path: &str) -> (r: Result<Vec<NamespaceEntry>, RegistryError>)
        requires
            self.wf(),
            path_depth(path@) < 8,
            !has_entry_path(self@.entries, path@),
        ensures
            match r {
                Ok(plan) => {
                    &&& !registration_collides(self@.entries, path@)
                    &&& entries_view(plan@) == missing_upto(
                        self@.entries,
                        path@,
                        path_depth(path@) as int + 1,
                    )
                    &&& entries_sound(self@.entries + entries_view(plan@))
                    &&& plan@.len() > 0
                    &&& plan@.last().gid == path_gid(path@)
                    &&& plan@.last().path@ == path@
                },
                Err(e) => collision_named(self@.entries, path@, e@),
            },
    {
        let ghost ev = entries_view(self.entries@);
        let segments: Vec<&[u8]> = path_segments(path);
        let bytes: &[u8] = path.as_bytes();
        let dots: Vec<usize> = find_dots(bytes);
        let ghost positions = dot_positions(bytes@);
        let depth: usize = dots.len();
        proof {
            lemma_dot_positions(bytes@);
        }
        let mut plan: Vec<NamespaceEntry> = Vec::new();
        let mut k: usize = 0;
        while k <= depth
            invariant
                k <= depth + 1,
                depth == dots@.len(),
                depth == path_depth(path@),
                depth < 8,
                self.wf(),
                ev == entries_view(self.entries@),
                bytes@ == encode_utf8(path@),
                as_ints(dots@) == positions,
                positions == dot_positions(bytes@),
                forall|q: int|
                    0 <= q < positions.len() ==> 0 <= #[trigger] positions[q] < bytes@.len()
                        && bytes@[positions[q]] == 0x2e,
                segments@.len() == depth + 1,
                segments_view(segments@) == path_segs(path@),
                entries_view(plan@) == missing_upto(ev, path@, k as int),
                forall|j: int| 0 <= j < k ==> !#[trigger] prefix_collides(ev, path@, j),
                forall|q: int|
                    0 <= q < plan@.len() ==> {
                        &&& !has_entry_path(ev, (#[trigger] plan@[q]).path@)
                        &&& !has_entry_gid(ev, plan@[q].gid)
                        &&& plan@[q].gid == path_gid(plan@[q].path@)
                        &&& path_depth(plan@[q].path@) < k
                        &&& spec_depth_of(plan@[q].gid) == path_depth(plan@[q].path@)
                    },
                forall|a: int, b: int|
                    0 <= a < b < plan@.len() ==> path_depth((#[trigger] plan@[a]).path@)
                        < path_depth((#[trigger] plan@[b]).path@),
                !has_entry_path(ev, path@),
                k == depth + 1 ==> plan@.len() > 0 && plan@.last().path@ == path@,
            decreases depth + 1 - k,
        {
            let prefix: &str = if k < depth {
                let end: usize = dots[k];
                assert(end as int == positions[k as int]) by {
                    assert(as_ints(dots@)[k as int] == dots@[k as int] as int);
                }
                prefix_before(path, end)
            } else {
                path
            };
            proof {
                if k == depth {
                    assert(bytes@.take(bytes@.len() as int) =~= bytes@);
                }
                lemma_prefix_is(path@, k as int, prefix@);
                assert(k == depth ==> prefix@ == path@);
                assert(self.path_to_idx@.contains_key(prefix@) <==> has_entry_path(ev, prefix@));
            }
            let ghost before = plan@;
            if !self.path_to_idx.contains_key(prefix) {
                let upto: &[&[u8]] = slice_subrange(segments.as_slice(), 0, k + 1);
                proof {
                    assert(segments_view(upto@) =~= path_segs(path@).take(k + 1));
                }
                let gid: GID = hierarchical_gid(upto);
                assert(gid == path_gid(prefix@));
                match self.gid_to_idx.get(&gid) {
                    Some(at) => {
                        proof {
                            assert(self.gid_to_idx@.contains_key(gid));
                            assert(has_entry_gid(ev, gid));
                            let j = place_of_gid(ev, gid);
                            assert(self.gid_to_idx@[ev[j].gid] == j);
                            assert(prefix_collides(ev, path@, k as int));
                            assert(ev[*at as int].gid == gid);
                            if ev[*at as int].path == prefix@ {
                                assert(has_entry_path(ev, prefix@));
                            }
                        }
                        return Err(
                            RegistryError::Collision {
                                path: prefix.to_owned(),
                                existing: self.entries[*at].path.clone(),
                                gid,
                            },
                        );
                    },
                    None => {},
                }
                plan.push(NamespaceEntry { gid, path: prefix.to_owned(), is_dynamic: true });
                proof {
                    assert(entries_view(plan@) =~= entries_view(before).push(
                        entry_for(prefix@, true),
                    ));
                    assert forall|a: int, b: int| 0 <= a < b < plan@.len() implies path_depth(
                        (#[trigger] plan@[a]).path@,
                    ) < path_depth((#[trigger] plan@[b]).path@) by {
                        assert(plan@[a] == before[a]);
                        if b < before.len() {
                            assert(plan@[b] == before[b]);
                        }
                    }
                    assert forall|q: int| 0 <= q < plan@.len() implies {
                        &&& !has_entry_path(ev, (#[trigger] plan@[q]).path@)
                        &&& !has_entry_gid(ev, plan@[q].gid)
                        &&& plan@[q].gid == path_gid(plan@[q].path@)
                        &&& path_depth(plan@[q].path@) < k + 1
                        &&& spec_depth_of(plan@[q].gid) == path_depth(plan@[q].path@)
                    } by {
                        if q < before.len() {
                            assert(plan@[q] == before[q]);
                        }
                    }
                }
            } else {
                proof {
                    assert(!prefix_collides(ev, path@, k as int));
                }
            }
            k += 1;
        }
        proof {
            let pv = entries_view(plan@);
            let all = ev + pv;
            assert(self@.sound());
            assert forall|i: int| 0 <= i < all.len() implies (#[trigger] all[i]).gid == path_gid(
                all[i].path,
            ) && path_depth(all[i].path) < 8 by {
                if i < ev.len() {
                    assert(all[i] == ev[i]);
                } else {
                    assert(all[i] == plan@[i - ev.len()]@);
                }
            }
            assert forall|i: int, j: int|
                0 <= i < all.len() && 0 <= j < all.len() && i != j implies (
            #[trigger] all[i]).path != (#[trigger] all[j]).path && all[i].gid != all[j].gid by {
                lemma_join_distinct(ev, plan@, i, j);
            }
            assert(plan@.last().gid == path_gid(path@));
        }
        Ok(plan)
    }

    /// Registers a path at run time and returns its identifier.  Ancestors
    /// that are not registered yet are registered with it.  A call that
    /// fails leaves the registry as it was.
    pub fn register(&mut self, path: &str) -> (r: Result<GID, RegistryError>)
        requires
            old(self).wf(),
        ensures
            final(self).wf(),
            register_outcome(old(self)@, path@, final(self)@, gid_result_view(r)),
            r is Ok ==> final(self)@.gid_of(path@) == Some(r->Ok_0),
            forall|other: Seq<char>|
                has_entry_path(old(self)@.entries, other) ==> final(self)@.gid_of(other)
                    == #[trigger] old(self)@.gid_of(other),
    {
        if path.is_empty() {
            return Err(RegistryError::EmptyPath);
        }
        match self.gid_of(path) {
            Some(gid) => {
                return Ok(gid);
            },
            None => {},
        }
        let dots: Vec<usize> = find_dots(path.as_bytes());
        let depth: usize = dots.len();
        assert(depth == path_depth(path@)) by {
            assert(as_ints(dots@).len() == dots@.len());
        }
        if depth >= 8 {
            return Err(RegistryError::DepthExceeded { path: path.to_owned() });
        }
        let plan: Vec<NamespaceEntry> = match self.plan_registration(path) {
            Ok(plan) => plan,
            Err(e) => {
                proof {
                    let ev = self@.entries;
                    match e@ {
                        ErrorView::Collision { path: p, existing, gid } => {
                            let k = choose|k: int|
                                0 <= k <= path_depth(path@) && #[trigger] prefix_collides(
                                    ev,
                                    path@,
                                    k,
                                ) && p == prefix_text(path@, k);
                            assert(prefix_collides(ev, path@, k));
                        },
                        _ => {},
                    }
                }
                return Err(e);
            },
        };
        let gid: GID = plan[plan.len() - 1].gid;
        self.commit(&plan);
        self.rebuild_dfs_order();
        let ghost rebuilt = self@;
        if depth >= self.max_depth {
            self.max_depth = depth + 1;
        }
        proof {
            let order = choose|order: Seq<usize>|
                is_textual_dfs(order, rebuilt.entries) && rebuilt.dfs_order == #[trigger] gids_at(
                    order,
                    rebuilt.entries,
                );
            assert(self@.entries == rebuilt.entries);
            assert(self@.dfs_order == rebuilt.dfs_order);
            assert(is_textual_dfs(order, self@.entries) && self@.dfs_order == gids_at(
                order,
                self@.entries,
            ));
            assert(self@.max_depth == larger(old(self)@.max_depth, path_depth(path@) + 1));
            assert(self@.metadata == old(self)@.metadata);
            assert(gid == path_gid(path@));
            let last = self@.entries.len() - 1;
            assert(self@.entries[last] == plan@.last()@);
            assert(has_entry_path(self@.entries, path@));
            crate::registry_laws::lemma_gid_is_of_path(self@, path@);
            assert forall|other: Seq<char>|
                has_entry_path(old(self)@.entries, other) implies self@.gid_of(other)
                == #[trigger] old(self)@.gid_of(other) by {
                crate::registry_laws::lemma_register_keeps_gids(
                    old(self)@,
                    path@,
                    self@,
                    Ok(gid),
                    other,
                );
            }
        }
        Ok(gid)
    }

    /// Lists the nodes anew in depth-first order: parents before their
    /// children, the children of one parent by their paths.
    fn rebuild_dfs_order(&mut self)
        requires
            old(self).wf(),
        ensures
            final(self).wf(),
            final(self)@.entries == old(self)@.entries,
            final(self)@.max_depth == old(self)@.max_depth,
            final(self)@.metadata == old(self)@.metadata,
            exists|order: Seq<usize>|
                is_textual_dfs(order, final(self)@.entries) && final(self)@.dfs_order
                    == #[trigger] gids_at(order, final(self)@.entries),
    {
        let ghost ev = entries_view(self.entries@);
        let order: Vec<usize> = textual_order(&self.entries, &self.path_to_idx);
        let mut gids: Vec<GID> = Vec::new();
        let mut k: usize = 0;
        while k < order.len()
            invariant
                k <= order@.len(),
                ev == entries_view(self.entries@),
                is_textual_dfs(order@, ev),
                gids@.len() == k,
                forall|q: int| 0 <= q < k ==> #[trigger] gids@[q] == ev[order@[q] as int].gid,
            decreases order@.len() - k,
        {
            let at: usize = order[k];
            assert(at < ev.len());
            gids.push(self.entries[at].gid);
            k += 1;
        }
        self.dfs_order = gids;
        proof {
            assert(self.dfs_order@ =~= gids_at(order@, ev));
            assert forall|q: int| 0 <= q < self.dfs_order@.len() implies has_entry_gid(
                ev,
                #[trigger] self.dfs_order@[q],
            ) by {
                assert(ev[order@[q] as int].gid == self.dfs_order@[q]);
            }
        }
    }

    /// The identifier of `path`, if the path is registered.
    pub fn gid_of(&self, path: &str) -> (gid: Option<GID>)
        requires
            self.wf(),
        ensures
            gid == self@.gid_of(path@),
            gid is Some ==> gid->0 == path_gid(path@),
    {
        match self.path_to_idx.get(path) {
            Some(at) => {
                proof {
                    let ev = entries_view(self.entries@);
                    let j = place_of_path(ev, path@);
                    assert(self.path_to_idx@[ev[j].path] == j);
                }
                Some(self.entries[*at].gid)
            },
            None => None,
        }
    }

    /// The path of `gid`, if the identifier is registered.
    pub fn path_of(&self, gid: GID) -> (path: Option<&str>)
        requires
            self.wf(),
        ensures
            match path {
                Some(p) => self@.path_of(gid) == Some(p@),
                None => self@.path_of(gid) is None,
            },
    {
        match self.gid_to_idx.get(&gid) {
            Some(at) => {
                proof {
                    let ev = entries_view(self.entries@);
                    let j = place_of_gid(ev, gid);
                    assert(self.gid_to_idx@[ev[j].gid] == j);
                }
                Some(self.entries[*at].path.as_str())
            },
            None => None,
        }
    }

    /// The greatest depth among the nodes plus one; zero while the registry
    /// is empty.
    pub fn tree_depth(&self) -> (depth: usize)
        ensures
            depth == self@.max_depth,
    {
        self.max_depth
    }

    /// The number of registered nodes.
    pub fn len(&self) -> (n: usize)
        ensures
            n == self@.entries.len(),
    {
        self.entries.len()
    }

    /// Whether no node is registered.
    pub fn is_empty(&self) -> (empty: bool)
        ensures
            empty == (self@.entries.len() == 0),
    {
        self.entries.len() == 0
    }

    /// The identifiers of the nodes in depth-first order.
    pub fn dfs_order(&self) -> (order: &[GID])
        ensures
            order@ == self@.dfs_order,
    {
        self.dfs_order.as_slice()
    }

    /// The nodes, in the order in which they were built or registered.
    pub fn entries(&self) -> (entries: &[NamespaceEntry])
        ensures
            entries_view(entries@) == self@.entries,
    {
        self.entries.as_slice()
    }

    /// Whether `path` is registered.
    pub fn contains(&self, path: &str) -> (found: bool)
        requires
            self.wf(),
        ensures
            found == has_entry_path(self@.entries, path@),
    {
        self.path_to_idx.contains_key(path)
    }

    /// Whether `gid` is registered.
    pub fn contains_gid(&self, gid: GID) -> (found: bool)
        requires
            self.wf(),
        ensures
            found == has_entry_gid(self@.entries, gid),
    {
        self.gid_to_idx.contains_key(&gid)
    }

    /// Whether the node at `candidate` lies in the subtree of the node at
    /// `ancestor`; nothing where either path is not registered.
    pub fn is_descendant_of_path(&self, candidate: &str, ancestor: &str) -> (answer: Option<bool>)
        requires
            self.wf(),
        ensures
            answer is Some <==> has_entry_path(self@.entries, candidate@) && has_entry_path(
                self@.entries,
                ancestor@,
            ),
            answer is Some ==> answer->0 == spec_is_descendant(
                path_gid(candidate@),
                path_gid(ancestor@),
            ),
    {
        let candidate_gid: GID = match self.gid_of(candidate) {
            Some(g) => g,
            None => {
                return None;
            },
        };
        let ancestor_gid: GID = match self.gid_of(ancestor) {
            Some(g) => g,
            None => {
                return None;
            },
        };
        Some(gid_is_descendant_of(candidate_gid, ancestor_gid))
    }

    /// Whether `candidate` lies in the subtree of `ancestor`.  The answer
    /// is read off the two identifiers; the registry is not consulted.
    pub fn is_descendant_of(&self, candidate: GID, ancestor: GID) -> (answer: bool)
        ensures
            answer == spec_is_descendant(candidate, ancestor),
    {
        gid_is_descendant_of(candidate, ancestor)
    }
}

/// The identifiers among `gids` that lie in the subtree of `ancestor`, in
/// their order.
pub open spec fn descendants_among(gids: Seq<u128>, ancestor: u128) -> Seq<u128> {
    gids.filter(|g: u128| spec_is_descendant(g, ancestor))
}

impl NamespaceRegistry {
    /// The identifiers of all registered nodes in the subtree of
    /// `ancestor`, the node itself included, in the order of the nodes.
    /// Every node is tested: the cost grows with the registry.
    pub fn descendants_of(&self, ancestor: GID) -> (found: Vec<GID>)
        ensures
            found@ == descendants_among(gids_of(self@.entries), ancestor),
    {
        let ghost all = gids_of(entries_view(self.entries@));
        let mut found: Vec<GID> = Vec::new();
        let mut i: usize = 0;
        while i < self.entries.len()
            invariant
                i <= self.entries@.len(),
                all == gids_of(entries_view(self.entries@)),
                found@ == descendants_among(all.take(i as int), ancestor),
            decreases self.entries@.len() - i,
        {
            let gid: GID = self.entries[i].gid;
            proof {
                assert(all.take(i + 1) =~= all.take(i as int).push(gid));
                lemma_filter_push(all.take(i as int), gid, ancestor);
            }
            if gid_is_descendant_of(gid, ancestor) {
                found.push(gid);
            }
            i += 1;
        }
        proof {
            assert(all.take(i as int) =~= all);
        }
        found
    }
}

impl NamespaceRegistry {
    /// Stores `value` for `gid` under `key` and returns the bytes that were
    /// stored there before.  The identifier need not be registered.
    pub fn set_meta_raw(&mut self, gid: GID, key: &str, value: Vec<u8>) -> (previous: Option<
        Vec<u8>,
    >)
        requires
            old(self).wf(),
        ensures
            final(self).wf(),
            final(self)@.entries == old(self)@.entries,
            final(self)@.dfs_order == old(self)@.dfs_order,
            final(self)@.max_depth == old(self)@.max_depth,
            final(self)@.metadata == old(self)@.metadata.insert(
                gid,
                old(self)@.table_of(gid).insert(key@, value@),
            ),
            match previous {
                Some(v) => old(self)@.blob(gid, key@) == Some(v@),
                None => old(self)@.blob(gid, key@) is None,
            },
    {
        let ghost before = self.metadata@;
        let taken: Option<Vec<MetaRecord>> = self.metadata.remove(&gid);
        let mut table: Vec<MetaRecord> = match taken {
            Some(t) => t,
            None => Vec::new(),
        };
        proof {
            assert(keys_distinct(table@)) by {
                if before.contains_key(gid) {
                    assert(keys_distinct(before[gid]@));
                }
            }
            assert(table_map(table@) =~= old(self)@.table_of(gid)) by {
                if !before.contains_key(gid) {
                    assert(table_map(table@) =~= Map::empty());
                }
            }
        }
        let previous: Option<Vec<u8>> = table_insert(&mut table, key, value);
        self.metadata.insert(gid, table);
        proof {
            assert(self@.metadata =~= old(self)@.metadata.insert(
                gid,
                old(self)@.table_of(gid).insert(key@, value@),
            ));
            assert(old(self)@.sound());
            assert(self@.entries == old(self)@.entries);
            assert(self@.dfs_order == old(self)@.dfs_order);
            assert(self@.sound());
        }
        previous
    }

    /// The bytes stored for `gid` under `key`.
    pub fn get_meta_raw(&self, gid: GID, key: &str) -> (value: Option<&[u8]>)
        requires
            self.wf(),
        ensures
            match value {
                Some(v) => self@.blob(gid, key@) == Some(v@),
                None => self@.blob(gid, key@) is None,
            },
    {
        match self.metadata.get(&gid) {
            Some(table) => table_get(table, key),
            None => None,
        }
    }

    /// The bytes stored for `gid` under `key`, where they are exactly
    /// `size` bytes: a value of another size is not handed out as if it had
    /// the layout that the caller asks for.
    pub fn get_meta_sized(&self, gid: GID, key: &str, size: usize) -> (value: Option<&[u8]>)
        requires
            self.wf(),
        ensures
            match value {
                Some(v) => self@.blob(gid, key@) == Some(v@) && v@.len() == size,
                None => self@.blob(gid, key@) is None || self@.blob(gid, key@)->0.len() != size,
            },
    {
        match self.get_meta_raw(gid, key) {
            Some(bytes) => {
                if bytes.len() == size {
                    Some(bytes)
                } else {
                    None
                }
            },
            None => None,
        }
    }

    /// Whether bytes are stored for `gid` under `key`.
    pub fn has_meta(&self, gid: GID, key: &str) -> (found: bool)
        requires
            self.wf(),
        ensures
            found == self@.blob(gid, key@) is Some,
    {
        match self.get_meta_raw(gid, key) {
            Some(_) => true,
            None => false,
        }
    }

    /// Takes the bytes stored for `gid` under `key` out of the store and
    /// returns them.
    pub fn remove_meta(&mut self, gid: GID, key: &str) -> (removed: Option<Vec<u8>>)
        requires
            old(self).wf(),
        ensures
            final(self).wf(),
            final(self)@.entries == old(self)@.entries,
            final(self)@.dfs_order == old(self)@.dfs_order,
            final(self)@.max_depth == old(self)@.max_depth,
            old(self)@.metadata.contains_key(gid) ==> final(self)@.metadata == old(
                self,
            )@.metadata.insert(gid, old(self)@.metadata[gid].remove(key@)),
            !old(self)@.metadata.contains_key(gid) ==> final(self)@.metadata == old(self)@.metadata,
            match removed {
                Some(v) => old(self)@.blob(gid, key@) == Some(v@),
                None => old(self)@.blob(gid, key@) is None,
            },
    {
        let ghost before = self.metadata@;
        let taken: Option<Vec<MetaRecord>> = self.metadata.remove(&gid);
        match taken {
            Some(t) => {
                let mut table: Vec<MetaRecord> = t;
                assert(keys_distinct(table@)) by {
                    assert(keys_distinct(before[gid]@));
                }
                let removed: Option<Vec<u8>> = table_remove(&mut table, key);
                self.metadata.insert(gid, table);
                proof {
                    assert(self@.metadata =~= old(self)@.metadata.insert(
                        gid,
                        old(self)@.metadata[gid].remove(key@),
                    ));
                    assert(old(self)@.sound());
                    assert(self@.entries == old(self)@.entries);
                    assert(self@.dfs_order == old(self)@.dfs_order);
                    assert(self@.sound());
                }
                removed
            },
            None => {
                proof {
                    assert(self.metadata@ =~= before);
                    assert(self@.metadata =~= old(self)@.metadata);
                    assert(old(self)@.sound());
                    assert(self@.entries == old(self)@.entries);
                    assert(self@.dfs_order == old(self)@.dfs_order);
                    assert(self@.sound());
                }
                None
            },
        }
    }

    /// The keys under which bytes are stored for `gid`, each once, in no
    /// particular order; nothing where nothing was ever stored for `gid`.
    pub fn meta_keys(&self, gid: GID) -> (keys: Option<Vec<&str>>)
        requires
            self.wf(),
        ensures
            keys is Some <==> self@.metadata.contains_key(gid),
            keys is Some ==> texts(keys->0@).no_duplicates() && texts(keys->0@).to_set()
                == self@.metadata[gid].dom(),
    {
        match self.metadata.get(&gid) {
            Some(table) => {
                let keys: Vec<&str> = table_keys(table);
                proof {
                    let records = table@;
                    let listed = texts(keys@);
                    assert(keys_distinct(records));
                    assert forall|i: int, j: int|
                        0 <= i < listed.len() && 0 <= j < listed.len() && i != j implies listed[i]
                        != listed[j] by {
                        assert(records[i].key@ != records[j].key@);
                    }
                    assert forall|k: Seq<char>| listed.to_set().contains(k)
                        <==> self@.metadata[gid].dom().contains(k) by {
                        if listed.to_set().contains(k) {
                            let i = choose|i: int| 0 <= i < listed.len() && listed[i] == k;
                            lemma_place_of_key(records, i);
                        }
                        if self@.metadata[gid].dom().contains(k) {
                            let i = crate::meta::place_of_key(records, k);
                            assert(listed[i] == k);
                        }
                    }
                    assert(listed.to_set() =~= self@.metadata[gid].dom());
                }
                Some(keys)
            },
            None => None,
        }
    }

    /// The keys under which bytes are stored for `gid`, each once and with
    /// its bytes, in no particular order; nothing where nothing was ever
    /// stored for `gid`.
    pub fn meta_iter(&self, gid: GID) -> (pairs: Option<Vec<(&str, &[u8])>>)
        requires
            self.wf(),
        ensures
            pairs is Some <==> self@.metadata.contains_key(gid),
            pairs is Some ==> {
                &&& pair_keys(pairs->0@).no_duplicates()
                &&& pair_keys(pairs->0@).to_set() == self@.metadata[gid].dom()
                &&& forall|i: int|
                    0 <= i < pairs->0@.len() ==> self@.metadata[gid][(#[trigger] pairs->0@[i]).0@]
                        == pairs->0@[i].1@
            },
    {
        match self.metadata.get(&gid) {
            Some(table) => {
                let pairs: Vec<(&str, &[u8])> = table_pairs(table);
                proof {
                    let records = table@;
                    let listed = pair_keys(pairs@);
                    assert(keys_distinct(records));
                    assert forall|i: int, j: int|
                        0 <= i < listed.len() && 0 <= j < listed.len() && i != j implies listed[i]
                        != listed[j] by {
                        assert(records[i].key@ != records[j].key@);
                    }
                    assert forall|k: Seq<char>| listed.to_set().contains(k)
                        <==> self@.metadata[gid].dom().contains(k) by {
                        if listed.to_set().contains(k) {
                            let i = choose|i: int| 0 <= i < listed.len() && listed[i] == k;
                            lemma_place_of_key(records, i);
                        }
                        if self@.metadata[gid].dom().contains(k) {
                            let i = crate::meta::place_of_key(records, k);
                            assert(listed[i] == k);
                        }
                    }
                    assert(listed.to_set() =~= self@.metadata[gid].dom());
                    assert forall|i: int| 0 <= i < pairs@.len() implies self@.metadata[gid][(
                    #[trigger] pairs@[i]).0@] == pairs@[i].1@ by {
                        lemma_place_of_key(records, i);
                    }
                }
                Some(pairs)
            },
            None => None,
        }
    }
}

/// The texts of a list of keys.
pub open spec fn texts(keys: Seq<&str>) -> Seq<Seq<char>> {
    keys.map_values(|k: &str| k@)
}

/// The keys of a list of keys with their bytes.
pub open spec fn pair_keys(pairs: Seq<(&str, &[u8])>) -> Seq<Seq<char>> {
    pairs.map_values(|p: (&str, &[u8])| p.0@)
}

/// Filtering a list with one more identifier at its end.
proof fn lemma_filter_push(gids: Seq<u128>, g: u128, ancestor: u128)
    ensures
        descendants_among(gids.push(g), ancestor) == if spec_is_descendant(g, ancestor) {
            descendants_among(gids, ancestor).push(g)
        } else {
            descendants_among(gids, ancestor)
        },
{
    let pred = |x: u128| spec_is_descendant(x, ancestor);
    reveal(Seq::filter);
    assert(gids.push(g).drop_last() =~= gids);
}

impl Default for NamespaceRegistry {
    fn default() -> (registry: Self)
        ensures
            registry.wf(),
            registry@ == RegistryView::empty(),
    {
        NamespaceRegistry::new()
    }
}

} // verus!
