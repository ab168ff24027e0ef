//! Laws of the registry: the identifier of a path is stable.

use vstd::prelude::*;
use crate::assign::entries_in_order;
use crate::defs::{has_path, DefView};
use crate::dfs::missing_upto;
use crate::entry::{entry_for, has_entry_path, place_of_path, EntryView};
use crate::error::ErrorView;
use crate::path::{path_depth, path_gid};
use crate::registry::{build_outcome, register_outcome, RegistryView};
use crate::tree::is_dfs_order;

verus! {

/// In a sound registry the identifier of a registered path is the
/// identifier that the path stands for.
pub proof fn lemma_gid_is_of_path(registry: RegistryView, path: Seq<char>)
    requires
        registry.sound(),
        has_entry_path(registry.entries, path),
    ensures
        registry.gid_of(path) == Some(path_gid(path)),
{
    let i = place_of_path(registry.entries, path);
    assert(registry.entries[i].gid == path_gid(registry.entries[i].path));
}

/// Two sound registries give a path that both hold the same identifier,
/// whatever else they hold and in whatever order they were filled.
pub proof fn lemma_gid_determined_by_path(first: RegistryView, second: RegistryView, path: Seq<char>)
    requires
        first.sound(),
        second.sound(),
        has_entry_path(first.entries, path),
        has_entry_path(second.entries, path),
    ensures
        first.gid_of(path) == second.gid_of(path),
{
    lemma_gid_is_of_path(first, path);
    lemma_gid_is_of_path(second, path);
}

/// A registry built from a list of definitions holds every path of the
/// list, under the identifier that the path stands for.
pub proof fn lemma_build_assigns_path_gid(defs: Seq<DefView>, built: RegistryView, path: Seq<char>)
    requires
        build_outcome(defs, Ok(built)),
        has_path(defs, path),
    ensures
        has_entry_path(built.entries, path),
        built.gid_of(path) == Some(path_gid(path)),
{
    let order = choose|order: Seq<usize>|
        is_dfs_order(order, defs) && built.entries == #[trigger] entries_in_order(order, defs);
    let i = choose|i: int| 0 <= i < defs.len() && (#[trigger] defs[i]).path == path;
    assert(order.contains(i as usize));
    let k = choose|k: int| 0 <= k < order.len() && order[k] == i as usize;
    assert(built.entries[k].path == path);
    let at = place_of_path(built.entries, path);
    assert(built.entries[at] == entry_for(defs[order[at] as int].path, false));
}

/// Order independence and stability under additions: where two lists of
/// definitions are both built, be one a rearrangement of the other or the
/// other with definitions added, a path that both define gets the same
/// identifier from both.
pub proof fn lemma_build_order_independent(
    defs_a: Seq<DefView>,
    defs_b: Seq<DefView>,
    built_a: RegistryView,
    built_b: RegistryView,
    path: Seq<char>,
)
    requires
        build_outcome(defs_a, Ok(built_a)),
        build_outcome(defs_b, Ok(built_b)),
        has_path(defs_a, path),
        has_path(defs_b, path),
    ensures
        built_a.gid_of(path) is Some,
        built_a.gid_of(path) == built_b.gid_of(path),
{
    lemma_build_assigns_path_gid(defs_a, built_a, path);
    lemma_build_assigns_path_gid(defs_b, built_b, path);
}

/// Registering a path, whether it succeeds or fails, leaves every node that
/// was registered where it was, with its path and its identifier.
pub proof fn lemma_register_keeps_entries(
    before: RegistryView,
    path: Seq<char>,
    after: RegistryView,
    r: Result<u128, ErrorView>,
    i: int,
)
    requires
        register_outcome(before, path, after, r),
        0 <= i < before.entries.len(),
    ensures
        i < after.entries.len(),
        after.entries[i] == before.entries[i],
{
}

/// Registering a path does not change the identifier of any path that was
/// registered before.
pub proof fn lemma_register_keeps_gids(
    before: RegistryView,
    path: Seq<char>,
    after: RegistryView,
    r: Result<u128, ErrorView>,
    other: Seq<char>,
)
    requires
        before.sound(),
        register_outcome(before, path, after, r),
        has_entry_path(before.entries, other),
    ensures
        after.gid_of(other) == before.gid_of(other),
{
    lemma_gid_is_of_path(before, other);
    let i = place_of_path(before.entries, other);
    lemma_register_keeps_entries(before, path, after, r, i);
    assert(after.entries[i].path == other);
    let at = place_of_path(after.entries, other);
    if at >= before.entries.len() {
        let added = missing_upto(before.entries, path, path_depth(path) as int + 1);
        assert(after.entries[at] == added[at - before.entries.len()]);
        lemma_missing_gids(before.entries, path, path_depth(path) as int + 1, at
            - before.entries.len());
    } else {
        lemma_register_keeps_entries(before, path, after, r, at);
        assert(before.entries[at].gid == path_gid(before.entries[at].path));
    }
}

/// Every node that a registration adds carries the identifier of its path
/// and is dynamic.
pub proof fn lemma_missing_gids(entries: Seq<EntryView>, path: Seq<char>, k: int, i: int)
    requires
        0 <= i < missing_upto(entries, path, k).len(),
    ensures
        missing_upto(entries, path, k)[i].gid == path_gid(missing_upto(entries, path, k)[i].path),
        missing_upto(entries, path, k)[i].is_dynamic,
        !has_entry_path(entries, missing_upto(entries, path, k)[i].path),
    decreases k,
{
    if k > 0 {
        let rest = missing_upto(entries, path, k - 1);
        if i < rest.len() {
            lemma_missing_gids(entries, path, k - 1, i);
        }
    }
}

/// Registering a path twice: the second call changes nothing and returns
/// the identifier that the first returned.
pub proof fn lemma_register_idempotent(
    before: RegistryView,
    path: Seq<char>,
    between: RegistryView,
    first: u128,
    after: RegistryView,
    second: Result<u128, ErrorView>,
)
    requires
        register_outcome(before, path, between, Ok(first)),
        register_outcome(between, path, after, second),
    ensures
        second == Ok::<u128, ErrorView>(first),
        after == between,
{
    if !has_entry_path(before.entries, path) {
        let k = path_depth(path) as int + 1;
        let added = missing_upto(before.entries, path, k);
        crate::dfs::lemma_last_prefix(path);
        assert(added.len() > 0 && added.last().path == path);
        let at = before.entries.len() + added.len() - 1;
        assert(between.entries[at].path == path);
    } else {
        assert(between == before);
    }
}

} // verus!
