//! Assigning identifiers to the definitions of a forest and detecting
//! collisions among them.

use vstd::prelude::*;
use std::collections::HashMap;
use crate::defs::{defs_view, gids_distinct, paths_shallow, paths_sound, DefView, NamespaceDef};
use crate::entry::{entries_view, entry_for, EntryView, NamespaceEntry};
use crate::error::{ErrorView, RegistryError};
use crate::order::is_arrangement;
use crate::path::{gid_of_path, path_depth, path_gid};
use crate::tree::lemma_paths_unique;

verus! {

broadcast use vstd::std_specs::hash::group_hash_axioms;

/// The nodes of the definitions, in the given order, none of them dynamic.
pub open spec fn entries_in_order(order: Seq<usize>, defs: Seq<DefView>) -> Seq<EntryView> {
    Seq::new(order.len(), |k: int| entry_for(defs[order[k] as int].path, false))
}

/// What `assign_gids` answers for a list of definitions.
pub open spec fn assignment_outcome(
    defs: Seq<DefView>,
    order: Seq<usize>,
    r: Result<Seq<EntryView>, ErrorView>,
) -> bool {
    match r {
        Ok(entries) => {
            &&& paths_shallow(defs)
            &&& gids_distinct(defs)
            &&& entries == entries_in_order(order, defs)
        },
        Err(ErrorView::DepthExceeded { path }) => exists|i: int|
            0 <= i < defs.len() && (#[trigger] defs[i]).path == path && path_depth(path) >= 8,
        Err(ErrorView::Collision { path, existing, gid }) => {
            &&& paths_shallow(defs)
            &&& exists|i: int, j: int|
                0 <= i < defs.len() && 0 <= j < defs.len() && i != j && (#[trigger] defs[i]).path
                    == path && (#[trigger] defs[j]).path == existing
            &&& path != existing
            &&& gid == path_gid(path)
            &&& gid == path_gid(existing)
        },
        Err(_) => false,
    }
}

/// The view of the result of an assignment.
pub open spec fn assignment_view(r: Result<Vec<NamespaceEntry>, RegistryError>) -> Result<
    Seq<EntryView>,
    ErrorView,
> {
    match r {
        Ok(entries) => Ok(entries_view(entries@)),
        Err(e) => Err(e@),
    }
}

/// Computes the identifier of every definition, in the given order.  A path
/// of more than eight segments is refused first; then two paths with the
/// same identifier are, and both are named.
pub fn assign_gids(defs: &[NamespaceDef], order: &Vec<usize>) -> (r: Result<
    Vec<NamespaceEntry>,
    RegistryError,
>)
    requires
        paths_sound(defs_view(defs@)),
        is_arrangement(order@, defs@.len() as int),
    ensures
        assignment_outcome(defs_view(defs@), order@, assignment_view(r)),
{
    let ghost dv = defs_view(defs@);
    let mut gids: Vec<u128> = Vec::new();
    let mut k: usize = 0;
    while k < order.len()
        invariant
            k <= order@.len(),
            dv == defs_view(defs@),
            is_arrangement(order@, defs@.len() as int),
            gids@.len() == k,
            forall|q: int| 0 <= q < k ==> path_depth(dv[(#[trigger] order@[q]) as int].path) < 8,
            forall|q: int|
                0 <= q < k ==> #[trigger] gids@[q] == path_gid(dv[order@[q] as int].path),
        decreases order@.len() - k,
    {
        let at: usize = order[k];
        assert(at < defs@.len());
        let path: &str = defs[at].path;
        assert(path@ == dv[at as int].path);
        match gid_of_path(path) {
            Some(gid) => {
                let ghost before = gids@;
                gids.push(gid);
                proof {
                    assert forall|q: int| 0 <= q < k + 1 implies #[trigger] gids@[q] == path_gid(
                        dv[order@[q] as int].path,
                    ) by {
                        if q < k {
                            assert(gids@[q] == before[q]);
                        }
                    }
                }
            },
            None => {
                return Err(RegistryError::DepthExceeded { path: path.to_owned() });
            },
        }
        k += 1;
    }
    proof {
        assert forall|i: int| 0 <= i < dv.len() implies path_depth(#[trigger] dv[i].path) < 8 by {
            assert(order@.contains(i as usize));
            let q = choose|q: int| 0 <= q < order@.len() && order@[q] == i as usize;
            assert(path_depth(dv[(order@[q]) as int].path) < 8);
        }
    }
    let mut entries: Vec<NamespaceEntry> = Vec::new();
    let mut seen: HashMap<u128, usize> = HashMap::new();
    let mut m: usize = 0;
    while m < order.len()
        invariant
            m <= order@.len(),
            dv == defs_view(defs@),
            paths_sound(dv),
            paths_shallow(dv),
            is_arrangement(order@, defs@.len() as int),
            gids@.len() == order@.len(),
            forall|q: int|
                0 <= q < order@.len() ==> #[trigger] gids@[q] == path_gid(
                    dv[order@[q] as int].path,
                ),
            entries@.len() == m,
            forall|q: int|
                0 <= q < m ==> (#[trigger] entries@[q])@ == entry_for(
                    dv[order@[q] as int].path,
                    false,
                ),
            forall|g: u128|
                seen@.contains_key(g) <==> exists|q: int| 0 <= q < m && #[trigger] gids@[q] == g,
            forall|g: u128|
                seen@.contains_key(g) ==> (#[trigger] seen@[g]) < m && gids@[seen@[g] as int] == g,
            forall|p: int, q: int| 0 <= p < q < m ==> gids@[p] != gids@[q],
        decreases order@.len() - m,
    {
        let at: usize = order[m];
        assert(at < defs@.len());
        let path: &str = defs[at].path;
        assert(path@ == dv[at as int].path);
        let gid: u128 = gids[m];
        let found: Option<&usize> = seen.get(&gid);
        match found {
            Some(earlier) => {
                let first: usize = order[*earlier];
                assert(first < defs@.len());
                let existing: &str = defs[first].path;
                proof {
                    assert(existing@ == dv[first as int].path);
                    assert(first != at);
                    if path@ == existing@ {
                        lemma_paths_unique(dv, at as int, first as int);
                    }
                }
                return Err(
                    RegistryError::Collision {
                        path: path.to_owned(),
                        existing: existing.to_owned(),
                        gid,
                    },
                );
            },
            None => {},
        }
        seen.insert(gid, m);
        entries.push(NamespaceEntry { gid, path: path.to_owned(), is_dynamic: false });
        proof {
            assert forall|g: u128| seen@.contains_key(g) <==> exists|q: int|
                0 <= q < m + 1 && #[trigger] gids@[q] == g by {
                if g == gid {
                    assert(gids@[m as int] == g);
                }
            }
        }
        m += 1;
    }
    proof {
        assert(entries_view(entries@) =~= entries_in_order(order@, dv));
        assert forall|i: int, j: int|
            0 <= i < dv.len() && 0 <= j < dv.len() && i != j implies path_gid(
            #[trigger] dv[i].path,
        ) != path_gid(#[trigger] dv[j].path) by {
            assert(order@.contains(i as usize));
            assert(order@.contains(j as usize));
            let p = choose|p: int| 0 <= p < order@.len() && order@[p] == i as usize;
            let q = choose|q: int| 0 <= q < order@.len() && order@[q] == j as usize;
            assert(gids@[p] == path_gid(dv[i].path));
            assert(gids@[q] == path_gid(dv[j].path));
            if p < q {
                assert(gids@[p] != gids@[q]);
            } else {
                assert(gids@[q] != gids@[p]);
            }
        }
    }
    Ok(entries)
}

} // verus!
