//! From a flat list of definitions to a forest in depth-first order.

use vstd::prelude::*;
use vstd::hash_map::StringHashMap;
use crate::defs::{
    defs_view, flawed_at, has_path, index_of_path, link_chain, link_depth, links_rooted,
    links_shallow, orphan_at, parents_present, paths_sound, too_deep_at, DefView, NamespaceDef,
};
use crate::error::{ErrorView, RegistryError};
use crate::hash::segments_view;
use crate::order::{is_arrangement, key_table, keys_less, lemma_keys_total, sorted_indices};
use crate::path::lemma_bytes_determine_text;

verus! {

/// `index` maps the path of each definition to the place of the definition.
pub open spec fn indexes_defs(index: Map<Seq<char>, usize>, defs: Seq<DefView>) -> bool {
    &&& forall|p: Seq<char>| index.contains_key(p) <==> has_path(defs, p)
    &&& forall|i: int| 0 <= i < defs.len() ==> index[(#[trigger] defs[i]).path] == i
}

/// Definition `i` is the first whose path is empty or repeats an earlier
/// one.
pub open spec fn first_flaw(defs: Seq<DefView>, i: int) -> bool {
    &&& 0 <= i < defs.len()
    &&& flawed_at(defs, i)
    &&& forall|j: int| 0 <= j < i ==> !flawed_at(defs, j)
}

/// Definition `i` is the first that names an undefined parent.
pub open spec fn first_orphan(defs: Seq<DefView>, i: int) -> bool {
    &&& 0 <= i < defs.len()
    &&& orphan_at(defs, i)
    &&& forall|j: int| 0 <= j < i ==> !orphan_at(defs, j)
}

/// What `validate_defs` answers for a list of definitions.
pub open spec fn validation_outcome(
    defs: Seq<DefView>,
    r: Result<Map<Seq<char>, usize>, ErrorView>,
) -> bool {
    match r {
        Ok(index) => paths_sound(defs) && parents_present(defs) && indexes_defs(index, defs),
        Err(ErrorView::EmptyPath) => exists|i: int|
            first_flaw(defs, i) && (#[trigger] defs[i]).path.len() == 0,
        Err(ErrorView::DuplicatePath { path }) => exists|i: int|
            first_flaw(defs, i) && (#[trigger] defs[i]).path.len() > 0 && defs[i].path == path,
        Err(ErrorView::MissingParent { path, parent }) => paths_sound(defs) && exists|i: int|
            first_orphan(defs, i) && (#[trigger] defs[i]).path == path && defs[i].parent == Some(
                parent,
            ),
        Err(_) => false,
    }
}

/// The view of a validation result.
pub open spec fn validation_view(r: Result<StringHashMap<usize>, RegistryError>) -> Result<
    Map<Seq<char>, usize>,
    ErrorView,
> {
    match r {
        Ok(index) => Ok(index@),
        Err(e) => Err(e@),
    }
}

/// Checks that every path is non-empty and defined once, and that every
/// parent named is defined.  The first definition at fault decides the
/// error.  On success the paths come back indexed.
pub fn validate_defs(defs: &[NamespaceDef]) -> (r: Result<StringHashMap<usize>, RegistryError>)
    ensures
        validation_outcome(defs_view(defs@), validation_view(r)),
{
    let ghost dv = defs_view(defs@);
    let mut index: StringHashMap<usize> = StringHashMap::new();
    let mut i: usize = 0;
    while i < defs.len()
        invariant
            i <= defs@.len(),
            dv == defs_view(defs@),
            forall|j: int| 0 <= j < i ==> !flawed_at(dv, j),
            forall|p: Seq<char>| index@.contains_key(p) <==> has_path(dv.take(i as int), p),
            forall|j: int| 0 <= j < i ==> index@[(#[trigger] dv[j]).path] == j,
        decreases defs@.len() - i,
    {
        let path: &str = defs[i].path;
        assert(path@ == dv[i as int].path);
        if path.is_empty() {
            assert(first_flaw(dv, i as int));
            return Err(RegistryError::EmptyPath);
        }
        if index.contains_key(path) {
            assert(first_flaw(dv, i as int));
            return Err(RegistryError::DuplicatePath { path: path.to_owned() });
        }
        index.insert(path.to_owned(), i);
        proof {
            let before = dv.take(i as int);
            let after = dv.take(i + 1);
            assert(after =~= before.push(dv[i as int]));
            assert forall|p: Seq<char>| index@.contains_key(p) <==> has_path(after, p) by {
                if has_path(after, p) {
                    let j = choose|j: int| 0 <= j < after.len() && (#[trigger] after[j]).path == p;
                    if j < i {
                        assert(before[j].path == p);
                    }
                }
                if has_path(before, p) {
                    let j = choose|j: int|
                        0 <= j < before.len() && (#[trigger] before[j]).path == p;
                    assert(after[j].path == p);
                }
                if p == path@ {
                    assert(after[i as int].path == p);
                }
            }
            assert forall|j: int| 0 <= j < i + 1 implies index@[(#[trigger] dv[j]).path] == j by {
                if j < i {
                    assert(before[j].path == dv[j].path);
                    assert(has_path(before, dv[j].path));
                }
            }
        }
        i += 1;
    }
    proof {
        assert(dv.take(i as int) =~= dv);
    }
    let mut k: usize = 0;
    while k < defs.len()
        invariant
            k <= defs@.len(),
            dv == defs_view(defs@),
            paths_sound(dv),
            indexes_defs(index@, dv),
            forall|j: int| 0 <= j < k ==> !orphan_at(dv, j),
        decreases defs@.len() - k,
    {
        let def: NamespaceDef = defs[k];
        assert(def@ == dv[k as int]);
        match def.parent {
            Some(parent) => {
                if !index.contains_key(parent) {
                    assert(first_orphan(dv, k as int));
                    return Err(
                        RegistryError::MissingParent {
                            path: def.path.to_owned(),
                            parent: parent.to_owned(),
                        },
                    );
                }
            },
            None => {},
        }
        k += 1;
    }
    Ok(index)
}

/// Definitions with the same path are the same definition.
pub proof fn lemma_paths_unique(defs: Seq<DefView>, a: int, b: int)
    requires
        paths_sound(defs),
        0 <= a < defs.len(),
        0 <= b < defs.len(),
        defs[a].path == defs[b].path,
    ensures
        a == b,
{
    if a < b {
        assert(defs.take(b)[a].path == defs[b].path);
        assert(flawed_at(defs, b));
    }
    if b < a {
        assert(defs.take(a)[b].path == defs[a].path);
        assert(flawed_at(defs, a));
    }
}

/// `parents` holds, for each definition, the place of the definition that
/// it names as its parent.
pub open spec fn links_resolved(parents: Seq<Option<usize>>, defs: Seq<DefView>) -> bool {
    &&& parents.len() == defs.len() <= usize::MAX
    &&& forall|i: int|
        0 <= i < defs.len() ==> match (#[trigger] defs[i]).parent {
            None => parents[i] is None,
            Some(p) => parents[i] == Some(index_of_path(defs, p) as usize) && 0 <= index_of_path(
                defs,
                p,
            ) < defs.len(),
        }
}

/// Looks up the parent of each definition.
pub fn resolve_links(defs: &[NamespaceDef], index: &StringHashMap<usize>) -> (parents: Vec<
    Option<usize>,
>)
    requires
        paths_sound(defs_view(defs@)),
        parents_present(defs_view(defs@)),
        indexes_defs(index@, defs_view(defs@)),
    ensures
        links_resolved(parents@, defs_view(defs@)),
{
    let ghost dv = defs_view(defs@);
    let mut parents: Vec<Option<usize>> = Vec::new();
    let mut i: usize = 0;
    while i < defs.len()
        invariant
            i <= defs@.len(),
            dv == defs_view(defs@),
            paths_sound(dv),
            parents_present(dv),
            indexes_defs(index@, dv),
            parents@.len() == i,
            forall|j: int|
                0 <= j < i ==> match (#[trigger] dv[j]).parent {
                    None => parents@[j] is None,
                    Some(p) => parents@[j] == Some(index_of_path(dv, p) as usize) && 0
                        <= index_of_path(dv, p) < dv.len(),
                },
        decreases defs@.len() - i,
    {
        let def: NamespaceDef = defs[i];
        assert(def@ == dv[i as int]);
        match def.parent {
            None => {
                parents.push(None);
            },
            Some(name) => {
                assert(!orphan_at(dv, i as int));
                let found: Option<&usize> = index.get(name);
                let at: usize = match found {
                    Some(place) => *place,
                    None => 0,
                };
                proof {
                    let j = index_of_path(dv, name@);
                    assert(index@[dv[j].path] == j);
                }
                parents.push(Some(at));
            },
        }
        i += 1;
    }
    parents
}

/// What the table of parents says about one definition.
pub proof fn lemma_link_of(defs: Seq<DefView>, parents: Seq<Option<usize>>, i: int)
    requires
        links_resolved(parents, defs),
        0 <= i < defs.len(),
    ensures
        defs[i].parent is None <==> parents[i] is None,
        defs[i].parent is Some ==> parents[i] == Some(
            index_of_path(defs, defs[i].parent->0) as usize,
        ) && 0 <= index_of_path(defs, defs[i].parent->0) < defs.len(),
{
    let d = defs[i];
    assert(match d.parent {
        None => parents[i] is None,
        Some(p) => parents[i] == Some(index_of_path(defs, p) as usize) && 0 <= index_of_path(
            defs,
            p,
        ) < defs.len(),
    });
}

/// `up` climbs from a definition along the links: each place is followed by
/// the place of its parent.
pub open spec fn is_climb(up: Seq<usize>, parents: Seq<Option<usize>>) -> bool {
    &&& 1 <= up.len() <= 9
    &&& forall|k: int| 0 <= k < up.len() ==> (#[trigger] up[k]) < parents.len()
    &&& forall|k: int| 0 <= k < up.len() - 1 ==> parents[(#[trigger] up[k]) as int] == Some(up[k + 1])
}

/// The paths along a climb, root first, from its top down to place `k`.
pub open spec fn climb_paths(up: Seq<usize>, defs: Seq<DefView>, k: int) -> Seq<Seq<u8>> {
    Seq::new(
        (up.len() - k) as nat,
        |t: int| vstd::utf8::encode_utf8(defs[up[up.len() - 1 - t] as int].path),
    )
}

/// A climb that ends at a root tells the depth and the chain of each place
/// on it.
pub proof fn lemma_climb_to_root(
    defs: Seq<DefView>,
    parents: Seq<Option<usize>>,
    up: Seq<usize>,
    k: int,
    fuel: nat,
)
    requires
        links_resolved(parents, defs),
        is_climb(up, parents),
        parents[up.last() as int] is None,
        0 <= k < up.len(),
        fuel >= up.len() - 1 - k,
    ensures
        link_depth(defs, up[k] as int, fuel) == Some((up.len() - 1 - k) as nat),
        link_chain(defs, up[k] as int, fuel) == climb_paths(up, defs, k),
    decreases up.len() - k,
{
    let here = up[k] as int;
    assert(here < defs.len());
    lemma_link_of(defs, parents, here);
    if k == up.len() - 1 {
        assert(defs[here].parent is None);
        assert(link_chain(defs, here, fuel) =~= climb_paths(up, defs, k));
    } else {
        assert(parents[here] == Some(up[k + 1]));
        let above = index_of_path(defs, defs[here].parent->0);
        assert(above == up[k + 1] as int);
        lemma_climb_to_root(defs, parents, up, k + 1, (fuel - 1) as nat);
        assert(link_depth(defs, above, (fuel - 1) as nat) == Some((up.len() - 2 - k) as nat));
        assert(link_chain(defs, here, fuel) == link_chain(defs, above, (fuel - 1) as nat).push(
            vstd::utf8::encode_utf8(defs[here].path),
        ));
        assert(climb_paths(up, defs, k) =~= climb_paths(up, defs, k + 1).push(
            vstd::utf8::encode_utf8(defs[here].path),
        ));
    }
}

/// A climb of eight links that has not reached a root shows that its start
/// reaches none within eight links.
pub proof fn lemma_climb_unfinished(
    defs: Seq<DefView>,
    parents: Seq<Option<usize>>,
    up: Seq<usize>,
    k: int,
)
    requires
        links_resolved(parents, defs),
        is_climb(up, parents),
        parents[up.last() as int] is Some,
        0 <= k < up.len(),
    ensures
        link_depth(defs, up[k] as int, (up.len() - 1 - k) as nat) is None,
    decreases up.len() - k,
{
    let here = up[k] as int;
    assert(here < defs.len());
    lemma_link_of(defs, parents, here);
    if k < up.len() - 1 {
        assert(parents[here] == Some(up[k + 1]));
        let above = index_of_path(defs, defs[here].parent->0);
        assert(above == up[k + 1] as int);
        lemma_climb_unfinished(defs, parents, up, k + 1);
    }
}

/// Climbs from definition `start` towards its root, eight links at most.
pub fn climb(parents: &Vec<Option<usize>>, start: usize) -> (up: Vec<usize>)
    requires
        start < parents@.len(),
        forall|i: int|
            0 <= i < parents@.len() ==> match #[trigger] parents@[i] {
                Some(p) => p < parents@.len(),
                None => true,
            },
    ensures
        is_climb(up@, parents@),
        up@[0] == start,
        parents@[up@.last() as int] is None || up@.len() == 9,
{
    let mut up: Vec<usize> = Vec::new();
    up.push(start);
    let mut here: usize = start;
    while up.len() < 9 && parents[here].is_some()
        invariant
            is_climb(up@, parents@),
            up@[0] == start,
            here == up@.last(),
            forall|i: int|
                0 <= i < parents@.len() ==> match #[trigger] parents@[i] {
                    Some(p) => p < parents@.len(),
                    None => true,
                },
        decreases 9 - up@.len(),
    {
        let next: usize = match parents[here] {
            Some(p) => p,
            None => here,
        };
        let ghost before = up@;
        up.push(next);
        proof {
            assert forall|k: int| 0 <= k < up@.len() - 1 implies parents@[(#[trigger] up@[k]) as int]
                == Some(up@[k + 1]) by {
                if k < before.len() - 1 {
                    assert(up@[k] == before[k]);
                    assert(up@[k + 1] == before[k + 1]);
                }
            }
        }
        here = next;
    }
    up
}

/// A forest read from a list of definitions.
pub struct TreeBuilder {
    /// The places of the definitions, in depth-first order.
    pub nodes: Vec<usize>,
    /// The greatest number of links between a definition and its root.
    pub max_depth: u8,
}

/// `order` lists every definition once, parents before their children and
/// the children of one parent by their paths: the chains from the roots
/// stand in lexicographic order.
pub open spec fn is_dfs_order(order: Seq<usize>, defs: Seq<DefView>) -> bool {
    &&& is_arrangement(order, defs.len() as int)
    &&& forall|a: int, b: int|
        0 <= a < b < order.len() ==> keys_less(
            #[trigger] link_chain(defs, order[a] as int, 8),
            #[trigger] link_chain(defs, order[b] as int, 8),
        )
}

/// `m` is the greatest depth among the definitions, or zero where there is
/// none.
pub open spec fn is_max_link_depth(m: nat, defs: Seq<DefView>) -> bool {
    &&& forall|i: int|
        0 <= i < defs.len() && (#[trigger] link_depth(defs, i, 8)) is Some ==> link_depth(
            defs,
            i,
            8,
        )->0 <= m
    &&& defs.len() == 0 ==> m == 0
    &&& defs.len() > 0 ==> exists|i: int|
        0 <= i < defs.len() && #[trigger] link_depth(defs, i, 8) == Some(m)
}

/// What `TreeBuilder::from_defs` answers for a list of definitions.
pub open spec fn tree_outcome(
    defs: Seq<DefView>,
    r: Result<(Seq<usize>, nat), ErrorView>,
) -> bool {
    match r {
        Ok((order, max_depth)) => {
            &&& links_shallow(defs)
            &&& links_rooted(defs)
            &&& is_dfs_order(order, defs)
            &&& is_max_link_depth(max_depth, defs)
        },
        Err(ErrorView::DepthExceeded { path }) => exists|i: int|
            0 <= i < defs.len() && too_deep_at(defs, i) && (#[trigger] defs[i]).path == path,
        Err(ErrorView::Disconnected) => links_shallow(defs) && !links_rooted(defs),
        Err(_) => false,
    }
}

/// The view of the result of building a tree.
pub open spec fn tree_view(r: Result<TreeBuilder, RegistryError>) -> Result<
    (Seq<usize>, nat),
    ErrorView,
> {
    match r {
        Ok(tree) => Ok((tree.nodes@, tree.max_depth as nat)),
        Err(e) => Err(e@),
    }
}

/// The chain of a definition ends in its own path.
pub proof fn lemma_chain_ends_in_path(defs: Seq<DefView>, i: int, fuel: nat)
    ensures
        link_chain(defs, i, fuel).len() > 0,
        link_chain(defs, i, fuel).last() == vstd::utf8::encode_utf8(defs[i].path),
{
}

impl TreeBuilder {
    /// Reads the forest from definitions whose paths are sound and whose
    /// parents are present: assigns each definition its depth along the
    /// links, refuses a definition eight links deep or one that reaches no
    /// root, and lists the definitions in depth-first order.
    pub fn from_defs(defs: &[NamespaceDef], index: &StringHashMap<usize>) -> (r: Result<
        TreeBuilder,
        RegistryError,
    >)
        requires
            paths_sound(defs_view(defs@)),
            parents_present(defs_view(defs@)),
            indexes_defs(index@, defs_view(defs@)),
        ensures
            tree_outcome(defs_view(defs@), tree_view(r)),
    {
        let ghost dv = defs_view(defs@);
        let parents: Vec<Option<usize>> = resolve_links(defs, index);
        proof {
            assert forall|i: int| 0 <= i < parents@.len() implies match #[trigger] parents@[i] {
                Some(p) => p < parents@.len(),
                None => true,
            } by {
                lemma_link_of(dv, parents@, i);
            }
        }
        let mut keys: Vec<Vec<&[u8]>> = Vec::new();
        let mut max_depth: u8 = 0;
        let mut unrooted: bool = false;
        let mut i: usize = 0;
        while i < defs.len()
            invariant
                i <= defs@.len(),
                dv == defs_view(defs@),
                links_resolved(parents@, dv),
                forall|j: int|
                    0 <= j < parents@.len() ==> match #[trigger] parents@[j] {
                        Some(p) => p < parents@.len(),
                        None => true,
                    },
                keys@.len() == i,
                max_depth < 8,
                forall|j: int| 0 <= j < i ==> !too_deep_at(dv, j),
                unrooted <==> exists|j: int| 0 <= j < i && link_depth(dv, j, 8) is None,
                forall|j: int|
                    0 <= j < i && link_depth(dv, j, 8) is Some ==> #[trigger] key_table(keys@)[j]
                        == link_chain(dv, j, 8),
                forall|j: int|
                    0 <= j < i && (#[trigger] link_depth(dv, j, 8)) is Some ==> link_depth(
                        dv,
                        j,
                        8,
                    )->0 <= max_depth,
                i == 0 ==> max_depth == 0,
                i > 0 && !unrooted ==> exists|j: int|
                    0 <= j < i && #[trigger] link_depth(dv, j, 8) == Some(max_depth as nat),
            decreases defs@.len() - i,
        {
            let up: Vec<usize> = climb(&parents, i);
            let top: usize = up[up.len() - 1];
            let ghost old_keys = keys@;
            if parents[top].is_some() {
                proof {
                    lemma_climb_unfinished(dv, parents@, up@, 0);
                }
                unrooted = true;
                keys.push(Vec::new());
            } else {
                proof {
                    lemma_climb_to_root(dv, parents@, up@, 0, 8);
                }
                let depth: usize = up.len() - 1;
                if depth >= 8 {
                    assert(too_deep_at(dv, i as int));
                    assert(dv[i as int].path == defs@[i as int].path@);
                    return Err(RegistryError::DepthExceeded { path: defs[i].path.to_owned() });
                }
                if depth > max_depth as usize {
                    max_depth = depth as u8;
                }
                let mut chain: Vec<&[u8]> = Vec::new();
                let mut t: usize = up.len();
                while t > 0
                    invariant
                        t <= up@.len(),
                        dv == defs_view(defs@),
                        is_climb(up@, parents@),
                        parents@.len() == defs@.len(),
                        chain@.len() == up@.len() - t,
                        forall|q: int|
                            0 <= q < chain@.len() ==> (#[trigger] chain@[q])@
                                == vstd::utf8::encode_utf8(
                                dv[up@[up@.len() - 1 - q] as int].path,
                            ),
                    decreases t,
                {
                    t -= 1;
                    let place: usize = up[t];
                    assert(place < defs@.len());
                    assert(dv[place as int].path == defs@[place as int].path@);
                    chain.push(defs[place].path.as_bytes());
                }
                proof {
                    assert(segments_view(chain@) =~= climb_paths(up@, dv, 0));
                }
                keys.push(chain);
            }
            proof {
                assert forall|j: int|
                    0 <= j < i + 1 && link_depth(dv, j, 8) is Some implies #[trigger] key_table(
                    keys@,
                )[j] == link_chain(dv, j, 8) by {
                    if j < i {
                        assert(key_table(old_keys)[j] == link_chain(dv, j, 8));
                        assert(keys@[j] == old_keys[j]);
                    }
                }
            }
            i += 1;
        }
        if unrooted {
            return Err(RegistryError::Disconnected);
        }
        let nodes: Vec<usize> = sorted_indices(&keys);
        proof {
            let table = key_table(keys@);
            assert forall|a: int, b: int| 0 <= a < b < nodes@.len() implies keys_less(
                #[trigger] link_chain(dv, nodes@[a] as int, 8),
                #[trigger] link_chain(dv, nodes@[b] as int, 8),
            ) by {
                let x = nodes@[a] as int;
                let y = nodes@[b] as int;
                assert(x != y);
                assert(table[x] == link_chain(dv, x, 8));
                assert(table[y] == link_chain(dv, y, 8));
                assert(!keys_less(table[y], table[x]));
                lemma_keys_total(table[x], table[y]);
                lemma_chain_ends_in_path(dv, x, 8);
                lemma_chain_ends_in_path(dv, y, 8);
                if table[x] == table[y] {
                    lemma_bytes_determine_text(dv[x].path, dv[y].path);
                    lemma_paths_unique(dv, x, y);
                }
            }
        }
        Ok(TreeBuilder { nodes, max_depth })
    }
}

} // verus!
