//! Depth-first order of registered nodes, read from the text of their
//! paths: the parent of a node is the node whose path is cut at the last
//! dot.

use vstd::prelude::*;
use vstd::hash_map::StringHashMap;
use vstd::utf8::{decode_utf8, encode_utf8, encode_utf8_decode_utf8};
use crate::entry::{
    entries_view, entry_for, has_entry_gid, has_entry_path, EntryView, NamespaceEntry,
};
use crate::error::ErrorView;
use crate::hash::segments_view;
use crate::order::{is_arrangement, key_table, keys_less, lemma_keys_total, sorted_indices};
use crate::path::{
    as_ints, dot_positions, find_dots, lemma_bytes_determine_text, lemma_dot_positions,
    lemma_prefix_at_dot, path_depth, path_gid, path_segs, prefix_before, segment_end,
};

verus! {

/// The text of a path up to the end of its segment `k`.
pub open spec fn prefix_text(path: Seq<char>, k: int) -> Seq<char> {
    let bytes = encode_utf8(path);
    decode_utf8(bytes.take(segment_end(dot_positions(bytes), bytes.len() as int, k)))
}

/// The chain of a path: the path cut after its first segment, after its
/// second, and so on down to the whole path, each as bytes.
pub open spec fn text_chain(path: Seq<char>) -> Seq<Seq<u8>> {
    let bytes = encode_utf8(path);
    let dots = dot_positions(bytes);
    Seq::new((dots.len() + 1) as nat, |k: int| bytes.take(segment_end(dots, bytes.len() as int, k)))
}

/// Every ancestor of node `i` is registered.
pub open spec fn is_rooted(entries: Seq<EntryView>, i: int) -> bool {
    forall|k: int|
        0 <= k < path_depth(entries[i].path) ==> has_entry_path(
            entries,
            #[trigger] prefix_text(entries[i].path, k),
        )
}

/// `order` lists, once each, the nodes all of whose ancestors are
/// registered, parents before their children and the children of one parent
/// by their paths: the chains stand in lexicographic order.
pub open spec fn is_textual_dfs(order: Seq<usize>, entries: Seq<EntryView>) -> bool {
    &&& forall|a: int|
        0 <= a < order.len() ==> (#[trigger] order[a]) < entries.len() && is_rooted(
            entries,
            order[a] as int,
        )
    &&& forall|i: int|
        0 <= i < entries.len() && is_rooted(entries, i) ==> #[trigger] order.contains(i as usize)
    &&& forall|a: int, b: int|
        0 <= a < b < order.len() ==> keys_less(
            #[trigger] text_chain(entries[order[a] as int].path),
            #[trigger] text_chain(entries[order[b] as int].path),
        )
}

/// The identifiers of the nodes at the places that `order` lists.
pub open spec fn gids_at(order: Seq<usize>, entries: Seq<EntryView>) -> Seq<u128> {
    Seq::new(order.len(), |k: int| entries[order[k] as int].gid)
}

/// The nodes that registering `path` adds for its first `k` prefixes: one
/// dynamic node for each prefix that is not registered yet, shallowest
/// first.  With `k` one more than the depth of the path, the last prefix is
/// the path itself.
pub open spec fn missing_upto(entries: Seq<EntryView>, path: Seq<char>, k: int) -> Seq<EntryView>
    decreases k,
{
    if k <= 0 {
        Seq::empty()
    } else if has_entry_path(entries, prefix_text(path, k - 1)) {
        missing_upto(entries, path, k - 1)
    } else {
        missing_upto(entries, path, k - 1).push(entry_for(prefix_text(path, k - 1), true))
    }
}

/// The whole path is its own last prefix.
pub proof fn lemma_last_prefix(path: Seq<char>)
    ensures
        prefix_text(path, path_depth(path) as int) == path,
{
    let bytes = encode_utf8(path);
    assert(bytes.take(bytes.len() as int) =~= bytes);
    encode_utf8_decode_utf8(path);
}

/// A text whose bytes are the bytes of `path` up to the end of segment `k`
/// is prefix `k` of the path: it has `k` dots and the first `k + 1` segments
/// of the path.
pub proof fn lemma_prefix_is(path: Seq<char>, k: int, p: Seq<char>)
    requires
        0 <= k <= path_depth(path),
        encode_utf8(p) == encode_utf8(path).take(
            segment_end(dot_positions(encode_utf8(path)), encode_utf8(path).len() as int, k),
        ),
    ensures
        p == prefix_text(path, k),
        path_depth(p) == k,
        path_segs(p) == path_segs(path).take(k + 1),
{
    let bytes = encode_utf8(path);
    encode_utf8_decode_utf8(p);
    if k < path_depth(path) {
        lemma_prefix_at_dot(bytes, k);
    } else {
        assert(bytes.take(bytes.len() as int) =~= bytes);
        assert(path_segs(path).take(k + 1) =~= path_segs(path));
    }
}

/// Prefix `k` of `path` is not registered, and its identifier is.
pub open spec fn prefix_collides(entries: Seq<EntryView>, path: Seq<char>, k: int) -> bool {
    !has_entry_path(entries, prefix_text(path, k)) && has_entry_gid(
        entries,
        path_gid(prefix_text(path, k)),
    )
}

/// Registering `path` would give a new node the identifier of a node that
/// is registered under another path.
pub open spec fn registration_collides(entries: Seq<EntryView>, path: Seq<char>) -> bool {
    exists|k: int| 0 <= k <= path_depth(path) && #[trigger] prefix_collides(entries, path, k)
}

/// The error names a collision that registering `path` runs into: the new
/// path, the registered path, and the identifier of both.
pub open spec fn collision_named(entries: Seq<EntryView>, path: Seq<char>, e: ErrorView) -> bool {
    match e {
        ErrorView::Collision { path: p, existing, gid } => {
            &&& exists|k: int|
                0 <= k <= path_depth(path) && #[trigger] prefix_collides(entries, path, k) && p
                    == prefix_text(path, k)
            &&& gid == path_gid(p)
            &&& p != existing
            &&& exists|i: int|
                0 <= i < entries.len() && (#[trigger] entries[i]).gid == gid && entries[i].path
                    == existing
        },
        _ => false,
    }
}

/// `index` knows exactly the paths of the nodes.
pub open spec fn knows_paths(index: Map<Seq<char>, usize>, entries: Seq<EntryView>) -> bool {
    forall|p: Seq<char>| index.contains_key(p) <==> has_entry_path(entries, p)
}

/// No two nodes share a path.
pub open spec fn paths_distinct(entries: Seq<EntryView>) -> bool {
    forall|i: int, j: int|
        0 <= i < entries.len() && 0 <= j < entries.len() && i != j ==> (#[trigger] entries[i]).path
            != (#[trigger] entries[j]).path
}

/// The chain of a path ends in the path itself.
pub proof fn lemma_text_chain_last(path: Seq<char>)
    ensures
        text_chain(path).len() == path_depth(path) + 1,
        text_chain(path).last() == encode_utf8(path),
{
    let bytes = encode_utf8(path);
    assert(bytes.take(bytes.len() as int) =~= bytes);
}

/// The ancestors of a path as a chain of byte slices, or nothing where one
/// of them is not registered.
fn chain_of<'a>(path: &'a str, index: &StringHashMap<usize>) -> (chain: Option<Vec<&'a [u8]>>)
    ensures
        chain is Some <==> forall|k: int|
            0 <= k < path_depth(path@) ==> index@.contains_key(#[trigger] prefix_text(path@, k)),
        chain is Some ==> segments_view(chain->0@) == text_chain(path@),
{
    let bytes: &[u8] = path.as_bytes();
    let dots: Vec<usize> = find_dots(bytes);
    let ghost positions = dot_positions(bytes@);
    proof {
        lemma_dot_positions(bytes@);
    }
    let mut chain: Vec<&[u8]> = Vec::new();
    let mut k: usize = 0;
    while k < dots.len()
        invariant
            k <= dots@.len(),
            bytes@ == encode_utf8(path@),
            as_ints(dots@) == positions,
            positions == dot_positions(bytes@),
            forall|q: int|
                0 <= q < positions.len() ==> 0 <= #[trigger] positions[q] < bytes@.len()
                    && bytes@[positions[q]] == 0x2e,
            chain@.len() == k,
            forall|q: int| 0 <= q < k ==> (#[trigger] chain@[q])@ == bytes@.take(positions[q]),
            forall|q: int| 0 <= q < k ==> index@.contains_key(#[trigger] prefix_text(path@, q)),
        decreases dots@.len() - k,
    {
        let end: usize = dots[k];
        assert(end as int == positions[k as int]) by {
            assert(as_ints(dots@)[k as int] == dots@[k as int] as int);
        }
        let prefix: &str = prefix_before(path, end);
        proof {
            encode_utf8_decode_utf8(prefix@);
            assert(prefix@ == prefix_text(path@, k as int));
        }
        if !index.contains_key(prefix) {
            return None;
        }
        chain.push(prefix.as_bytes());
        k += 1;
    }
    chain.push(bytes);
    proof {
        assert(bytes@.take(bytes@.len() as int) =~= bytes@);
        assert(segments_view(chain@) =~= text_chain(path@));
    }
    Some(chain)
}

/// Lists the nodes in depth-first order.  A node one of whose ancestors is
/// not registered hangs under no root and is left out.
pub fn textual_order(entries: &Vec<NamespaceEntry>, index: &StringHashMap<usize>) -> (order: Vec<
    usize,
>)
    requires
        knows_paths(index@, entries_view(entries@)),
        paths_distinct(entries_view(entries@)),
    ensures
        is_textual_dfs(order@, entries_view(entries@)),
{
    let ghost ev = entries_view(entries@);
    let mut keys: Vec<Vec<&[u8]>> = Vec::new();
    let mut ids: Vec<usize> = Vec::new();
    let mut i: usize = 0;
    while i < entries.len()
        invariant
            i <= entries@.len(),
            ev == entries_view(entries@),
            knows_paths(index@, ev),
            keys@.len() == ids@.len(),
            forall|t: int|
                0 <= t < ids@.len() ==> (#[trigger] ids@[t]) < i && is_rooted(ev, ids@[t] as int),
            forall|t: int|
                0 <= t < ids@.len() ==> #[trigger] key_table(keys@)[t] == text_chain(
                    ev[ids@[t] as int].path,
                ),
            forall|j: int| 0 <= j < i && is_rooted(ev, j) ==> #[trigger] ids@.contains(j as usize),
            forall|s: int, t: int| 0 <= s < t < ids@.len() ==> ids@[s] != ids@[t],
        decreases entries@.len() - i,
    {
        let path: &str = entries[i].path.as_str();
        assert(path@ == ev[i as int].path);
        let ghost old_ids = ids@;
        let ghost old_keys = keys@;
        match chain_of(path, index) {
            Some(chain) => {
                keys.push(chain);
                ids.push(i);
                proof {
                    assert forall|t: int| 0 <= t < ids@.len() implies #[trigger] key_table(
                        keys@,
                    )[t] == text_chain(ev[ids@[t] as int].path) by {
                        if t < old_ids.len() {
                            assert(key_table(old_keys)[t] == text_chain(
                                ev[old_ids[t] as int].path,
                            ));
                            assert(keys@[t] == old_keys[t]);
                        }
                    }
                    assert forall|j: int| 0 <= j < i + 1 && is_rooted(ev, j) implies #[trigger] ids@.contains(
                        j as usize,
                    ) by {
                        if j < i {
                            assert(old_ids.contains(j as usize));
                            let w = choose|w: int| 0 <= w < old_ids.len() && old_ids[w] == j as usize;
                            assert(ids@[w] == j as usize);
                        } else {
                            assert(ids@[old_ids.len() as int] == i);
                        }
                    }
                }
            },
            None => {
                proof {
                    assert(!is_rooted(ev, i as int));
                }
            },
        }
        i += 1;
    }
    let sorted: Vec<usize> = sorted_indices(&keys);
    let mut order: Vec<usize> = Vec::new();
    let mut t: usize = 0;
    while t < sorted.len()
        invariant
            t <= sorted@.len(),
            is_arrangement(sorted@, ids@.len() as int),
            order@.len() == t,
            forall|q: int| 0 <= q < t ==> #[trigger] order@[q] == ids@[sorted@[q] as int],
        decreases sorted@.len() - t,
    {
        let at: usize = sorted[t];
        assert(at < ids@.len());
        order.push(ids[at]);
        t += 1;
    }
    proof {
        let table = key_table(keys@);
        assert forall|j: int| 0 <= j < ev.len() && is_rooted(ev, j) implies #[trigger] order@.contains(
            j as usize,
        ) by {
            assert(ids@.contains(j as usize));
            let w = choose|w: int| 0 <= w < ids@.len() && ids@[w] == j as usize;
            assert(sorted@.contains(w as usize));
            let q = choose|q: int| 0 <= q < sorted@.len() && sorted@[q] == w as usize;
            assert(order@[q] == j as usize);
        }
        assert forall|a: int, b: int| 0 <= a < b < order@.len() implies keys_less(
            #[trigger] text_chain(ev[order@[a] as int].path),
            #[trigger] text_chain(ev[order@[b] as int].path),
        ) by {
            let x = sorted@[a] as int;
            let y = sorted@[b] as int;
            assert(x != y);
            assert(table[x] == text_chain(ev[ids@[x] as int].path));
            assert(table[y] == text_chain(ev[ids@[y] as int].path));
            assert(!keys_less(table[y], table[x]));
            lemma_keys_total(table[x], table[y]);
            lemma_text_chain_last(ev[ids@[x] as int].path);
            lemma_text_chain_last(ev[ids@[y] as int].path);
            if table[x] == table[y] {
                lemma_bytes_determine_text(ev[ids@[x] as int].path, ev[ids@[y] as int].path);
                if x < y {
                    assert(ids@[x] != ids@[y]);
                } else {
                    assert(ids@[y] != ids@[x]);
                }
            }
        }
    }
    order
}

} // verus!
