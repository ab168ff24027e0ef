//! Why the lexicographic order of chains is a depth-first order: a parent
//! comes before its children, the children of one parent come in the order
//! of their own keys, and a subtree is not interrupted.

use vstd::prelude::*;
use crate::order::{
    bytes_less, keys_less, keys_less_at, lemma_bytes_irreflexive, lemma_keys_total,
};

verus! {

/// `a` is the start of `b`.
pub open spec fn is_start_of(a: Seq<Seq<u8>>, b: Seq<Seq<u8>>) -> bool {
    a.len() <= b.len() && b.take(a.len() as int) == a
}

/// A chain comes before every chain that goes on from it: a parent is
/// listed before its descendants.
pub proof fn lemma_parent_first(parent: Seq<Seq<u8>>, below: Seq<Seq<u8>>)
    requires
        is_start_of(parent, below),
        parent.len() < below.len(),
    ensures
        keys_less(parent, below),
{
    assert(parent.take(parent.len() as int) =~= parent);
    assert(keys_less_at(parent, below, parent.len() as int));
}

/// Two chains that part at their last key stand in the order of those keys:
/// the children of one parent are listed by their own keys.
pub proof fn lemma_siblings_by_key(parent: Seq<Seq<u8>>, x: Seq<u8>, y: Seq<u8>)
    ensures
        keys_less(parent.push(x), parent.push(y)) <==> bytes_less(x, y),
{
    let a = parent.push(x);
    let b = parent.push(y);
    let n = parent.len() as int;
    assert(a.take(n) =~= parent);
    assert(b.take(n) =~= parent);
    if bytes_less(x, y) {
        assert(keys_less_at(a, b, n));
    }
    if keys_less(a, b) {
        let k = choose|k: int| #[trigger] keys_less_at(a, b, k);
        if k < n {
            assert(a.take(k + 1) =~= b.take(k + 1));
            assert(a[k] == b[k]);
            lemma_bytes_irreflexive(a[k]);
        }
    }
}

/// What stands between a chain and one of its descendants is a descendant
/// too: the subtree of a node is listed in one piece.
pub proof fn lemma_subtree_unbroken(top: Seq<Seq<u8>>, between: Seq<Seq<u8>>, below: Seq<Seq<u8>>)
    requires
        is_start_of(top, below),
        keys_less(top, between),
        keys_less(between, below),
    ensures
        is_start_of(top, between),
{
    let n = top.len() as int;
    let k1 = choose|k: int| #[trigger] keys_less_at(top, between, k);
    let k2 = choose|k: int| #[trigger] keys_less_at(between, below, k);
    if k1 < n {
        // `top` and `between` part at k1 with top[k1] before between[k1];
        // `below` agrees with `top` there, so `below` comes before `between`.
        assert(top.take(k1) == between.take(k1));
        assert(below.take(n)[k1] == top[k1]);
        assert(below.take(k1) =~= below.take(n).take(k1));
        assert(keys_less_at(below, between, k1));
        lemma_keys_total(between, below);
    } else {
        assert(top.take(n) =~= top);
    }
}

} // verus!
