//! Lexicographic order on byte strings and on sequences of byte strings,
//! and the sorting of indices by such keys.

use vstd::prelude::*;
use vstd::seq_lib::{
    lemma_multiset_commutative, to_multiset_build, to_multiset_contains, to_multiset_len,
};
use crate::hash::segments_view;

verus! {

/// How one value stands to another in an order.
#[derive(Clone, Copy, Debug, PartialEq, Eq, Structural)]
pub enum Rank {
    /// The first comes before the second.
    Before,
    /// The two are equal.
    Same,
    /// The first comes after the second.
    After,
}

/// `a` comes before `b` in byte-wise lexicographic order: after a common
/// start, `a` ends while `b` goes on, or `a` holds the smaller byte.
pub open spec fn bytes_less(a: Seq<u8>, b: Seq<u8>) -> bool {
    exists|k: int| #[trigger] bytes_less_at(a, b, k)
}

/// `a` comes before `b`, and `k` is the place where they part.
pub open spec fn bytes_less_at(a: Seq<u8>, b: Seq<u8>, k: int) -> bool {
    &&& 0 <= k <= a.len()
    &&& k < b.len()
    &&& a.take(k) == b.take(k)
    &&& (k == a.len() || a[k] < b[k])
}

/// `a` comes before `b` in the lexicographic order of key sequences, whose
/// elements are ordered byte-wise.
pub open spec fn keys_less(a: Seq<Seq<u8>>, b: Seq<Seq<u8>>) -> bool {
    exists|k: int| #[trigger] keys_less_at(a, b, k)
}

/// `a` comes before `b`, and `k` is the place where they part.
pub open spec fn keys_less_at(a: Seq<Seq<u8>>, b: Seq<Seq<u8>>, k: int) -> bool {
    &&& 0 <= k <= a.len()
    &&& k < b.len()
    &&& a.take(k) == b.take(k)
    &&& (k == a.len() || bytes_less(a[k], b[k]))
}

/// Two sequences with equal starts of length `k` and `j <= k` have equal
/// starts of length `j`.
proof fn lemma_take_shorter<T>(a: Seq<T>, b: Seq<T>, k: int, j: int)
    requires
        0 <= j <= k <= a.len(),
        k <= b.len(),
        a.take(k) == b.take(k),
    ensures
        a.take(j) == b.take(j),
        j < k ==> a[j] == b[j],
{
    assert(a.take(j) =~= a.take(k).take(j));
    assert(b.take(j) =~= b.take(k).take(j));
    if j < k {
        assert(a[j] == a.take(k)[j]);
        assert(b[j] == b.take(k)[j]);
    }
}

/// No byte string comes before itself.
pub proof fn lemma_bytes_irreflexive(a: Seq<u8>)
    ensures
        !bytes_less(a, a),
{
}

/// The byte-wise order is transitive.
pub proof fn lemma_bytes_transitive(a: Seq<u8>, b: Seq<u8>, c: Seq<u8>)
    requires
        bytes_less(a, b),
        bytes_less(b, c),
    ensures
        bytes_less(a, c),
{
    let k1 = choose|k: int| #[trigger] bytes_less_at(a, b, k);
    let k2 = choose|k: int| #[trigger] bytes_less_at(b, c, k);
    let k = if k1 <= k2 {
        k1
    } else {
        k2
    };
    lemma_take_shorter(a, b, k1, k);
    lemma_take_shorter(b, c, k2, k);
    assert(bytes_less_at(a, c, k));
}

/// Of two byte strings, one comes before the other or they are equal.
pub proof fn lemma_bytes_total(a: Seq<u8>, b: Seq<u8>)
    ensures
        bytes_less(a, b) || a == b || bytes_less(b, a),
        !(bytes_less(a, b) && bytes_less(b, a)),
        !(bytes_less(a, b) && a == b),
{
    if bytes_less(a, b) && bytes_less(b, a) {
        lemma_bytes_transitive(a, b, a);
    }
    assert(a.take(0) =~= b.take(0));
    lemma_bytes_split(a, b, 0);
}

/// Two byte strings that agree on their first `i` bytes are ordered or
/// equal.
proof fn lemma_bytes_split(a: Seq<u8>, b: Seq<u8>, i: int)
    requires
        0 <= i <= a.len(),
        i <= b.len(),
        a.take(i) == b.take(i),
    ensures
        bytes_less(a, b) || a == b || bytes_less(b, a),
    decreases a.len() - i,
{
    if i == a.len() {
        if i == b.len() {
            assert(a.take(i) =~= a);
            assert(b.take(i) =~= b);
        } else {
            assert(bytes_less_at(a, b, i));
        }
    } else if i == b.len() {
        assert(bytes_less_at(b, a, i));
    } else if a[i] < b[i] {
        assert(bytes_less_at(a, b, i));
    } else if b[i] < a[i] {
        assert(bytes_less_at(b, a, i));
    } else {
        assert(a.take(i + 1) =~= a.take(i).push(a[i]));
        assert(b.take(i + 1) =~= b.take(i).push(b[i]));
        lemma_bytes_split(a, b, i + 1);
    }
}

/// No key sequence comes before itself.
pub proof fn lemma_keys_irreflexive(a: Seq<Seq<u8>>)
    ensures
        !keys_less(a, a),
{
    if keys_less(a, a) {
        let k = choose|k: int| #[trigger] keys_less_at(a, a, k);
        lemma_bytes_irreflexive(a[k]);
    }
}

/// The order of key sequences is transitive.
pub proof fn lemma_keys_transitive(a: Seq<Seq<u8>>, b: Seq<Seq<u8>>, c: Seq<Seq<u8>>)
    requires
        keys_less(a, b),
        keys_less(b, c),
    ensures
        keys_less(a, c),
{
    let k1 = choose|k: int| #[trigger] keys_less_at(a, b, k);
    let k2 = choose|k: int| #[trigger] keys_less_at(b, c, k);
    let k = if k1 <= k2 {
        k1
    } else {
        k2
    };
    lemma_take_shorter(a, b, k1, k);
    lemma_take_shorter(b, c, k2, k);
    if k1 == k2 && k < a.len() {
        lemma_bytes_transitive(a[k], b[k], c[k]);
    }
    assert(keys_less_at(a, c, k));
}

/// Of two key sequences, one comes before the other or they are equal, and
/// only one of the three holds.
pub proof fn lemma_keys_total(a: Seq<Seq<u8>>, b: Seq<Seq<u8>>)
    ensures
        keys_less(a, b) || a == b || keys_less(b, a),
        !(keys_less(a, b) && keys_less(b, a)),
        !(keys_less(a, b) && a == b),
{
    lemma_keys_irreflexive(a);
    if keys_less(a, b) && keys_less(b, a) {
        lemma_keys_transitive(a, b, a);
    }
    assert(a.take(0) =~= b.take(0));
    lemma_keys_split(a, b, 0);
}

/// Two key sequences that agree on their first `i` keys are ordered or
/// equal.
proof fn lemma_keys_split(a: Seq<Seq<u8>>, b: Seq<Seq<u8>>, i: int)
    requires
        0 <= i <= a.len(),
        i <= b.len(),
        a.take(i) == b.take(i),
    ensures
        keys_less(a, b) || a == b || keys_less(b, a),
    decreases a.len() - i,
{
    if i == a.len() {
        if i == b.len() {
            assert(a.take(i) =~= a);
            assert(b.take(i) =~= b);
        } else {
            assert(keys_less_at(a, b, i));
        }
    } else if i == b.len() {
        assert(keys_less_at(b, a, i));
    } else {
        lemma_bytes_total(a[i], b[i]);
        if bytes_less(a[i], b[i]) {
            assert(keys_less_at(a, b, i));
        } else if bytes_less(b[i], a[i]) {
            assert(keys_less_at(b, a, i));
        } else {
            assert(a.take(i + 1) =~= a.take(i).push(a[i]));
            assert(b.take(i + 1) =~= b.take(i).push(b[i]));
            lemma_keys_split(a, b, i + 1);
        }
    }
}

/// Ranks two byte strings in byte-wise lexicographic order.
pub fn rank_bytes(a: &[u8], b: &[u8]) -> (r: Rank)
    ensures
        r == Rank::Before <==> bytes_less(a@, b@),
        r == Rank::Same <==> a@ == b@,
        r == Rank::After <==> bytes_less(b@, a@),
{
    proof {
        lemma_bytes_total(a@, b@);
    }
    let mut i: usize = 0;
    while i < a.len() && i < b.len()
        invariant
            i <= a@.len(),
            i <= b@.len(),
            a@.take(i as int) == b@.take(i as int),
        decreases a@.len() - i,
    {
        proof {
            lemma_bytes_total(a@, b@);
        }
        if a[i] < b[i] {
            assert(bytes_less_at(a@, b@, i as int));
            return Rank::Before;
        }
        if a[i] > b[i] {
            assert(bytes_less_at(b@, a@, i as int));
            return Rank::After;
        }
        proof {
            assert(a@.take(i + 1) =~= a@.take(i as int).push(a@[i as int]));
            assert(b@.take(i + 1) =~= b@.take(i as int).push(b@[i as int]));
        }
        i += 1;
    }
    if i < b.len() {
        assert(bytes_less_at(a@, b@, i as int));
        Rank::Before
    } else if i < a.len() {
        assert(bytes_less_at(b@, a@, i as int));
        Rank::After
    } else {
        assert(a@.take(i as int) =~= a@);
        assert(b@.take(i as int) =~= b@);
        Rank::Same
    }
}

/// Ranks two key sequences lexicographically.
pub fn rank_keys(a: &[&[u8]], b: &[&[u8]]) -> (r: Rank)
    ensures
        r == Rank::Before <==> keys_less(segments_view(a@), segments_view(b@)),
        r == Rank::Same <==> segments_view(a@) == segments_view(b@),
        r == Rank::After <==> keys_less(segments_view(b@), segments_view(a@)),
{
    let ghost ka = segments_view(a@);
    let ghost kb = segments_view(b@);
    proof {
        lemma_keys_total(ka, kb);
    }
    let mut i: usize = 0;
    while i < a.len() && i < b.len()
        invariant
            i <= a@.len(),
            i <= b@.len(),
            ka == segments_view(a@),
            kb == segments_view(b@),
            ka.take(i as int) == kb.take(i as int),
        decreases a@.len() - i,
    {
        proof {
            lemma_keys_total(ka, kb);
        }
        let r: Rank = rank_bytes(a[i], b[i]);
        match r {
            Rank::Before => {
                assert(keys_less_at(ka, kb, i as int));
                return Rank::Before;
            },
            Rank::After => {
                assert(keys_less_at(kb, ka, i as int));
                return Rank::After;
            },
            Rank::Same => {},
        }
        proof {
            assert(ka.take(i + 1) =~= ka.take(i as int).push(ka[i as int]));
            assert(kb.take(i + 1) =~= kb.take(i as int).push(kb[i as int]));
        }
        i += 1;
    }
    if i < b.len() {
        assert(keys_less_at(ka, kb, i as int));
        Rank::Before
    } else if i < a.len() {
        assert(keys_less_at(kb, ka, i as int));
        Rank::After
    } else {
        assert(ka.take(i as int) =~= ka);
        assert(kb.take(i as int) =~= kb);
        Rank::Same
    }
}

/// The key sequences that a table of keys holds.
pub open spec fn key_table(keys: Seq<Vec<&[u8]>>) -> Seq<Seq<Seq<u8>>> {
    keys.map_values(|k: Vec<&[u8]>| segments_view(k@))
}

/// `order` lists each of the indices below `n` once.
pub open spec fn is_arrangement(order: Seq<usize>, n: int) -> bool {
    &&& order.len() == n <= usize::MAX
    &&& order.no_duplicates()
    &&& forall|i: int| 0 <= i < order.len() ==> #[trigger] order[i] < n
    &&& forall|k: int| 0 <= k < n ==> #[trigger] order.contains(k as usize)
}

/// No index in `order` stands after one whose key comes after its own.
pub open spec fn sorted_by_keys(order: Seq<usize>, table: Seq<Seq<Seq<u8>>>) -> bool {
    forall|i: int, j: int|
        0 <= i < j < order.len() ==> !keys_less(
            #[trigger] table[order[j] as int],
            #[trigger] table[order[i] as int],
        )
}

/// What does not come after a key that does not come after a third does not
/// come after the third.
pub proof fn lemma_keys_not_after(a: Seq<Seq<u8>>, b: Seq<Seq<u8>>, c: Seq<Seq<u8>>)
    requires
        !keys_less(b, a),
        !keys_less(c, b),
    ensures
        !keys_less(c, a),
{
    lemma_keys_total(a, b);
    if keys_less(c, a) {
        if a != b {
            lemma_keys_transitive(c, a, b);
        }
    }
}

/// Every index in `items` is an index of the table.
pub open spec fn within(items: Seq<usize>, n: int) -> bool {
    forall|k: int| 0 <= k < items.len() ==> (#[trigger] items[k]) < n
}

/// Merges two sorted lists of indices into one.
fn merge(keys: &Vec<Vec<&[u8]>>, left: &Vec<usize>, right: &Vec<usize>) -> (out: Vec<usize>)
    requires
        within(left@, keys@.len() as int),
        within(right@, keys@.len() as int),
        sorted_by_keys(left@, key_table(keys@)),
        sorted_by_keys(right@, key_table(keys@)),
    ensures
        out@.to_multiset() == left@.to_multiset().add(right@.to_multiset()),
        within(out@, keys@.len() as int),
        sorted_by_keys(out@, key_table(keys@)),
{
    let ghost table = key_table(keys@);
    let ghost n = keys@.len() as int;
    let mut out: Vec<usize> = Vec::new();
    let mut i: usize = 0;
    let mut j: usize = 0;
    proof {
        broadcast use vstd::multiset::group_multiset_axioms;

        assert(left@.take(0) =~= out@);
        assert(right@.take(0) =~= out@);
        assert(out@.to_multiset().len() == 0) by {
            to_multiset_len(out@);
        }
        assert(out@.to_multiset() =~= vstd::multiset::Multiset::<usize>::empty());
        assert(out@.to_multiset() =~= left@.take(0).to_multiset().add(
            right@.take(0).to_multiset(),
        ));
    }
    while i < left.len() || j < right.len()
        invariant
            i <= left@.len(),
            j <= right@.len(),
            table == key_table(keys@),
            n == keys@.len(),
            within(left@, n),
            within(right@, n),
            sorted_by_keys(left@, table),
            sorted_by_keys(right@, table),
            out@.to_multiset() == left@.take(i as int).to_multiset().add(
                right@.take(j as int).to_multiset(),
            ),
            within(out@, n),
            sorted_by_keys(out@, table),
            forall|k: int, r: int|
                0 <= k < out@.len() && i <= r < left@.len() ==> !keys_less(
                    #[trigger] table[left@[r] as int],
                    #[trigger] table[out@[k] as int],
                ),
            forall|k: int, r: int|
                0 <= k < out@.len() && j <= r < right@.len() ==> !keys_less(
                    #[trigger] table[right@[r] as int],
                    #[trigger] table[out@[k] as int],
                ),
        decreases left@.len() - i + right@.len() - j,
    {
        let from_left: bool = if i == left.len() {
            false
        } else if j == right.len() {
            true
        } else {
            !rank_is_after(keys, left[i], right[j])
        };
        let ghost before = out@;
        if from_left {
            let x: usize = left[i];
            out.push(x);
            proof {
                assert(left@.take(i + 1) =~= left@.take(i as int).push(x));
                to_multiset_build(left@.take(i as int), x);
                to_multiset_build(before, x);
                assert(out@.to_multiset() =~= left@.take(i + 1).to_multiset().add(
                    right@.take(j as int).to_multiset(),
                ));
                lemma_pushed(before, out@, x, table, n);
                assert forall|k: int, r: int|
                    0 <= k < out@.len() && i + 1 <= r < left@.len() implies !keys_less(
                    #[trigger] table[left@[r] as int],
                    #[trigger] table[out@[k] as int],
                ) by {
                    if k < before.len() {
                        assert(out@[k] == before[k]);
                    } else {
                        assert(out@[k] == left@[i as int]);
                    }
                }
                assert forall|k: int, r: int|
                    0 <= k < out@.len() && j <= r < right@.len() implies !keys_less(
                    #[trigger] table[right@[r] as int],
                    #[trigger] table[out@[k] as int],
                ) by {
                    if k < before.len() {
                        assert(out@[k] == before[k]);
                    } else {
                        assert(out@[k] == x);
                        assert(!keys_less(table[right@[j as int] as int], table[x as int]));
                        if r > j {
                            assert(!keys_less(
                                table[right@[r] as int],
                                table[right@[j as int] as int],
                            ));
                            lemma_keys_not_after(
                                table[x as int],
                                table[right@[j as int] as int],
                                table[right@[r] as int],
                            );
                        }
                    }
                }
            }
            i += 1;
        } else {
            let x: usize = right[j];
            out.push(x);
            proof {
                assert(right@.take(j + 1) =~= right@.take(j as int).push(x));
                to_multiset_build(right@.take(j as int), x);
                to_multiset_build(before, x);
                assert(out@.to_multiset() =~= left@.take(i as int).to_multiset().add(
                    right@.take(j + 1).to_multiset(),
                ));
                lemma_pushed(before, out@, x, table, n);
                assert forall|k: int, r: int|
                    0 <= k < out@.len() && j + 1 <= r < right@.len() implies !keys_less(
                    #[trigger] table[right@[r] as int],
                    #[trigger] table[out@[k] as int],
                ) by {
                    if k < before.len() {
                        assert(out@[k] == before[k]);
                    } else {
                        assert(out@[k] == right@[j as int]);
                    }
                }
                assert forall|k: int, r: int|
                    0 <= k < out@.len() && i <= r < left@.len() implies !keys_less(
                    #[trigger] table[left@[r] as int],
                    #[trigger] table[out@[k] as int],
                ) by {
                    if k < before.len() {
                        assert(out@[k] == before[k]);
                    } else {
                        assert(out@[k] == x);
                        assert(keys_less(table[x as int], table[left@[i as int] as int]));
                        lemma_keys_total(table[x as int], table[left@[i as int] as int]);
                        if r > i {
                            assert(!keys_less(
                                table[left@[r] as int],
                                table[left@[i as int] as int],
                            ));
                            lemma_keys_not_after(
                                table[x as int],
                                table[left@[i as int] as int],
                                table[left@[r] as int],
                            );
                        }
                    }
                }
            }
            j += 1;
        }
    }
    proof {
        assert(left@.take(i as int) =~= left@);
        assert(right@.take(j as int) =~= right@);
    }
    out
}

/// A sorted list stays sorted with an index at its end that comes after
/// none of the list.
proof fn lemma_pushed(
    before: Seq<usize>,
    after: Seq<usize>,
    x: usize,
    table: Seq<Seq<Seq<u8>>>,
    n: int,
)
    requires
        after == before.push(x),
        x < n,
        within(before, n),
        sorted_by_keys(before, table),
        forall|k: int|
            0 <= k < before.len() ==> !keys_less(
                table[x as int],
                #[trigger] table[before[k] as int],
            ),
    ensures
        within(after, n),
        sorted_by_keys(after, table),
{
    assert forall|k: int| 0 <= k < after.len() implies (#[trigger] after[k]) < n by {
        if k < before.len() {
            assert(after[k] == before[k]);
        }
    }
    assert forall|a: int, b: int| 0 <= a < b < after.len() implies !keys_less(
        #[trigger] table[after[b] as int],
        #[trigger] table[after[a] as int],
    ) by {
        assert(after[a] == before[a]);
        if b < before.len() {
            assert(after[b] == before[b]);
        }
    }
}

/// Sorts the indices that `items` holds from place `lo` up to place `hi`.
fn sort_range(keys: &Vec<Vec<&[u8]>>, items: &Vec<usize>, lo: usize, hi: usize) -> (out: Vec<
    usize,
>)
    requires
        lo <= hi <= items@.len(),
        within(items@, keys@.len() as int),
    ensures
        out@.to_multiset() == items@.subrange(lo as int, hi as int).to_multiset(),
        within(out@, keys@.len() as int),
        sorted_by_keys(out@, key_table(keys@)),
    decreases hi - lo,
{
    let ghost part = items@.subrange(lo as int, hi as int);
    if hi - lo == 0 {
        let out: Vec<usize> = Vec::new();
        proof {
            assert(part =~= out@);
        }
        out
    } else if hi - lo == 1 {
        let mut out: Vec<usize> = Vec::new();
        out.push(items[lo]);
        proof {
            assert(part =~= out@);
        }
        out
    } else {
        let mid: usize = lo + (hi - lo) / 2;
        let left: Vec<usize> = sort_range(keys, items, lo, mid);
        let right: Vec<usize> = sort_range(keys, items, mid, hi);
        let out: Vec<usize> = merge(keys, &left, &right);
        proof {
            let a = items@.subrange(lo as int, mid as int);
            let b = items@.subrange(mid as int, hi as int);
            assert(part =~= a + b);
            lemma_multiset_commutative(a, b);
        }
        out
    }
}

/// Sorts the indices of a table of keys by their keys, smallest first.
pub fn sorted_indices(keys: &Vec<Vec<&[u8]>>) -> (order: Vec<usize>)
    ensures
        is_arrangement(order@, keys@.len() as int),
        sorted_by_keys(order@, key_table(keys@)),
{
    let n: usize = keys.len();
    let mut items: Vec<usize> = Vec::new();
    let mut k: usize = 0;
    while k < n
        invariant
            k <= n,
            n == keys@.len(),
            items@.len() == k,
            forall|q: int| 0 <= q < k ==> #[trigger] items@[q] == q,
        decreases n - k,
    {
        items.push(k);
        k += 1;
    }
    let order: Vec<usize> = sort_range(keys, &items, 0, n);
    proof {
        assert(items@.subrange(0, n as int) =~= items@);
        items@.to_multiset_ensures();
        order@.to_multiset_ensures();
        assert(items@.no_duplicates());
        items@.lemma_multiset_has_no_duplicates();
        order@.lemma_multiset_has_no_duplicates_conv();
        assert forall|q: int| 0 <= q < n implies #[trigger] order@.contains(q as usize) by {
            assert(items@[q] == q as usize);
            assert(items@.contains(q as usize));
            to_multiset_contains(items@, q as usize);
            to_multiset_contains(order@, q as usize);
        }
        assert forall|q: int| 0 <= q < order@.len() implies (#[trigger] order@[q]) < n by {}
        to_multiset_len(items@);
        to_multiset_len(order@);
    }
    order
}

/// Whether the key of index `a` comes after the key of index `b`.
fn rank_is_after(keys: &Vec<Vec<&[u8]>>, a: usize, b: usize) -> (after: bool)
    requires
        a < keys@.len(),
        b < keys@.len(),
    ensures
        after == keys_less(key_table(keys@)[b as int], key_table(keys@)[a as int]),
{
    let r: Rank = rank_keys(keys[a].as_slice(), keys[b].as_slice());
    r == Rank::After
}

} // verus!
