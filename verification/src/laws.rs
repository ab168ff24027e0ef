//! Laws of the ancestry test on identifiers.

use vstd::prelude::*;
use crate::layout::{
    gid_well_formed, level_field, level_mask, prefix_mask, spec_depth_of, spec_is_descendant,
};
use crate::layout_lemmas::{
    lemma_agree_submask, lemma_agree_union, lemma_field_agreement, lemma_level_in_prefix,
    lemma_prefix_nested,
};

verus! {

/// Agreement under the prefix mask of `d` is agreement on the fields of the
/// levels `0..=d`.
pub proof fn lemma_prefix_agreement(x: u128, y: u128, d: int)
    requires
        0 <= d < 8,
    ensures
        (x & prefix_mask(d) == y & prefix_mask(d)) <==> (forall|i: int|
            0 <= i <= d ==> level_field(x, i) == level_field(y, i)),
    decreases d,
{
    if x & prefix_mask(d) == y & prefix_mask(d) {
        assert forall|i: int| 0 <= i <= d implies level_field(x, i) == level_field(y, i) by {
            lemma_level_in_prefix(i, d);
            lemma_agree_submask(x, y, prefix_mask(d), level_mask(i));
            lemma_field_agreement(x, y, i);
        }
    }
    if forall|i: int| 0 <= i <= d ==> level_field(x, i) == level_field(y, i) {
        lemma_field_agreement(x, y, d);
        assert(level_field(x, d) == level_field(y, d));
        lemma_level_in_prefix(d, d);
        if d > 0 {
            lemma_prefix_agreement(x, y, d - 1);
            assert forall|i: int| 0 <= i <= d - 1 implies level_field(x, i) == level_field(
                y,
                i,
            ) by {}
            lemma_agree_union(x, y, prefix_mask(d - 1), level_mask(d));
        }
    }
}

/// An identifier is a descendant of another exactly when it carries the
/// same hash on every level down to the depth of the other.
pub proof fn lemma_descendant_by_fields(candidate: u128, ancestor: u128)
    ensures
        spec_is_descendant(candidate, ancestor) <==> (forall|i: int|
            0 <= i <= spec_depth_of(ancestor) ==> level_field(candidate, i) == level_field(
                ancestor,
                i,
            )),
{
    lemma_depth_bound(ancestor);
    lemma_prefix_agreement(candidate, ancestor, spec_depth_of(ancestor) as int);
}

/// The depth field holds three bits.
pub proof fn lemma_depth_bound(gid: u128)
    ensures
        spec_depth_of(gid) < 8,
{
    assert((gid >> 125u128) < 8) by (bit_vector);
}

/// Every identifier is a descendant of itself.
pub proof fn lemma_descendant_reflexive(x: u128)
    ensures
        spec_is_descendant(x, x),
{
}

/// A well-formed descendant is at least as deep as its well-formed ancestor.
pub proof fn lemma_descendant_is_deeper(candidate: u128, ancestor: u128)
    requires
        gid_well_formed(candidate),
        gid_well_formed(ancestor),
        spec_is_descendant(candidate, ancestor),
    ensures
        spec_depth_of(ancestor) <= spec_depth_of(candidate),
{
    let d = spec_depth_of(ancestor) as int;
    lemma_depth_bound(ancestor);
    lemma_descendant_by_fields(candidate, ancestor);
    assert(level_field(candidate, d) == level_field(ancestor, d));
    assert(level_field(ancestor, d) != 0);
}

/// Ancestry passes along a chain whose upper end is no deeper than its
/// middle: if `a` descends from `b` and `b` from `c`, then `a` descends from
/// `c`.
pub proof fn lemma_descendant_transitive_by_depth(a: u128, b: u128, c: u128)
    requires
        spec_is_descendant(a, b),
        spec_is_descendant(b, c),
        spec_depth_of(c) <= spec_depth_of(b),
    ensures
        spec_is_descendant(a, c),
{
    lemma_depth_bound(b);
    let db = spec_depth_of(b) as int;
    let dc = spec_depth_of(c) as int;
    lemma_prefix_nested(dc, db);
    lemma_agree_submask(a, b, prefix_mask(db), prefix_mask(dc));
}

/// Ancestry is transitive on well-formed identifiers.
pub proof fn lemma_descendant_transitive(a: u128, b: u128, c: u128)
    requires
        gid_well_formed(b),
        gid_well_formed(c),
        spec_is_descendant(a, b),
        spec_is_descendant(b, c),
    ensures
        spec_is_descendant(a, c),
{
    lemma_descendant_is_deeper(b, c);
    lemma_descendant_transitive_by_depth(a, b, c);
}

/// Two well-formed identifiers that descend from each other are equal.
pub proof fn lemma_descendant_antisymmetric(a: u128, b: u128)
    requires
        gid_well_formed(a),
        gid_well_formed(b),
        spec_is_descendant(a, b),
        spec_is_descendant(b, a),
    ensures
        a == b,
{
    lemma_descendant_is_deeper(a, b);
    lemma_descendant_is_deeper(b, a);
    lemma_depth_bound(a);
    lemma_descendant_by_fields(a, b);
    assert forall|i: int| 0 <= i < 8 implies level_field(a, i) == level_field(b, i) by {
        if i > spec_depth_of(a) {
            assert(level_field(a, i) == 0);
            assert(level_field(b, i) == 0);
        }
    }
    lemma_equal_by_fields(a, b);
}

/// A well-formed identifier never descends from one of its own strict
/// descendants.
pub proof fn lemma_no_descent_from_strict_descendant(node: u128, below: u128)
    requires
        gid_well_formed(node),
        gid_well_formed(below),
        spec_is_descendant(below, node),
        below != node,
    ensures
        !spec_is_descendant(node, below),
{
    if spec_is_descendant(node, below) {
        lemma_descendant_antisymmetric(node, below);
    }
}

/// Identifiers with the same depth and the same eight fields are equal.
pub proof fn lemma_equal_by_fields(a: u128, b: u128)
    requires
        spec_depth_of(a) == spec_depth_of(b),
        forall|i: int| 0 <= i < 8 ==> level_field(a, i) == level_field(b, i),
    ensures
        a == b,
{
    lemma_prefix_agreement(a, b, 7);
    assert(a == b) by (bit_vector)
        requires
            (a >> 125u128) as u8 == (b >> 125u128) as u8,
            a & 0x1fff_ffff_ffff_ffff_ffff_ffff_ffff_ffffu128 == b
                & 0x1fff_ffff_ffff_ffff_ffff_ffff_ffff_ffffu128,
    ;
}

} // verus!
