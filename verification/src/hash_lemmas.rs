//! Facts about the identifiers that hashing produces.

use vstd::prelude::*;
use crate::hash::{spec_hierarchical_gid, spec_payload, spec_segment_hash};
use crate::laws::{lemma_equal_by_fields, lemma_prefix_agreement};
use crate::layout::{
    gid_well_formed, level_field, level_offset, level_value_mask, level_width, prefix_mask,
    spec_depth_of, spec_is_descendant, spec_parent_of,
};
use crate::layout_lemmas::lemma_value_mask_width;

verus! {

/// The bits of the fields of the first `n` levels.
pub open spec fn filled_mask(n: int) -> u128 {
    if n <= 0 {
        0
    } else {
        prefix_mask(n - 1)
    }
}

/// A payload that stays inside the first `n` levels has nothing in the
/// deeper fields nor in the depth field.
pub proof fn lemma_unfilled_fields(p: u128, n: int)
    requires
        0 <= n <= 8,
        p & !filled_mask(n) == 0,
    ensures
        forall|j: int| n <= j < 8 ==> level_field(p, j) == 0,
        p & 0xe000_0000_0000_0000_0000_0000_0000_0000u128 == 0,
{
    assert({
        &&& (p & !0x0000_0000_0000_0000_0000_0000_0000_0000u128 == 0) ==> (p >> 104u128) & 0x1fffffu128 == 0
        &&& (p & !0x0000_0000_0000_0000_0000_0000_0000_0000u128 == 0) ==> (p >> 86u128) & 0x3ffffu128 == 0
        &&& (p & !0x0000_0000_0000_0000_0000_0000_0000_0000u128 == 0) ==> (p >> 70u128) & 0xffffu128 == 0
        &&& (p & !0x0000_0000_0000_0000_0000_0000_0000_0000u128 == 0) ==> (p >> 54u128) & 0xffffu128 == 0
        &&& (p & !0x0000_0000_0000_0000_0000_0000_0000_0000u128 == 0) ==> (p >> 40u128) & 0x3fffu128 == 0
        &&& (p & !0x0000_0000_0000_0000_0000_0000_0000_0000u128 == 0) ==> (p >> 26u128) & 0x3fffu128 == 0
        &&& (p & !0x0000_0000_0000_0000_0000_0000_0000_0000u128 == 0) ==> (p >> 13u128) & 0x1fffu128 == 0
        &&& (p & !0x0000_0000_0000_0000_0000_0000_0000_0000u128 == 0) ==> (p >> 0u128) & 0x1fffu128 == 0
        &&& (p & !0x0000_0000_0000_0000_0000_0000_0000_0000u128 == 0) ==> p & 0xe000_0000_0000_0000_0000_0000_0000_0000u128 == 0
        &&& (p & !0x1fff_ff00_0000_0000_0000_0000_0000_0000u128 == 0) ==> (p >> 86u128) & 0x3ffffu128 == 0
        &&& (p & !0x1fff_ff00_0000_0000_0000_0000_0000_0000u128 == 0) ==> (p >> 70u128) & 0xffffu128 == 0
        &&& (p & !0x1fff_ff00_0000_0000_0000_0000_0000_0000u128 == 0) ==> (p >> 54u128) & 0xffffu128 == 0
        &&& (p & !0x1fff_ff00_0000_0000_0000_0000_0000_0000u128 == 0) ==> (p >> 40u128) & 0x3fffu128 == 0
        &&& (p & !0x1fff_ff00_0000_0000_0000_0000_0000_0000u128 == 0) ==> (p >> 26u128) & 0x3fffu128 == 0
        &&& (p & !0x1fff_ff00_0000_0000_0000_0000_0000_0000u128 == 0) ==> (p >> 13u128) & 0x1fffu128 == 0
        &&& (p & !0x1fff_ff00_0000_0000_0000_0000_0000_0000u128 == 0) ==> (p >> 0u128) & 0x1fffu128 == 0
        &&& (p & !0x1fff_ff00_0000_0000_0000_0000_0000_0000u128 == 0) ==> p & 0xe000_0000_0000_0000_0000_0000_0000_0000u128 == 0
        &&& (p & !0x1fff_ffff_ffc0_0000_0000_0000_0000_0000u128 == 0) ==> (p >> 70u128) & 0xffffu128 == 0
        &&& (p & !0x1fff_ffff_ffc0_0000_0000_0000_0000_0000u128 == 0) ==> (p >> 54u128) & 0xffffu128 == 0
        &&& (p & !0x1fff_ffff_ffc0_0000_0000_0000_0000_0000u128 == 0) ==> (p >> 40u128) & 0x3fffu128 == 0
        &&& (p & !0x1fff_ffff_ffc0_0000_0000_0000_0000_0000u128 == 0) ==> (p >> 26u128) & 0x3fffu128 == 0
        &&& (p & !0x1fff_ffff_ffc0_0000_0000_0000_0000_0000u128 == 0) ==> (p >> 13u128) & 0x1fffu128 == 0
        &&& (p & !0x1fff_ffff_ffc0_0000_0000_0000_0000_0000u128 == 0) ==> (p >> 0u128) & 0x1fffu128 == 0
        &&& (p & !0x1fff_ffff_ffc0_0000_0000_0000_0000_0000u128 == 0) ==> p & 0xe000_0000_0000_0000_0000_0000_0000_0000u128 == 0
        &&& (p & !0x1fff_ffff_ffff_ffc0_0000_0000_0000_0000u128 == 0) ==> (p >> 54u128) & 0xffffu128 == 0
        &&& (p & !0x1fff_ffff_ffff_ffc0_0000_0000_0000_0000u128 == 0) ==> (p >> 40u128) & 0x3fffu128 == 0
        &&& (p & !0x1fff_ffff_ffff_ffc0_0000_0000_0000_0000u128 == 0) ==> (p >> 26u128) & 0x3fffu128 == 0
        &&& (p & !0x1fff_ffff_ffff_ffc0_0000_0000_0000_0000u128 == 0) ==> (p >> 13u128) & 0x1fffu128 == 0
        &&& (p & !0x1fff_ffff_ffff_ffc0_0000_0000_0000_0000u128 == 0) ==> (p >> 0u128) & 0x1fffu128 == 0
        &&& (p & !0x1fff_ffff_ffff_ffc0_0000_0000_0000_0000u128 == 0) ==> p & 0xe000_0000_0000_0000_0000_0000_0000_0000u128 == 0
        &&& (p & !0x1fff_ffff_ffff_ffff_ffc0_0000_0000_0000u128 == 0) ==> (p >> 40u128) & 0x3fffu128 == 0
        &&& (p & !0x1fff_ffff_ffff_ffff_ffc0_0000_0000_0000u128 == 0) ==> (p >> 26u128) & 0x3fffu128 == 0
        &&& (p & !0x1fff_ffff_ffff_ffff_ffc0_0000_0000_0000u128 == 0) ==> (p >> 13u128) & 0x1fffu128 == 0
        &&& (p & !0x1fff_ffff_ffff_ffff_ffc0_0000_0000_0000u128 == 0) ==> (p >> 0u128) & 0x1fffu128 == 0
        &&& (p & !0x1fff_ffff_ffff_ffff_ffc0_0000_0000_0000u128 == 0) ==> p & 0xe000_0000_0000_0000_0000_0000_0000_0000u128 == 0
        &&& (p & !0x1fff_ffff_ffff_ffff_ffff_ff00_0000_0000u128 == 0) ==> (p >> 26u128) & 0x3fffu128 == 0
        &&& (p & !0x1fff_ffff_ffff_ffff_ffff_ff00_0000_0000u128 == 0) ==> (p >> 13u128) & 0x1fffu128 == 0
        &&& (p & !0x1fff_ffff_ffff_ffff_ffff_ff00_0000_0000u128 == 0) ==> (p >> 0u128) & 0x1fffu128 == 0
        &&& (p & !0x1fff_ffff_ffff_ffff_ffff_ff00_0000_0000u128 == 0) ==> p & 0xe000_0000_0000_0000_0000_0000_0000_0000u128 == 0
        &&& (p & !0x1fff_ffff_ffff_ffff_ffff_ffff_fc00_0000u128 == 0) ==> (p >> 13u128) & 0x1fffu128 == 0
        &&& (p & !0x1fff_ffff_ffff_ffff_ffff_ffff_fc00_0000u128 == 0) ==> (p >> 0u128) & 0x1fffu128 == 0
        &&& (p & !0x1fff_ffff_ffff_ffff_ffff_ffff_fc00_0000u128 == 0) ==> p & 0xe000_0000_0000_0000_0000_0000_0000_0000u128 == 0
        &&& (p & !0x1fff_ffff_ffff_ffff_ffff_ffff_ffff_e000u128 == 0) ==> (p >> 0u128) & 0x1fffu128 == 0
        &&& (p & !0x1fff_ffff_ffff_ffff_ffff_ffff_ffff_e000u128 == 0) ==> p & 0xe000_0000_0000_0000_0000_0000_0000_0000u128 == 0
        &&& (p & !0x1fff_ffff_ffff_ffff_ffff_ffff_ffff_ffffu128 == 0) ==> p & 0xe000_0000_0000_0000_0000_0000_0000_0000u128 == 0
    }) by (bit_vector);
}

/// Placing a hash in the field of level `i` of a payload that stays inside
/// the levels above: the field holds the hash and the levels above keep
/// theirs.
pub proof fn lemma_place_field(p: u128, h: u128, i: int)
    requires
        0 <= i < 8,
        h & level_value_mask(i) == h,
        p & !filled_mask(i) == 0,
    ensures
        (p | (h << (level_offset(i) as u128))) & !filled_mask(i + 1) == 0,
        level_field(p | (h << (level_offset(i) as u128)), i) == h,
        forall|j: int|
            0 <= j < i ==> level_field(p | (h << (level_offset(i) as u128)), j) == level_field(
                p,
                j,
            ),
{
    let q = p | (h << (level_offset(i) as u128));
    assert({
        &&& (h & 0x1fffffu128 == h && p & !0x0000_0000_0000_0000_0000_0000_0000_0000u128 == 0) ==> ((p | (h << 104u128)) & !0x1fff_ff00_0000_0000_0000_0000_0000_0000u128 == 0 && ((p | (h << 104u128)) >> 104u128) & 0x1fffffu128 == h && (p | (h << 104u128)) & 0x0000_0000_0000_0000_0000_0000_0000_0000u128 == p & 0x0000_0000_0000_0000_0000_0000_0000_0000u128)
        &&& (h & 0x3ffffu128 == h && p & !0x1fff_ff00_0000_0000_0000_0000_0000_0000u128 == 0) ==> ((p | (h << 86u128)) & !0x1fff_ffff_ffc0_0000_0000_0000_0000_0000u128 == 0 && ((p | (h << 86u128)) >> 86u128) & 0x3ffffu128 == h && (p | (h << 86u128)) & 0x1fff_ff00_0000_0000_0000_0000_0000_0000u128 == p & 0x1fff_ff00_0000_0000_0000_0000_0000_0000u128)
        &&& (h & 0xffffu128 == h && p & !0x1fff_ffff_ffc0_0000_0000_0000_0000_0000u128 == 0) ==> ((p | (h << 70u128)) & !0x1fff_ffff_ffff_ffc0_0000_0000_0000_0000u128 == 0 && ((p | (h << 70u128)) >> 70u128) & 0xffffu128 == h && (p | (h << 70u128)) & 0x1fff_ffff_ffc0_0000_0000_0000_0000_0000u128 == p & 0x1fff_ffff_ffc0_0000_0000_0000_0000_0000u128)
        &&& (h & 0xffffu128 == h && p & !0x1fff_ffff_ffff_ffc0_0000_0000_0000_0000u128 == 0) ==> ((p | (h << 54u128)) & !0x1fff_ffff_ffff_ffff_ffc0_0000_0000_0000u128 == 0 && ((p | (h << 54u128)) >> 54u128) & 0xffffu128 == h && (p | (h << 54u128)) & 0x1fff_ffff_ffff_ffc0_0000_0000_0000_0000u128 == p & 0x1fff_ffff_ffff_ffc0_0000_0000_0000_0000u128)
        &&& (h & 0x3fffu128 == h && p & !0x1fff_ffff_ffff_ffff_ffc0_0000_0000_0000u128 == 0) ==> ((p | (h << 40u128)) & !0x1fff_ffff_ffff_ffff_ffff_ff00_0000_0000u128 == 0 && ((p | (h << 40u128)) >> 40u128) & 0x3fffu128 == h && (p | (h << 40u128)) & 0x1fff_ffff_ffff_ffff_ffc0_0000_0000_0000u128 == p & 0x1fff_ffff_ffff_ffff_ffc0_0000_0000_0000u128)
        &&& (h & 0x3fffu128 == h && p & !0x1fff_ffff_ffff_ffff_ffff_ff00_0000_0000u128 == 0) ==> ((p | (h << 26u128)) & !0x1fff_ffff_ffff_ffff_ffff_ffff_fc00_0000u128 == 0 && ((p | (h << 26u128)) >> 26u128) & 0x3fffu128 == h && (p | (h << 26u128)) & 0x1fff_ffff_ffff_ffff_ffff_ff00_0000_0000u128 == p & 0x1fff_ffff_ffff_ffff_ffff_ff00_0000_0000u128)
        &&& (h & 0x1fffu128 == h && p & !0x1fff_ffff_ffff_ffff_ffff_ffff_fc00_0000u128 == 0) ==> ((p | (h << 13u128)) & !0x1fff_ffff_ffff_ffff_ffff_ffff_ffff_e000u128 == 0 && ((p | (h << 13u128)) >> 13u128) & 0x1fffu128 == h && (p | (h << 13u128)) & 0x1fff_ffff_ffff_ffff_ffff_ffff_fc00_0000u128 == p & 0x1fff_ffff_ffff_ffff_ffff_ffff_fc00_0000u128)
        &&& (h & 0x1fffu128 == h && p & !0x1fff_ffff_ffff_ffff_ffff_ffff_ffff_e000u128 == 0) ==> ((p | (h << 0u128)) & !0x1fff_ffff_ffff_ffff_ffff_ffff_ffff_ffffu128 == 0 && ((p | (h << 0u128)) >> 0u128) & 0x1fffu128 == h && (p | (h << 0u128)) & 0x1fff_ffff_ffff_ffff_ffff_ffff_ffff_e000u128 == p & 0x1fff_ffff_ffff_ffff_ffff_ffff_ffff_e000u128)
    }) by (bit_vector);
    if i > 0 {
        lemma_prefix_agreement(q, p, i - 1);
    }
}

/// A segment hash fits in the field of its level and is not zero.
pub proof fn lemma_segment_hash_fits(segment: Seq<u8>, i: int)
    requires
        0 <= i < 8,
    ensures
        spec_segment_hash(segment, level_width(i)) & level_value_mask(i) == spec_segment_hash(
            segment,
            level_width(i),
        ),
        spec_segment_hash(segment, level_width(i)) != 0,
{
    lemma_value_mask_width(i);
    let m = level_value_mask(i);
    let h = spec_segment_hash(segment, level_width(i));
    let x = crate::hash::spec_mix(crate::hash::spec_fnv1a_64(segment)) as u128;
    assert((x & m) & m == x & m) by (bit_vector);
    assert(1u128 & m == 1u128) by (bit_vector)
        requires
            m == 0x1fffffu128 || m == 0x3ffffu128 || m == 0xffffu128 || m == 0x3fffu128 || m
                == 0x1fffu128,
    ;
}

/// The payload of the first `n` segments holds their hashes in the first
/// `n` fields and nothing else.
pub proof fn lemma_payload_fields(segments: Seq<Seq<u8>>, n: int)
    requires
        0 <= n <= 8,
        n <= segments.len(),
    ensures
        spec_payload(segments, n) & !filled_mask(n) == 0,
        forall|j: int|
            0 <= j < n ==> #[trigger] level_field(spec_payload(segments, n), j)
                == spec_segment_hash(segments[j], level_width(j)),
        forall|j: int| n <= j < 8 ==> #[trigger] level_field(spec_payload(segments, n), j) == 0,
        spec_payload(segments, n) & 0xe000_0000_0000_0000_0000_0000_0000_0000u128 == 0,
    decreases n,
{
    if n > 0 {
        lemma_payload_fields(segments, n - 1);
        let p = spec_payload(segments, n - 1);
        let h = spec_segment_hash(segments[n - 1], level_width(n - 1));
        lemma_segment_hash_fits(segments[n - 1], n - 1);
        lemma_place_field(p, h, n - 1);
        let q = spec_payload(segments, n);
        assert(q == p | (h << (level_offset(n - 1) as u128)));
        assert forall|j: int| 0 <= j < n implies #[trigger] level_field(q, j)
            == spec_segment_hash(segments[j], level_width(j)) by {
            if j < n - 1 {
                assert(level_field(q, j) == level_field(p, j));
            }
        }
    } else {
        assert(0u128 & !0u128 == 0) by (bit_vector);
    }
    lemma_unfilled_fields(spec_payload(segments, n), n);
}

/// The identifier of a path of one to eight segments carries the depth of
/// its last segment and the hash of each segment in the field of its level,
/// and is well formed.
pub proof fn lemma_gid_fields(segments: Seq<Seq<u8>>)
    requires
        1 <= segments.len() <= 8,
    ensures
        spec_depth_of(spec_hierarchical_gid(segments)) == segments.len() - 1,
        forall|j: int|
            0 <= j < segments.len() ==> #[trigger] level_field(spec_hierarchical_gid(segments), j)
                == spec_segment_hash(segments[j], level_width(j)),
        forall|j: int|
            segments.len() <= j < 8 ==> #[trigger] level_field(spec_hierarchical_gid(segments), j)
                == 0,
        gid_well_formed(spec_hierarchical_gid(segments)),
{
    let n = segments.len() as int;
    let p = spec_payload(segments, n);
    let d = (n - 1) as u128;
    let g = spec_hierarchical_gid(segments);
    lemma_payload_fields(segments, n);
    assert(((p | (d << 125u128)) >> 125u128) as u8 == d as u8 && (p | (d << 125u128))
        & 0x1fff_ffff_ffff_ffff_ffff_ffff_ffff_ffffu128 == p
        & 0x1fff_ffff_ffff_ffff_ffff_ffff_ffff_ffffu128) by (bit_vector)
        requires
            d < 8,
            p & 0xe000_0000_0000_0000_0000_0000_0000_0000u128 == 0,
    ;
    lemma_prefix_agreement(g, p, 7);
    assert forall|j: int| 0 <= j < 8 implies ((#[trigger] level_field(g, j) != 0) <==> j
        <= spec_depth_of(g)) by {
        assert(level_field(g, j) == level_field(p, j));
        if j < n {
            lemma_segment_hash_fits(segments[j], j);
        }
    }
}

/// The identifier of a path descends from the identifier of each of its
/// prefixes.
pub proof fn lemma_prefix_is_ancestor(segments: Seq<Seq<u8>>, k: int)
    requires
        1 <= k <= segments.len() <= 8,
    ensures
        spec_is_descendant(
            spec_hierarchical_gid(segments),
            spec_hierarchical_gid(segments.take(k)),
        ),
{
    let g = spec_hierarchical_gid(segments);
    let a = spec_hierarchical_gid(segments.take(k));
    lemma_gid_fields(segments);
    lemma_gid_fields(segments.take(k));
    assert forall|i: int| 0 <= i <= spec_depth_of(a) implies level_field(g, i) == level_field(
        a,
        i,
    ) by {
        assert(segments.take(k)[i] == segments[i]);
    }
    crate::laws::lemma_descendant_by_fields(g, a);
}

/// The parent of the identifier of a path of two or more segments is the
/// identifier of the path without its last segment; a path of one segment
/// has no parent.
pub proof fn lemma_parent_drops_last(segments: Seq<Seq<u8>>)
    requires
        1 <= segments.len() <= 8,
    ensures
        segments.len() == 1 ==> spec_parent_of(spec_hierarchical_gid(segments)) is None,
        segments.len() >= 2 ==> spec_parent_of(spec_hierarchical_gid(segments)) == Some(
            spec_hierarchical_gid(segments.drop_last()),
        ),
{
    let g = spec_hierarchical_gid(segments);
    lemma_gid_fields(segments);
    if segments.len() >= 2 {
        let n = segments.len() as int;
        let short = segments.drop_last();
        let a = spec_hierarchical_gid(short);
        lemma_gid_fields(short);
        let d = (n - 2) as u128;
        let pm = prefix_mask(n - 2);
        let par = (g & pm) | (d << 125u128);
        assert(spec_parent_of(g) == Some(par));
        crate::layout_lemmas::lemma_level_in_prefix(0, n - 2);
        assert(((g & pm) | (d << 125u128)) >> 125u128 == d && ((g & pm) | (d << 125u128))
            & 0x1fff_ffff_ffff_ffff_ffff_ffff_ffff_ffffu128 == g & pm) by (bit_vector)
            requires
                d < 8,
                pm & 0xe000_0000_0000_0000_0000_0000_0000_0000u128 == 0,
        ;
        assert(spec_depth_of(par) == n - 2);
        assert forall|i: int| 0 <= i < 8 implies level_field(par, i) == level_field(a, i) by {
            crate::layout_lemmas::lemma_level_in_prefix(i, n - 2);
            crate::layout_lemmas::lemma_level_in_prefix(i, 7);
            crate::layout_lemmas::lemma_field_agreement(par, g & pm, i);
            let lm = crate::layout::level_mask(i);
            assert(par & lm == (g & pm) & lm) by (bit_vector)
                requires
                    par & 0x1fff_ffff_ffff_ffff_ffff_ffff_ffff_ffffu128 == g & pm,
                    lm & 0x1fff_ffff_ffff_ffff_ffff_ffff_ffff_ffffu128 == lm,
            ;
            if i <= n - 2 {
                assert((g & pm) & lm == g & lm) by (bit_vector)
                    requires
                        lm & pm == lm,
                ;
                crate::layout_lemmas::lemma_field_agreement(par, g, i);
                assert(short[i] == segments[i]);
            } else {
                assert((g & pm) & lm == 0) by (bit_vector)
                    requires
                        lm & pm == 0,
                ;
                crate::layout_lemmas::lemma_field_agreement(par, 0, i);
                assert(level_field(par, i) == 0);
            }
        }
        lemma_equal_by_fields(par, a);
    }
}

/// Paths with different numbers of segments have different identifiers.
pub proof fn lemma_depth_separates(s1: Seq<Seq<u8>>, s2: Seq<Seq<u8>>)
    requires
        1 <= s1.len() <= 8,
        1 <= s2.len() <= 8,
        s1.len() != s2.len(),
    ensures
        spec_hierarchical_gid(s1) != spec_hierarchical_gid(s2),
{
    lemma_gid_fields(s1);
    lemma_gid_fields(s2);
}

} // verus!
