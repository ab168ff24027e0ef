//! Hashing of path segments into the level fields of an identifier.
//!
//! A segment is hashed with 64-bit FNV-1a, folded so that the low bits take
//! part of the high ones, cut to the width of its level, and kept away from
//! zero: a zero field means that the level is absent.

use vstd::prelude::*;
use crate::layout::{encode_gid, level_offset, level_width, LEVEL_OFFSETS, LEVEL_WIDTHS};

verus! {

/// Turns a sequence of byte slices into the sequence of their contents.
pub open spec fn segments_view(segments: Seq<&[u8]>) -> Seq<Seq<u8>> {
    segments.map_values(|s: &[u8]| s@)
}

/// 64-bit FNV-1a: start from the offset basis; for each byte, xor it in and
/// multiply by the FNV prime modulo 2^64.
pub open spec fn spec_fnv1a_64(bytes: Seq<u8>) -> u64
    decreases bytes.len(),
{
    if bytes.len() == 0 {
        0xcbf2_9ce4_8422_2325
    } else {
        ((((spec_fnv1a_64(bytes.drop_last()) ^ (bytes.last() as u64)) as nat) * 0x100_0000_01b3)
            % 0x1_0000_0000_0000_0000) as u64
    }
}

/// The folded hash `h ^ (h >> 32) ^ (h >> 17)`.
pub open spec fn spec_mix(h: u64) -> u64 {
    h ^ (h >> 32u64) ^ (h >> 17u64)
}

/// The hash of a segment in a field of `width` bits: the low `width` bits of
/// the folded hash, or 1 where those are all zero.
pub open spec fn spec_segment_hash(segment: Seq<u8>, width: u8) -> u128 {
    let low = (spec_mix(spec_fnv1a_64(segment)) as u128) & (((1u128 << (width as u128)) - 1) as u128);
    if low == 0 {
        1
    } else {
        low
    }
}

/// The payload built from the first `n` segments: each hash in the field of
/// its level.
pub open spec fn spec_payload(segments: Seq<Seq<u8>>, n: int) -> u128
    decreases n,
{
    if n <= 0 {
        0
    } else {
        spec_payload(segments, n - 1) | (spec_segment_hash(segments[n - 1], level_width(n - 1)) << (
        level_offset(n - 1) as u128))
    }
}

/// The identifier of a path given by its segments: the payload of all the
/// segments under the depth of the last one.
pub open spec fn spec_hierarchical_gid(segments: Seq<Seq<u8>>) -> u128 {
    spec_payload(segments, segments.len() as int) | (((segments.len() - 1) as u128) << 125u128)
}

/// Hashes a byte string with 64-bit FNV-1a.
pub fn fnv1a_64(bytes: &[u8]) -> (hash: u64)
    ensures
        hash == spec_fnv1a_64(bytes@),
{
    let mut hash: u64 = 0xcbf2_9ce4_8422_2325;
    let mut i: usize = 0;
    while i < bytes.len()
        invariant
            i <= bytes.len(),
            hash == spec_fnv1a_64(bytes@.take(i as int)),
        decreases bytes.len() - i,
    {
        proof {
            assert(bytes@.take(i + 1).drop_last() =~= bytes@.take(i as int));
        }
        hash = hash ^ (bytes[i] as u64);
        hash = hash.wrapping_mul(0x100_0000_01b3);
        i += 1;
    }
    proof {
        assert(bytes@.take(i as int) =~= bytes@);
    }
    hash
}

/// Hashes one path segment into a field of `width` bits; the result is
/// never zero.
pub fn segment_hash(segment: &[u8], width: u8) -> (value: u128)
    requires
        0 < width <= 64,
    ensures
        value == spec_segment_hash(segment@, width),
        value != 0,
        value < (1u128 << (width as u128)),
{
    let full: u64 = fnv1a_64(segment);
    let mixed: u64 = full ^ (full >> 32) ^ (full >> 17);
    assert(1 <= (1u128 << (width as u128)) && 1u128 < (1u128 << (width as u128))) by (bit_vector)
        requires
            0 < width <= 64,
    ;
    let mask: u128 = (1u128 << width) - 1;
    let val: u128 = (mixed as u128) & mask;
    assert(val < (1u128 << (width as u128))) by (bit_vector)
        requires
            val == (mixed as u128) & mask,
            mask == ((1u128 << (width as u128)) - 1) as u128,
            0 < width <= 64,
    ;
    if val == 0 {
        1
    } else {
        val
    }
}

/// Computes the identifier of a path from its segments, root first.
pub fn hierarchical_gid(segments: &[&[u8]]) -> (gid: u128)
    requires
        1 <= segments@.len() <= 8,
    ensures
        gid == spec_hierarchical_gid(segments_view(segments@)),
        crate::layout::gid_well_formed(gid),
        crate::layout::spec_depth_of(gid) == segments@.len() - 1,
{
    let ghost segs = segments_view(segments@);
    let depth: u8 = (segments.len() - 1) as u8;
    let mut payload: u128 = 0;
    let mut i: usize = 0;
    while i < segments.len()
        invariant
            i <= segments@.len() <= 8,
            segs == segments_view(segments@),
            payload == spec_payload(segs, i as int),
        decreases segments@.len() - i,
    {
        let seg: u128 = segment_hash(segments[i], LEVEL_WIDTHS[i]);
        payload = payload | (seg << LEVEL_OFFSETS[i]);
        i += 1;
    }
    proof {
        crate::hash_lemmas::lemma_payload_fields(segs, segs.len() as int);
        crate::hash_lemmas::lemma_gid_fields(segs);
    }
    encode_gid(payload, depth)
}

/// Computes the identifier of a path as [`hierarchical_gid`] does; the two
/// tables are not consulted, the fixed layout is.
pub fn hierarchical_gid_with_layout(segments: &[&[u8]], _widths: &[u8], _offsets: &[u8]) -> (gid:
    u128)
    requires
        1 <= segments@.len() <= 8,
    ensures
        gid == spec_hierarchical_gid(segments_view(segments@)),
{
    hierarchical_gid(segments)
}

} // verus!
