//! Bit layout of an identifier: a three-bit depth on top of eight level
//! fields of tapering width.
//!
//! ```text
//! | depth | level 0 | level 1 | level 2 | level 3 | level 4 | level 5 | level 6 | level 7 |
//! |   3   |   21    |   18    |   16    |   16    |   14    |   14    |   13    |   13    |
//! ```

use vstd::prelude::*;

verus! {

/// A hierarchical identifier.
pub type GID = u128;

/// The all-zero identifier.
pub const ROOT_GID: GID = 0;

/// Number of levels an identifier can describe.
pub const MAX_DEPTH: usize = 8;

/// Width of the depth field.
pub const DEPTH_BITS: u8 = 3;

/// Position of the lowest bit of the depth field.
pub const DEPTH_SHIFT: u8 = 125;

/// The three bits that hold the depth.
pub const DEPTH_MASK: u128 = 0xe000_0000_0000_0000_0000_0000_0000_0000;

/// Width in bits of the field of each level.
pub const LEVEL_WIDTHS: [u8; 8] = [21, 18, 16, 16, 14, 14, 13, 13];

/// Position of the lowest bit of the field of each level.
pub const LEVEL_OFFSETS: [u8; 8] = [104, 86, 70, 54, 40, 26, 13, 0];

/// `LEVEL_MASKS[d]` covers the depth field and the fields of levels `0..=d`.
pub const LEVEL_MASKS: [u128; 8] = [
    0xffff_ff00_0000_0000_0000_0000_0000_0000,
    0xffff_ffff_ffc0_0000_0000_0000_0000_0000,
    0xffff_ffff_ffff_ffc0_0000_0000_0000_0000,
    0xffff_ffff_ffff_ffff_ffc0_0000_0000_0000,
    0xffff_ffff_ffff_ffff_ffff_ff00_0000_0000,
    0xffff_ffff_ffff_ffff_ffff_ffff_fc00_0000,
    0xffff_ffff_ffff_ffff_ffff_ffff_ffff_e000,
    0xffff_ffff_ffff_ffff_ffff_ffff_ffff_ffff,
];

/// Width of the field of level `i`.
pub open spec fn level_width(i: int) -> u8 {
    if i == 0 {
        21
    } else if i == 1 {
        18
    } else if i == 2 || i == 3 {
        16
    } else if i == 4 || i == 5 {
        14
    } else {
        13
    }
}

/// Position of the lowest bit of the field of level `i`.
pub open spec fn level_offset(i: int) -> u8 {
    if i == 0 {
        104
    } else if i == 1 {
        86
    } else if i == 2 {
        70
    } else if i == 3 {
        54
    } else if i == 4 {
        40
    } else if i == 5 {
        26
    } else if i == 6 {
        13
    } else {
        0
    }
}

/// The bits of the fields of levels `0..=d`, without the depth field.
pub open spec fn prefix_mask(d: int) -> u128 {
    if d == 0 {
        0x1fff_ff00_0000_0000_0000_0000_0000_0000
    } else if d == 1 {
        0x1fff_ffff_ffc0_0000_0000_0000_0000_0000
    } else if d == 2 {
        0x1fff_ffff_ffff_ffc0_0000_0000_0000_0000
    } else if d == 3 {
        0x1fff_ffff_ffff_ffff_ffc0_0000_0000_0000
    } else if d == 4 {
        0x1fff_ffff_ffff_ffff_ffff_ff00_0000_0000
    } else if d == 5 {
        0x1fff_ffff_ffff_ffff_ffff_ffff_fc00_0000
    } else if d == 6 {
        0x1fff_ffff_ffff_ffff_ffff_ffff_ffff_e000
    } else {
        0x1fff_ffff_ffff_ffff_ffff_ffff_ffff_ffff
    }
}

/// The depth that an identifier carries in its top three bits.
pub open spec fn spec_depth_of(gid: u128) -> u8 {
    (gid >> 125u128) as u8
}

/// The low `level_width(i)` bits.
pub open spec fn level_value_mask(i: int) -> u128 {
    if i == 0 {
        0x1fffff
    } else if i == 1 {
        0x3ffff
    } else if i == 2 {
        0xffff
    } else if i == 3 {
        0xffff
    } else if i == 4 {
        0x3fff
    } else if i == 5 {
        0x3fff
    } else if i == 6 {
        0x1fff
    } else {
        0x1fff
    }
}

/// The bits that the field of level `i` occupies.
pub open spec fn level_mask(i: int) -> u128 {
    if i == 0 {
        0x1fff_ff00_0000_0000_0000_0000_0000_0000
    } else if i == 1 {
        0x0000_00ff_ffc0_0000_0000_0000_0000_0000
    } else if i == 2 {
        0x0000_0000_003f_ffc0_0000_0000_0000_0000
    } else if i == 3 {
        0x0000_0000_0000_003f_ffc0_0000_0000_0000
    } else if i == 4 {
        0x0000_0000_0000_0000_003f_ff00_0000_0000
    } else if i == 5 {
        0x0000_0000_0000_0000_0000_00ff_fc00_0000
    } else if i == 6 {
        0x0000_0000_0000_0000_0000_0000_03ff_e000
    } else {
        0x0000_0000_0000_0000_0000_0000_0000_1fff
    }
}

/// The hash stored for level `i`, moved down to bit zero.
pub open spec fn level_field(gid: u128, i: int) -> u128 {
    (gid >> (level_offset(i) as u128)) & level_value_mask(i)
}

/// An identifier is well formed when exactly the levels down to its depth
/// hold a hash: zero in a field means that the level is absent.
pub open spec fn gid_well_formed(gid: u128) -> bool {
    forall|i: int|
        0 <= i < 8 ==> ((#[trigger] level_field(gid, i) != 0) <==> i <= spec_depth_of(gid))
}

/// Extracts the depth of an identifier.
pub fn depth_of(gid: GID) -> (d: u8)
    ensures
        d == spec_depth_of(gid),
        d < 8,
{
    assert((gid >> 125u128) & 0b111 == gid >> 125u128) by (bit_vector);
    assert((gid >> 125u128) < 8) by (bit_vector);
    ((gid >> DEPTH_SHIFT) & 0b111) as u8
}

/// Puts `depth` on top of a payload that leaves the depth field clear.
pub fn encode_gid(payload: u128, depth: u8) -> (gid: GID)
    requires
        depth < 8,
        payload & DEPTH_MASK == 0,
    ensures
        gid == payload | ((depth as u128) << 125u128),
        spec_depth_of(gid) == depth,
        gid & !DEPTH_MASK == payload,
{
    assert(DEPTH_MASK == 0xe000_0000_0000_0000_0000_0000_0000_0000u128);
    let top: u128 = (depth as u128) << DEPTH_SHIFT;
    assert(((payload | ((depth as u128) << 125u128)) >> 125u128) as u8 == depth
        && (payload | ((depth as u128) << 125u128)) & !0xe000_0000_0000_0000_0000_0000_0000_0000u128
        == payload) by (bit_vector)
        requires
            depth < 8,
            payload & 0xe000_0000_0000_0000_0000_0000_0000_0000u128 == 0,
    ;
    payload | top
}

/// Whether `candidate` agrees with `ancestor` on every level down to the
/// depth of `ancestor`.
pub open spec fn spec_is_descendant(candidate: u128, ancestor: u128) -> bool {
    candidate & prefix_mask(spec_depth_of(ancestor) as int) == ancestor & prefix_mask(
        spec_depth_of(ancestor) as int,
    )
}

/// Tests in constant time whether `candidate` lies in the subtree of
/// `ancestor`; every identifier lies in its own subtree.
pub fn gid_is_descendant_of(candidate: GID, ancestor: GID) -> (b: bool)
    ensures
        b == spec_is_descendant(candidate, ancestor),
{
    let ancestor_depth: usize = depth_of(ancestor) as usize;
    if ancestor_depth >= MAX_DEPTH {
        return false;
    }
    let payload_mask: u128 = LEVEL_MASKS[ancestor_depth] & !DEPTH_MASK;
    proof {
        lemma_masks_table(ancestor_depth as int);
    }
    (candidate & payload_mask) == (ancestor & payload_mask)
}

/// The identifier one level up: the same fields down to the level above,
/// nothing below, and a depth smaller by one.  A root has none.
pub open spec fn spec_parent_of(gid: u128) -> Option<u128> {
    let d = spec_depth_of(gid);
    if d == 0 {
        None
    } else {
        Some((gid & prefix_mask(d - 1)) | (((d - 1) as u128) << 125u128))
    }
}

/// Two identifiers are siblings when both are roots, or when they have the
/// same depth and agree on every level above their own.
pub open spec fn spec_is_sibling(a: u128, b: u128) -> bool {
    let d = spec_depth_of(a);
    spec_depth_of(b) == d && (d == 0 || a & prefix_mask(d - 1) == b & prefix_mask(d - 1))
}

/// Tests whether two identifiers hang under the same parent.
pub fn is_sibling(a: GID, b: GID) -> (r: bool)
    ensures
        r == spec_is_sibling(a, b),
{
    let depth_a: u8 = depth_of(a);
    let depth_b: u8 = depth_of(b);
    if depth_a != depth_b || depth_a == 0 {
        return depth_a == depth_b && depth_a == 0;
    }
    let parent_depth: usize = (depth_a - 1) as usize;
    let parent_mask: u128 = LEVEL_MASKS[parent_depth];
    proof {
        lemma_masks_table(parent_depth as int);
        let pm = prefix_mask(parent_depth as int);
        assert(a >> 125u128 == b >> 125u128) by (bit_vector)
            requires
                (a >> 125u128) as u8 == (b >> 125u128) as u8,
        ;
        assert(((a & (pm | 0xe000_0000_0000_0000_0000_0000_0000_0000u128)) == (b & (pm
            | 0xe000_0000_0000_0000_0000_0000_0000_0000u128))) <==> (a & pm == b & pm))
            by (bit_vector)
            requires
                a >> 125u128 == b >> 125u128,
                pm & 0xe000_0000_0000_0000_0000_0000_0000_0000u128 == 0,
        ;
    }
    (a & parent_mask) == (b & parent_mask)
}

/// The identifier of the parent, or `None` for a root.
pub fn parent_of(gid: GID) -> (p: Option<GID>)
    ensures
        p == spec_parent_of(gid),
{
    let depth: u8 = depth_of(gid);
    if depth == 0 {
        return None;
    }
    let parent_depth: u8 = depth - 1;
    let parent_mask: u128 = LEVEL_MASKS[parent_depth as usize];
    let parent_payload: u128 = gid & parent_mask & !DEPTH_MASK;
    proof {
        lemma_masks_table(parent_depth as int);
        let pm = prefix_mask(parent_depth as int);
        assert(gid & (pm | 0xe000_0000_0000_0000_0000_0000_0000_0000u128)
            & !0xe000_0000_0000_0000_0000_0000_0000_0000u128 == gid & pm && (gid & pm)
            & 0xe000_0000_0000_0000_0000_0000_0000_0000u128 == 0) by (bit_vector)
            requires
                pm & 0xe000_0000_0000_0000_0000_0000_0000_0000u128 == 0,
        ;
    }
    Some(encode_gid(parent_payload, parent_depth))
}

/// The tables of widths and offsets hold what `level_width` and
/// `level_offset` say.
pub proof fn lemma_layout_tables(i: int)
    requires
        0 <= i < 8,
    ensures
        LEVEL_WIDTHS[i] == level_width(i),
        LEVEL_OFFSETS[i] == level_offset(i),
{
}

/// The eight fields fill the 125 bits under the depth field without gaps:
/// the field of level 0 ends where the depth field begins, each further
/// field ends where the one before it begins, and the last begins at bit
/// zero.
pub proof fn lemma_layout_partition(i: int)
    requires
        0 <= i < 8,
    ensures
        level_width(0) + level_width(1) + level_width(2) + level_width(3) + level_width(4)
            + level_width(5) + level_width(6) + level_width(7) == 125,
        i == 0 ==> level_offset(i) + level_width(i) == 125,
        i > 0 ==> level_offset(i) + level_width(i) == level_offset(i - 1),
        level_offset(7) == 0,
{
}

/// The table of masks holds the prefix masks with the depth field added.
pub proof fn lemma_masks_table(d: int)
    requires
        0 <= d < 8,
    ensures
        LEVEL_MASKS[d] & !DEPTH_MASK == prefix_mask(d),
        LEVEL_MASKS[d] == prefix_mask(d) | DEPTH_MASK,
        prefix_mask(d) & DEPTH_MASK == 0,
{
    assert({
        &&& 0xffff_ff00_0000_0000_0000_0000_0000_0000u128 & !0xe000_0000_0000_0000_0000_0000_0000_0000u128 == 0x1fff_ff00_0000_0000_0000_0000_0000_0000u128
        &&& 0xffff_ff00_0000_0000_0000_0000_0000_0000u128 == 0x1fff_ff00_0000_0000_0000_0000_0000_0000u128 | 0xe000_0000_0000_0000_0000_0000_0000_0000u128
        &&& 0x1fff_ff00_0000_0000_0000_0000_0000_0000u128 & 0xe000_0000_0000_0000_0000_0000_0000_0000u128 == 0
        &&& 0xffff_ffff_ffc0_0000_0000_0000_0000_0000u128 & !0xe000_0000_0000_0000_0000_0000_0000_0000u128 == 0x1fff_ffff_ffc0_0000_0000_0000_0000_0000u128
        &&& 0xffff_ffff_ffc0_0000_0000_0000_0000_0000u128 == 0x1fff_ffff_ffc0_0000_0000_0000_0000_0000u128 | 0xe000_0000_0000_0000_0000_0000_0000_0000u128
        &&& 0x1fff_ffff_ffc0_0000_0000_0000_0000_0000u128 & 0xe000_0000_0000_0000_0000_0000_0000_0000u128 == 0
        &&& 0xffff_ffff_ffff_ffc0_0000_0000_0000_0000u128 & !0xe000_0000_0000_0000_0000_0000_0000_0000u128 == 0x1fff_ffff_ffff_ffc0_0000_0000_0000_0000u128
        &&& 0xffff_ffff_ffff_ffc0_0000_0000_0000_0000u128 == 0x1fff_ffff_ffff_ffc0_0000_0000_0000_0000u128 | 0xe000_0000_0000_0000_0000_0000_0000_0000u128
        &&& 0x1fff_ffff_ffff_ffc0_0000_0000_0000_0000u128 & 0xe000_0000_0000_0000_0000_0000_0000_0000u128 == 0
        &&& 0xffff_ffff_ffff_ffff_ffc0_0000_0000_0000u128 & !0xe000_0000_0000_0000_0000_0000_0000_0000u128 == 0x1fff_ffff_ffff_ffff_ffc0_0000_0000_0000u128
        &&& 0xffff_ffff_ffff_ffff_ffc0_0000_0000_0000u128 == 0x1fff_ffff_ffff_ffff_ffc0_0000_0000_0000u128 | 0xe000_0000_0000_0000_0000_0000_0000_0000u128
        &&& 0x1fff_ffff_ffff_ffff_ffc0_0000_0000_0000u128 & 0xe000_0000_0000_0000_0000_0000_0000_0000u128 == 0
        &&& 0xffff_ffff_ffff_ffff_ffff_ff00_0000_0000u128 & !0xe000_0000_0000_0000_0000_0000_0000_0000u128 == 0x1fff_ffff_ffff_ffff_ffff_ff00_0000_0000u128
        &&& 0xffff_ffff_ffff_ffff_ffff_ff00_0000_0000u128 == 0x1fff_ffff_ffff_ffff_ffff_ff00_0000_0000u128 | 0xe000_0000_0000_0000_0000_0000_0000_0000u128
        &&& 0x1fff_ffff_ffff_ffff_ffff_ff00_0000_0000u128 & 0xe000_0000_0000_0000_0000_0000_0000_0000u128 == 0
        &&& 0xffff_ffff_ffff_ffff_ffff_ffff_fc00_0000u128 & !0xe000_0000_0000_0000_0000_0000_0000_0000u128 == 0x1fff_ffff_ffff_ffff_ffff_ffff_fc00_0000u128
        &&& 0xffff_ffff_ffff_ffff_ffff_ffff_fc00_0000u128 == 0x1fff_ffff_ffff_ffff_ffff_ffff_fc00_0000u128 | 0xe000_0000_0000_0000_0000_0000_0000_0000u128
        &&& 0x1fff_ffff_ffff_ffff_ffff_ffff_fc00_0000u128 & 0xe000_0000_0000_0000_0000_0000_0000_0000u128 == 0
        &&& 0xffff_ffff_ffff_ffff_ffff_ffff_ffff_e000u128 & !0xe000_0000_0000_0000_0000_0000_0000_0000u128 == 0x1fff_ffff_ffff_ffff_ffff_ffff_ffff_e000u128
        &&& 0xffff_ffff_ffff_ffff_ffff_ffff_ffff_e000u128 == 0x1fff_ffff_ffff_ffff_ffff_ffff_ffff_e000u128 | 0xe000_0000_0000_0000_0000_0000_0000_0000u128
        &&& 0x1fff_ffff_ffff_ffff_ffff_ffff_ffff_e000u128 & 0xe000_0000_0000_0000_0000_0000_0000_0000u128 == 0
        &&& 0xffff_ffff_ffff_ffff_ffff_ffff_ffff_ffffu128 & !0xe000_0000_0000_0000_0000_0000_0000_0000u128 == 0x1fff_ffff_ffff_ffff_ffff_ffff_ffff_ffffu128
        &&& 0xffff_ffff_ffff_ffff_ffff_ffff_ffff_ffffu128 == 0x1fff_ffff_ffff_ffff_ffff_ffff_ffff_ffffu128 | 0xe000_0000_0000_0000_0000_0000_0000_0000u128
        &&& 0x1fff_ffff_ffff_ffff_ffff_ffff_ffff_ffffu128 & 0xe000_0000_0000_0000_0000_0000_0000_0000u128 == 0
    }) by (bit_vector);
}

} // verus!
