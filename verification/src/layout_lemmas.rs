//! Facts about the bit layout that the identifier laws rest on.

use vstd::prelude::*;
use crate::layout::{
    level_field, level_mask, level_offset, level_value_mask, level_width, prefix_mask,
};

verus! {

/// The value mask of a level is as wide as the level.
pub proof fn lemma_value_mask_width(i: int)
    requires
        0 <= i < 8,
    ensures
        level_value_mask(i) == (1u128 << (level_width(i) as u128)) - 1,
        level_mask(i) == level_value_mask(i) << (level_offset(i) as u128),
        level_width(i) + level_offset(i) <= 125,
{
    assert({
        &&& 0x200000u128 == 1u128 << 21u128
        &&& 0x1fff_ff00_0000_0000_0000_0000_0000_0000u128 == 0x1fffffu128 << 104u128
        &&& 0x40000u128 == 1u128 << 18u128
        &&& 0x0000_00ff_ffc0_0000_0000_0000_0000_0000u128 == 0x3ffffu128 << 86u128
        &&& 0x10000u128 == 1u128 << 16u128
        &&& 0x0000_0000_003f_ffc0_0000_0000_0000_0000u128 == 0xffffu128 << 70u128
        &&& 0x10000u128 == 1u128 << 16u128
        &&& 0x0000_0000_0000_003f_ffc0_0000_0000_0000u128 == 0xffffu128 << 54u128
        &&& 0x4000u128 == 1u128 << 14u128
        &&& 0x0000_0000_0000_0000_003f_ff00_0000_0000u128 == 0x3fffu128 << 40u128
        &&& 0x4000u128 == 1u128 << 14u128
        &&& 0x0000_0000_0000_0000_0000_00ff_fc00_0000u128 == 0x3fffu128 << 26u128
        &&& 0x2000u128 == 1u128 << 13u128
        &&& 0x0000_0000_0000_0000_0000_0000_03ff_e000u128 == 0x1fffu128 << 13u128
        &&& 0x2000u128 == 1u128 << 13u128
        &&& 0x0000_0000_0000_0000_0000_0000_0000_1fffu128 == 0x1fffu128 << 0u128
    }) by (bit_vector);
}

/// The masks of the levels down to `d` make up the prefix mask of `d`, and
/// the masks of deeper levels lie outside it.
pub proof fn lemma_level_in_prefix(i: int, d: int)
    requires
        0 <= i < 8,
        0 <= d < 8,
    ensures
        i <= d ==> level_mask(i) & prefix_mask(d) == level_mask(i),
        i > d ==> level_mask(i) & prefix_mask(d) == 0,
        d > 0 ==> prefix_mask(d) == prefix_mask(d - 1) | level_mask(d),
        prefix_mask(0) == level_mask(0),
        prefix_mask(d) & 0xe000_0000_0000_0000_0000_0000_0000_0000u128 == 0,
{
    assert({
        &&& 0x1fff_ff00_0000_0000_0000_0000_0000_0000u128 & 0x1fff_ff00_0000_0000_0000_0000_0000_0000u128 == 0x1fff_ff00_0000_0000_0000_0000_0000_0000u128
        &&& 0x1fff_ff00_0000_0000_0000_0000_0000_0000u128 & 0x1fff_ffff_ffc0_0000_0000_0000_0000_0000u128 == 0x1fff_ff00_0000_0000_0000_0000_0000_0000u128
        &&& 0x1fff_ff00_0000_0000_0000_0000_0000_0000u128 & 0x1fff_ffff_ffff_ffc0_0000_0000_0000_0000u128 == 0x1fff_ff00_0000_0000_0000_0000_0000_0000u128
        &&& 0x1fff_ff00_0000_0000_0000_0000_0000_0000u128 & 0x1fff_ffff_ffff_ffff_ffc0_0000_0000_0000u128 == 0x1fff_ff00_0000_0000_0000_0000_0000_0000u128
        &&& 0x1fff_ff00_0000_0000_0000_0000_0000_0000u128 & 0x1fff_ffff_ffff_ffff_ffff_ff00_0000_0000u128 == 0x1fff_ff00_0000_0000_0000_0000_0000_0000u128
        &&& 0x1fff_ff00_0000_0000_0000_0000_0000_0000u128 & 0x1fff_ffff_ffff_ffff_ffff_ffff_fc00_0000u128 == 0x1fff_ff00_0000_0000_0000_0000_0000_0000u128
        &&& 0x1fff_ff00_0000_0000_0000_0000_0000_0000u128 & 0x1fff_ffff_ffff_ffff_ffff_ffff_ffff_e000u128 == 0x1fff_ff00_0000_0000_0000_0000_0000_0000u128
        &&& 0x1fff_ff00_0000_0000_0000_0000_0000_0000u128 & 0x1fff_ffff_ffff_ffff_ffff_ffff_ffff_ffffu128 == 0x1fff_ff00_0000_0000_0000_0000_0000_0000u128
        &&& 0x0000_00ff_ffc0_0000_0000_0000_0000_0000u128 & 0x1fff_ff00_0000_0000_0000_0000_0000_0000u128 == 0
        &&& 0x0000_00ff_ffc0_0000_0000_0000_0000_0000u128 & 0x1fff_ffff_ffc0_0000_0000_0000_0000_0000u128 == 0x0000_00ff_ffc0_0000_0000_0000_0000_0000u128
        &&& 0x0000_00ff_ffc0_0000_0000_0000_0000_0000u128 & 0x1fff_ffff_ffff_ffc0_0000_0000_0000_0000u128 == 0x0000_00ff_ffc0_0000_0000_0000_0000_0000u128
        &&& 0x0000_00ff_ffc0_0000_0000_0000_0000_0000u128 & 0x1fff_ffff_ffff_ffff_ffc0_0000_0000_0000u128 == 0x0000_00ff_ffc0_0000_0000_0000_0000_0000u128
        &&& 0x0000_00ff_ffc0_0000_0000_0000_0000_0000u128 & 0x1fff_ffff_ffff_ffff_ffff_ff00_0000_0000u128 == 0x0000_00ff_ffc0_0000_0000_0000_0000_0000u128
        &&& 0x0000_00ff_ffc0_0000_0000_0000_0000_0000u128 & 0x1fff_ffff_ffff_ffff_ffff_ffff_fc00_0000u128 == 0x0000_00ff_ffc0_0000_0000_0000_0000_0000u128
        &&& 0x0000_00ff_ffc0_0000_0000_0000_0000_0000u128 & 0x1fff_ffff_ffff_ffff_ffff_ffff_ffff_e000u128 == 0x0000_00ff_ffc0_0000_0000_0000_0000_0000u128
        &&& 0x0000_00ff_ffc0_0000_0000_0000_0000_0000u128 & 0x1fff_ffff_ffff_ffff_ffff_ffff_ffff_ffffu128 == 0x0000_00ff_ffc0_0000_0000_0000_0000_0000u128
        &&& 0x0000_0000_003f_ffc0_0000_0000_0000_0000u128 & 0x1fff_ff00_0000_0000_0000_0000_0000_0000u128 == 0
        &&& 0x0000_0000_003f_ffc0_0000_0000_0000_0000u128 & 0x1fff_ffff_ffc0_0000_0000_0000_0000_0000u128 == 0
        &&& 0x0000_0000_003f_ffc0_0000_0000_0000_0000u128 & 0x1fff_ffff_ffff_ffc0_0000_0000_0000_0000u128 == 0x0000_0000_003f_ffc0_0000_0000_0000_0000u128
        &&& 0x0000_0000_003f_ffc0_0000_0000_0000_0000u128 & 0x1fff_ffff_ffff_ffff_ffc0_0000_0000_0000u128 == 0x0000_0000_003f_ffc0_0000_0000_0000_0000u128
        &&& 0x0000_0000_003f_ffc0_0000_0000_0000_0000u128 & 0x1fff_ffff_ffff_ffff_ffff_ff00_0000_0000u128 == 0x0000_0000_003f_ffc0_0000_0000_0000_0000u128
        &&& 0x0000_0000_003f_ffc0_0000_0000_0000_0000u128 & 0x1fff_ffff_ffff_ffff_ffff_ffff_fc00_0000u128 == 0x0000_0000_003f_ffc0_0000_0000_0000_0000u128
        &&& 0x0000_0000_003f_ffc0_0000_0000_0000_0000u128 & 0x1fff_ffff_ffff_ffff_ffff_ffff_ffff_e000u128 == 0x0000_0000_003f_ffc0_0000_0000_0000_0000u128
        &&& 0x0000_0000_003f_ffc0_0000_0000_0000_0000u128 & 0x1fff_ffff_ffff_ffff_ffff_ffff_ffff_ffffu128 == 0x0000_0000_003f_ffc0_0000_0000_0000_0000u128
        &&& 0x0000_0000_0000_003f_ffc0_0000_0000_0000u128 & 0x1fff_ff00_0000_0000_0000_0000_0000_0000u128 == 0
        &&& 0x0000_0000_0000_003f_ffc0_0000_0000_0000u128 & 0x1fff_ffff_ffc0_0000_0000_0000_0000_0000u128 == 0
        &&& 0x0000_0000_0000_003f_ffc0_0000_0000_0000u128 & 0x1fff_ffff_ffff_ffc0_0000_0000_0000_0000u128 == 0
        &&& 0x0000_0000_0000_003f_ffc0_0000_0000_0000u128 & 0x1fff_ffff_ffff_ffff_ffc0_0000_0000_0000u128 == 0x0000_0000_0000_003f_ffc0_0000_0000_0000u128
        &&& 0x0000_0000_0000_003f_ffc0_0000_0000_0000u128 & 0x1fff_ffff_ffff_ffff_ffff_ff00_0000_0000u128 == 0x0000_0000_0000_003f_ffc0_0000_0000_0000u128
        &&& 0x0000_0000_0000_003f_ffc0_0000_0000_0000u128 & 0x1fff_ffff_ffff_ffff_ffff_ffff_fc00_0000u128 == 0x0000_0000_0000_003f_ffc0_0000_0000_0000u128
        &&& 0x0000_0000_0000_003f_ffc0_0000_0000_0000u128 & 0x1fff_ffff_ffff_ffff_ffff_ffff_ffff_e000u128 == 0x0000_0000_0000_003f_ffc0_0000_0000_0000u128
        &&& 0x0000_0000_0000_003f_ffc0_0000_0000_0000u128 & 0x1fff_ffff_ffff_ffff_ffff_ffff_ffff_ffffu128 == 0x0000_0000_0000_003f_ffc0_0000_0000_0000u128
        &&& 0x0000_0000_0000_0000_003f_ff00_0000_0000u128 & 0x1fff_ff00_0000_0000_0000_0000_0000_0000u128 == 0
        &&& 0x0000_0000_0000_0000_003f_ff00_0000_0000u128 & 0x1fff_ffff_ffc0_0000_0000_0000_0000_0000u128 == 0
        &&& 0x0000_0000_0000_0000_003f_ff00_0000_0000u128 & 0x1fff_ffff_ffff_ffc0_0000_0000_0000_0000u128 == 0
        &&& 0x0000_0000_0000_0000_003f_ff00_0000_0000u128 & 0x1fff_ffff_ffff_ffff_ffc0_0000_0000_0000u128 == 0
        &&& 0x0000_0000_0000_0000_003f_ff00_0000_0000u128 & 0x1fff_ffff_ffff_ffff_ffff_ff00_0000_0000u128 == 0x0000_0000_0000_0000_003f_ff00_0000_0000u128
        &&& 0x0000_0000_0000_0000_003f_ff00_0000_0000u128 & 0x1fff_ffff_ffff_ffff_ffff_ffff_fc00_0000u128 == 0x0000_0000_0000_0000_003f_ff00_0000_0000u128
        &&& 0x0000_0000_0000_0000_003f_ff00_0000_0000u128 & 0x1fff_ffff_ffff_ffff_ffff_ffff_ffff_e000u128 == 0x0000_0000_0000_0000_003f_ff00_0000_0000u128
        &&& 0x0000_0000_0000_0000_003f_ff00_0000_0000u128 & 0x1fff_ffff_ffff_ffff_ffff_ffff_ffff_ffffu128 == 0x0000_0000_0000_0000_003f_ff00_0000_0000u128
        &&& 0x0000_0000_0000_0000_0000_00ff_fc00_0000u128 & 0x1fff_ff00_0000_0000_0000_0000_0000_0000u128 == 0
        &&& 0x0000_0000_0000_0000_0000_00ff_fc00_0000u128 & 0x1fff_ffff_ffc0_0000_0000_0000_0000_0000u128 == 0
        &&& 0x0000_0000_0000_0000_0000_00ff_fc00_0000u128 & 0x1fff_ffff_ffff_ffc0_0000_0000_0000_0000u128 == 0
        &&& 0x0000_0000_0000_0000_0000_00ff_fc00_0000u128 & 0x1fff_ffff_ffff_ffff_ffc0_0000_0000_0000u128 == 0
        &&& 0x0000_0000_0000_0000_0000_00ff_fc00_0000u128 & 0x1fff_ffff_ffff_ffff_ffff_ff00_0000_0000u128 == 0
        &&& 0x0000_0000_0000_0000_0000_00ff_fc00_0000u128 & 0x1fff_ffff_ffff_ffff_ffff_ffff_fc00_0000u128 == 0x0000_0000_0000_0000_0000_00ff_fc00_0000u128
        &&& 0x0000_0000_0000_0000_0000_00ff_fc00_0000u128 & 0x1fff_ffff_ffff_ffff_ffff_ffff_ffff_e000u128 == 0x0000_0000_0000_0000_0000_00ff_fc00_0000u128
        &&& 0x0000_0000_0000_0000_0000_00ff_fc00_0000u128 & 0x1fff_ffff_ffff_ffff_ffff_ffff_ffff_ffffu128 == 0x0000_0000_0000_0000_0000_00ff_fc00_0000u128
        &&& 0x0000_0000_0000_0000_0000_0000_03ff_e000u128 & 0x1fff_ff00_0000_0000_0000_0000_0000_0000u128 == 0
        &&& 0x0000_0000_0000_0000_0000_0000_03ff_e000u128 & 0x1fff_ffff_ffc0_0000_0000_0000_0000_0000u128 == 0
        &&& 0x0000_0000_0000_0000_0000_0000_03ff_e000u128 & 0x1fff_ffff_ffff_ffc0_0000_0000_0000_0000u128 == 0
        &&& 0x0000_0000_0000_0000_0000_0000_03ff_e000u128 & 0x1fff_ffff_ffff_ffff_ffc0_0000_0000_0000u128 == 0
        &&& 0x0000_0000_0000_0000_0000_0000_03ff_e000u128 & 0x1fff_ffff_ffff_ffff_ffff_ff00_0000_0000u128 == 0
        &&& 0x0000_0000_0000_0000_0000_0000_03ff_e000u128 & 0x1fff_ffff_ffff_ffff_ffff_ffff_fc00_0000u128 == 0
        &&& 0x0000_0000_0000_0000_0000_0000_03ff_e000u128 & 0x1fff_ffff_ffff_ffff_ffff_ffff_ffff_e000u128 == 0x0000_0000_0000_0000_0000_0000_03ff_e000u128
        &&& 0x0000_0000_0000_0000_0000_0000_03ff_e000u128 & 0x1fff_ffff_ffff_ffff_ffff_ffff_ffff_ffffu128 == 0x0000_0000_0000_0000_0000_0000_03ff_e000u128
        &&& 0x0000_0000_0000_0000_0000_0000_0000_1fffu128 & 0x1fff_ff00_0000_0000_0000_0000_0000_0000u128 == 0
        &&& 0x0000_0000_0000_0000_0000_0000_0000_1fffu128 & 0x1fff_ffff_ffc0_0000_0000_0000_0000_0000u128 == 0
        &&& 0x0000_0000_0000_0000_0000_0000_0000_1fffu128 & 0x1fff_ffff_ffff_ffc0_0000_0000_0000_0000u128 == 0
        &&& 0x0000_0000_0000_0000_0000_0000_0000_1fffu128 & 0x1fff_ffff_ffff_ffff_ffc0_0000_0000_0000u128 == 0
        &&& 0x0000_0000_0000_0000_0000_0000_0000_1fffu128 & 0x1fff_ffff_ffff_ffff_ffff_ff00_0000_0000u128 == 0
        &&& 0x0000_0000_0000_0000_0000_0000_0000_1fffu128 & 0x1fff_ffff_ffff_ffff_ffff_ffff_fc00_0000u128 == 0
        &&& 0x0000_0000_0000_0000_0000_0000_0000_1fffu128 & 0x1fff_ffff_ffff_ffff_ffff_ffff_ffff_e000u128 == 0
        &&& 0x0000_0000_0000_0000_0000_0000_0000_1fffu128 & 0x1fff_ffff_ffff_ffff_ffff_ffff_ffff_ffffu128 == 0x0000_0000_0000_0000_0000_0000_0000_1fffu128
        &&& 0x1fff_ffff_ffc0_0000_0000_0000_0000_0000u128 == 0x1fff_ff00_0000_0000_0000_0000_0000_0000u128 | 0x0000_00ff_ffc0_0000_0000_0000_0000_0000u128
        &&& 0x1fff_ffff_ffff_ffc0_0000_0000_0000_0000u128 == 0x1fff_ffff_ffc0_0000_0000_0000_0000_0000u128 | 0x0000_0000_003f_ffc0_0000_0000_0000_0000u128
        &&& 0x1fff_ffff_ffff_ffff_ffc0_0000_0000_0000u128 == 0x1fff_ffff_ffff_ffc0_0000_0000_0000_0000u128 | 0x0000_0000_0000_003f_ffc0_0000_0000_0000u128
        &&& 0x1fff_ffff_ffff_ffff_ffff_ff00_0000_0000u128 == 0x1fff_ffff_ffff_ffff_ffc0_0000_0000_0000u128 | 0x0000_0000_0000_0000_003f_ff00_0000_0000u128
        &&& 0x1fff_ffff_ffff_ffff_ffff_ffff_fc00_0000u128 == 0x1fff_ffff_ffff_ffff_ffff_ff00_0000_0000u128 | 0x0000_0000_0000_0000_0000_00ff_fc00_0000u128
        &&& 0x1fff_ffff_ffff_ffff_ffff_ffff_ffff_e000u128 == 0x1fff_ffff_ffff_ffff_ffff_ffff_fc00_0000u128 | 0x0000_0000_0000_0000_0000_0000_03ff_e000u128
        &&& 0x1fff_ffff_ffff_ffff_ffff_ffff_ffff_ffffu128 == 0x1fff_ffff_ffff_ffff_ffff_ffff_ffff_e000u128 | 0x0000_0000_0000_0000_0000_0000_0000_1fffu128
        &&& 0x1fff_ff00_0000_0000_0000_0000_0000_0000u128 & 0xe000_0000_0000_0000_0000_0000_0000_0000u128 == 0
        &&& 0x1fff_ffff_ffc0_0000_0000_0000_0000_0000u128 & 0xe000_0000_0000_0000_0000_0000_0000_0000u128 == 0
        &&& 0x1fff_ffff_ffff_ffc0_0000_0000_0000_0000u128 & 0xe000_0000_0000_0000_0000_0000_0000_0000u128 == 0
        &&& 0x1fff_ffff_ffff_ffff_ffc0_0000_0000_0000u128 & 0xe000_0000_0000_0000_0000_0000_0000_0000u128 == 0
        &&& 0x1fff_ffff_ffff_ffff_ffff_ff00_0000_0000u128 & 0xe000_0000_0000_0000_0000_0000_0000_0000u128 == 0
        &&& 0x1fff_ffff_ffff_ffff_ffff_ffff_fc00_0000u128 & 0xe000_0000_0000_0000_0000_0000_0000_0000u128 == 0
        &&& 0x1fff_ffff_ffff_ffff_ffff_ffff_ffff_e000u128 & 0xe000_0000_0000_0000_0000_0000_0000_0000u128 == 0
        &&& 0x1fff_ffff_ffff_ffff_ffff_ffff_ffff_ffffu128 & 0xe000_0000_0000_0000_0000_0000_0000_0000u128 == 0
    }) by (bit_vector);
}

/// Prefix masks grow with the depth.
pub proof fn lemma_prefix_nested(d1: int, d2: int)
    requires
        0 <= d1 <= d2 < 8,
    ensures
        prefix_mask(d1) & prefix_mask(d2) == prefix_mask(d1),
{
    assert({
        &&& 0x1fff_ff00_0000_0000_0000_0000_0000_0000u128 & 0x1fff_ff00_0000_0000_0000_0000_0000_0000u128 == 0x1fff_ff00_0000_0000_0000_0000_0000_0000u128
        &&& 0x1fff_ff00_0000_0000_0000_0000_0000_0000u128 & 0x1fff_ffff_ffc0_0000_0000_0000_0000_0000u128 == 0x1fff_ff00_0000_0000_0000_0000_0000_0000u128
        &&& 0x1fff_ff00_0000_0000_0000_0000_0000_0000u128 & 0x1fff_ffff_ffff_ffc0_0000_0000_0000_0000u128 == 0x1fff_ff00_0000_0000_0000_0000_0000_0000u128
        &&& 0x1fff_ff00_0000_0000_0000_0000_0000_0000u128 & 0x1fff_ffff_ffff_ffff_ffc0_0000_0000_0000u128 == 0x1fff_ff00_0000_0000_0000_0000_0000_0000u128
        &&& 0x1fff_ff00_0000_0000_0000_0000_0000_0000u128 & 0x1fff_ffff_ffff_ffff_ffff_ff00_0000_0000u128 == 0x1fff_ff00_0000_0000_0000_0000_0000_0000u128
        &&& 0x1fff_ff00_0000_0000_0000_0000_0000_0000u128 & 0x1fff_ffff_ffff_ffff_ffff_ffff_fc00_0000u128 == 0x1fff_ff00_0000_0000_0000_0000_0000_0000u128
        &&& 0x1fff_ff00_0000_0000_0000_0000_0000_0000u128 & 0x1fff_ffff_ffff_ffff_ffff_ffff_ffff_e000u128 == 0x1fff_ff00_0000_0000_0000_0000_0000_0000u128
        &&& 0x1fff_ff00_0000_0000_0000_0000_0000_0000u128 & 0x1fff_ffff_ffff_ffff_ffff_ffff_ffff_ffffu128 == 0x1fff_ff00_0000_0000_0000_0000_0000_0000u128
        &&& 0x1fff_ffff_ffc0_0000_0000_0000_0000_0000u128 & 0x1fff_ffff_ffc0_0000_0000_0000_0000_0000u128 == 0x1fff_ffff_ffc0_0000_0000_0000_0000_0000u128
        &&& 0x1fff_ffff_ffc0_0000_0000_0000_0000_0000u128 & 0x1fff_ffff_ffff_ffc0_0000_0000_0000_0000u128 == 0x1fff_ffff_ffc0_0000_0000_0000_0000_0000u128
        &&& 0x1fff_ffff_ffc0_0000_0000_0000_0000_0000u128 & 0x1fff_ffff_ffff_ffff_ffc0_0000_0000_0000u128 == 0x1fff_ffff_ffc0_0000_0000_0000_0000_0000u128
        &&& 0x1fff_ffff_ffc0_0000_0000_0000_0000_0000u128 & 0x1fff_ffff_ffff_ffff_ffff_ff00_0000_0000u128 == 0x1fff_ffff_ffc0_0000_0000_0000_0000_0000u128
        &&& 0x1fff_ffff_ffc0_0000_0000_0000_0000_0000u128 & 0x1fff_ffff_ffff_ffff_ffff_ffff_fc00_0000u128 == 0x1fff_ffff_ffc0_0000_0000_0000_0000_0000u128
        &&& 0x1fff_ffff_ffc0_0000_0000_0000_0000_0000u128 & 0x1fff_ffff_ffff_ffff_ffff_ffff_ffff_e000u128 == 0x1fff_ffff_ffc0_0000_0000_0000_0000_0000u128
        &&& 0x1fff_ffff_ffc0_0000_0000_0000_0000_0000u128 & 0x1fff_ffff_ffff_ffff_ffff_ffff_ffff_ffffu128 == 0x1fff_ffff_ffc0_0000_0000_0000_0000_0000u128
        &&& 0x1fff_ffff_ffff_ffc0_0000_0000_0000_0000u128 & 0x1fff_ffff_ffff_ffc0_0000_0000_0000_0000u128 == 0x1fff_ffff_ffff_ffc0_0000_0000_0000_0000u128
        &&& 0x1fff_ffff_ffff_ffc0_0000_0000_0000_0000u128 & 0x1fff_ffff_ffff_ffff_ffc0_0000_0000_0000u128 == 0x1fff_ffff_ffff_ffc0_0000_0000_0000_0000u128
        &&& 0x1fff_ffff_ffff_ffc0_0000_0000_0000_0000u128 & 0x1fff_ffff_ffff_ffff_ffff_ff00_0000_0000u128 == 0x1fff_ffff_ffff_ffc0_0000_0000_0000_0000u128
        &&& 0x1fff_ffff_ffff_ffc0_0000_0000_0000_0000u128 & 0x1fff_ffff_ffff_ffff_ffff_ffff_fc00_0000u128 == 0x1fff_ffff_ffff_ffc0_0000_0000_0000_0000u128
        &&& 0x1fff_ffff_ffff_ffc0_0000_0000_0000_0000u128 & 0x1fff_ffff_ffff_ffff_ffff_ffff_ffff_e000u128 == 0x1fff_ffff_ffff_ffc0_0000_0000_0000_0000u128
        &&& 0x1fff_ffff_ffff_ffc0_0000_0000_0000_0000u128 & 0x1fff_ffff_ffff_ffff_ffff_ffff_ffff_ffffu128 == 0x1fff_ffff_ffff_ffc0_0000_0000_0000_0000u128
        &&& 0x1fff_ffff_ffff_ffff_ffc0_0000_0000_0000u128 & 0x1fff_ffff_ffff_ffff_ffc0_0000_0000_0000u128 == 0x1fff_ffff_ffff_ffff_ffc0_0000_0000_0000u128
        &&& 0x1fff_ffff_ffff_ffff_ffc0_0000_0000_0000u128 & 0x1fff_ffff_ffff_ffff_ffff_ff00_0000_0000u128 == 0x1fff_ffff_ffff_ffff_ffc0_0000_0000_0000u128
        &&& 0x1fff_ffff_ffff_ffff_ffc0_0000_0000_0000u128 & 0x1fff_ffff_ffff_ffff_ffff_ffff_fc00_0000u128 == 0x1fff_ffff_ffff_ffff_ffc0_0000_0000_0000u128
        &&& 0x1fff_ffff_ffff_ffff_ffc0_0000_0000_0000u128 & 0x1fff_ffff_ffff_ffff_ffff_ffff_ffff_e000u128 == 0x1fff_ffff_ffff_ffff_ffc0_0000_0000_0000u128
        &&& 0x1fff_ffff_ffff_ffff_ffc0_0000_0000_0000u128 & 0x1fff_ffff_ffff_ffff_ffff_ffff_ffff_ffffu128 == 0x1fff_ffff_ffff_ffff_ffc0_0000_0000_0000u128
        &&& 0x1fff_ffff_ffff_ffff_ffff_ff00_0000_0000u128 & 0x1fff_ffff_ffff_ffff_ffff_ff00_0000_0000u128 == 0x1fff_ffff_ffff_ffff_ffff_ff00_0000_0000u128
        &&& 0x1fff_ffff_ffff_ffff_ffff_ff00_0000_0000u128 & 0x1fff_ffff_ffff_ffff_ffff_ffff_fc00_0000u128 == 0x1fff_ffff_ffff_ffff_ffff_ff00_0000_0000u128
        &&& 0x1fff_ffff_ffff_ffff_ffff_ff00_0000_0000u128 & 0x1fff_ffff_ffff_ffff_ffff_ffff_ffff_e000u128 == 0x1fff_ffff_ffff_ffff_ffff_ff00_0000_0000u128
        &&& 0x1fff_ffff_ffff_ffff_ffff_ff00_0000_0000u128 & 0x1fff_ffff_ffff_ffff_ffff_ffff_ffff_ffffu128 == 0x1fff_ffff_ffff_ffff_ffff_ff00_0000_0000u128
        &&& 0x1fff_ffff_ffff_ffff_ffff_ffff_fc00_0000u128 & 0x1fff_ffff_ffff_ffff_ffff_ffff_fc00_0000u128 == 0x1fff_ffff_ffff_ffff_ffff_ffff_fc00_0000u128
        &&& 0x1fff_ffff_ffff_ffff_ffff_ffff_fc00_0000u128 & 0x1fff_ffff_ffff_ffff_ffff_ffff_ffff_e000u128 == 0x1fff_ffff_ffff_ffff_ffff_ffff_fc00_0000u128
        &&& 0x1fff_ffff_ffff_ffff_ffff_ffff_fc00_0000u128 & 0x1fff_ffff_ffff_ffff_ffff_ffff_ffff_ffffu128 == 0x1fff_ffff_ffff_ffff_ffff_ffff_fc00_0000u128
        &&& 0x1fff_ffff_ffff_ffff_ffff_ffff_ffff_e000u128 & 0x1fff_ffff_ffff_ffff_ffff_ffff_ffff_e000u128 == 0x1fff_ffff_ffff_ffff_ffff_ffff_ffff_e000u128
        &&& 0x1fff_ffff_ffff_ffff_ffff_ffff_ffff_e000u128 & 0x1fff_ffff_ffff_ffff_ffff_ffff_ffff_ffffu128 == 0x1fff_ffff_ffff_ffff_ffff_ffff_ffff_e000u128
        &&& 0x1fff_ffff_ffff_ffff_ffff_ffff_ffff_ffffu128 & 0x1fff_ffff_ffff_ffff_ffff_ffff_ffff_ffffu128 == 0x1fff_ffff_ffff_ffff_ffff_ffff_ffff_ffffu128
    }) by (bit_vector);
}

/// Two identifiers agree on the bits of a level exactly when they agree on
/// its field.
pub proof fn lemma_field_agreement(x: u128, y: u128, i: int)
    requires
        0 <= i < 8,
    ensures
        (x & level_mask(i) == y & level_mask(i)) <==> level_field(x, i) == level_field(y, i),
        (x & level_mask(i) == 0) <==> level_field(x, i) == 0,
{
    assert({
        &&& (x & 0x1fff_ff00_0000_0000_0000_0000_0000_0000u128 == y & 0x1fff_ff00_0000_0000_0000_0000_0000_0000u128) <==> ((x >> 104u128) & 0x1fffffu128 == (y >> 104u128) & 0x1fffffu128)
        &&& (x & 0x0000_00ff_ffc0_0000_0000_0000_0000_0000u128 == y & 0x0000_00ff_ffc0_0000_0000_0000_0000_0000u128) <==> ((x >> 86u128) & 0x3ffffu128 == (y >> 86u128) & 0x3ffffu128)
        &&& (x & 0x0000_0000_003f_ffc0_0000_0000_0000_0000u128 == y & 0x0000_0000_003f_ffc0_0000_0000_0000_0000u128) <==> ((x >> 70u128) & 0xffffu128 == (y >> 70u128) & 0xffffu128)
        &&& (x & 0x0000_0000_0000_003f_ffc0_0000_0000_0000u128 == y & 0x0000_0000_0000_003f_ffc0_0000_0000_0000u128) <==> ((x >> 54u128) & 0xffffu128 == (y >> 54u128) & 0xffffu128)
        &&& (x & 0x0000_0000_0000_0000_003f_ff00_0000_0000u128 == y & 0x0000_0000_0000_0000_003f_ff00_0000_0000u128) <==> ((x >> 40u128) & 0x3fffu128 == (y >> 40u128) & 0x3fffu128)
        &&& (x & 0x0000_0000_0000_0000_0000_00ff_fc00_0000u128 == y & 0x0000_0000_0000_0000_0000_00ff_fc00_0000u128) <==> ((x >> 26u128) & 0x3fffu128 == (y >> 26u128) & 0x3fffu128)
        &&& (x & 0x0000_0000_0000_0000_0000_0000_03ff_e000u128 == y & 0x0000_0000_0000_0000_0000_0000_03ff_e000u128) <==> ((x >> 13u128) & 0x1fffu128 == (y >> 13u128) & 0x1fffu128)
        &&& (x & 0x0000_0000_0000_0000_0000_0000_0000_1fffu128 == y & 0x0000_0000_0000_0000_0000_0000_0000_1fffu128) <==> ((x >> 0u128) & 0x1fffu128 == (y >> 0u128) & 0x1fffu128)
    }) by (bit_vector);
    assert({
        &&& (x & 0x1fff_ff00_0000_0000_0000_0000_0000_0000u128 == 0) <==> ((x >> 104u128) & 0x1fffffu128 == 0)
        &&& (x & 0x0000_00ff_ffc0_0000_0000_0000_0000_0000u128 == 0) <==> ((x >> 86u128) & 0x3ffffu128 == 0)
        &&& (x & 0x0000_0000_003f_ffc0_0000_0000_0000_0000u128 == 0) <==> ((x >> 70u128) & 0xffffu128 == 0)
        &&& (x & 0x0000_0000_0000_003f_ffc0_0000_0000_0000u128 == 0) <==> ((x >> 54u128) & 0xffffu128 == 0)
        &&& (x & 0x0000_0000_0000_0000_003f_ff00_0000_0000u128 == 0) <==> ((x >> 40u128) & 0x3fffu128 == 0)
        &&& (x & 0x0000_0000_0000_0000_0000_00ff_fc00_0000u128 == 0) <==> ((x >> 26u128) & 0x3fffu128 == 0)
        &&& (x & 0x0000_0000_0000_0000_0000_0000_03ff_e000u128 == 0) <==> ((x >> 13u128) & 0x1fffu128 == 0)
        &&& (x & 0x0000_0000_0000_0000_0000_0000_0000_1fffu128 == 0) <==> ((x >> 0u128) & 0x1fffu128 == 0)
    }) by (bit_vector);
}

/// Agreement under a mask carries over to every mask inside it.
pub proof fn lemma_agree_submask(x: u128, y: u128, big: u128, small: u128)
    requires
        x & big == y & big,
        small & big == small,
    ensures
        x & small == y & small,
{
    assert(x & small == y & small) by (bit_vector)
        requires
            x & big == y & big,
            small & big == small,
    ;
}

/// Agreement under two masks is agreement under their union.
pub proof fn lemma_agree_union(x: u128, y: u128, m1: u128, m2: u128)
    requires
        x & m1 == y & m1,
        x & m2 == y & m2,
    ensures
        x & (m1 | m2) == y & (m1 | m2),
{
    assert(x & (m1 | m2) == y & (m1 | m2)) by (bit_vector)
        requires
            x & m1 == y & m1,
            x & m2 == y & m2,
    ;
}

} // verus!
