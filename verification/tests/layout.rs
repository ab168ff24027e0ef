use bevy_tag::{
    depth_of, encode_gid, gid_is_descendant_of, is_sibling, parent_of, DEPTH_BITS, DEPTH_MASK,
    DEPTH_SHIFT, LEVEL_MASKS, LEVEL_OFFSETS, LEVEL_WIDTHS, MAX_DEPTH, ROOT_GID,
};

#[test]
fn layout_constants_are_valid() {
    let total: u16 = LEVEL_WIDTHS.iter().map(|&w| w as u16).sum();
    assert_eq!(total, 125);

    for i in 0..MAX_DEPTH {
        let level_mask = ((1u128 << LEVEL_WIDTHS[i]) - 1) << LEVEL_OFFSETS[i];
        assert_eq!(level_mask & DEPTH_MASK, 0, "level {} overlaps with depth bits", i);
    }
}

#[test]
fn depth_extraction_works() {
    for d in 0..8u8 {
        let gid = encode_gid(0x123456, d);
        assert_eq!(depth_of(gid), d);
    }
}

#[test]
fn is_descendant_works() {
    let parent_payload = 0x100000u128 << LEVEL_OFFSETS[0];
    let parent = encode_gid(parent_payload, 0);

    let child_payload = parent_payload | (0x20000u128 << LEVEL_OFFSETS[1]);
    let child = encode_gid(child_payload, 1);

    let other_payload = 0x200000u128 << LEVEL_OFFSETS[0];
    let other = encode_gid(other_payload, 0);

    assert!(gid_is_descendant_of(child, parent), "child should be descendant of parent");
    assert!(!gid_is_descendant_of(other, parent), "other should not be descendant of parent");
    assert!(gid_is_descendant_of(parent, parent), "node is descendant of itself");
}

#[test]
fn masks_include_depth() {
    for i in 0..MAX_DEPTH {
        assert_eq!(
            LEVEL_MASKS[i] & DEPTH_MASK,
            DEPTH_MASK,
            "mask {} should include depth bits",
            i
        );
    }
}

#[test]
fn parent_of_works() {
    let level0 = encode_gid(0x100000u128 << LEVEL_OFFSETS[0], 0);
    assert!(parent_of(level0).is_none(), "root has no parent");

    let level1 = encode_gid(
        (0x100000u128 << LEVEL_OFFSETS[0]) | (0x20000u128 << LEVEL_OFFSETS[1]),
        1,
    );
    let parent = parent_of(level1).unwrap();
    assert_eq!(depth_of(parent), 0);
    assert!(gid_is_descendant_of(level1, parent));
}

#[test]
fn deep_hierarchy_fits() {
    let mut payload: u128 = 0;
    for level in 0..MAX_DEPTH {
        let width = LEVEL_WIDTHS[level];
        let offset = LEVEL_OFFSETS[level];
        let max_val = (1u128 << width) - 1;
        payload |= max_val << offset;
    }

    assert_eq!(payload & DEPTH_MASK, 0, "payload should not touch depth bits");

    let gid = encode_gid(payload, 7);
    assert_eq!(depth_of(gid), 7);

    let ancestor = encode_gid(payload & LEVEL_MASKS[0] & !DEPTH_MASK, 0);
    assert!(gid_is_descendant_of(gid, ancestor));
}

#[test]
fn constants_have_their_values() {
    assert_eq!(ROOT_GID, 0);
    assert_eq!(MAX_DEPTH, 8);
    assert_eq!(DEPTH_BITS, 3);
    assert_eq!(DEPTH_SHIFT, 125);
    assert_eq!(DEPTH_MASK, 0b111u128 << 125);
    assert_eq!(LEVEL_WIDTHS, [21, 18, 16, 16, 14, 14, 13, 13]);
    assert_eq!(LEVEL_OFFSETS, [104, 86, 70, 54, 40, 26, 13, 0]);
}

#[test]
fn offsets_and_masks_follow_from_widths() {
    let mut below: u32 = 125;
    for i in 0..MAX_DEPTH {
        below -= LEVEL_WIDTHS[i] as u32;
        assert_eq!(LEVEL_OFFSETS[i] as u32, below);
        let mut mask = DEPTH_MASK;
        for j in 0..=i {
            mask |= ((1u128 << LEVEL_WIDTHS[j]) - 1) << LEVEL_OFFSETS[j];
        }
        assert_eq!(LEVEL_MASKS[i], mask);
    }
    assert_eq!(LEVEL_MASKS[7], u128::MAX);
}

#[test]
fn encode_gid_exact_value() {
    assert_eq!(encode_gid(0x123456, 0), 0x123456);
    assert_eq!(encode_gid(0x123456, 5), 0xa000_0000_0000_0000_0000_0000_0012_3456);
    assert_eq!(encode_gid(0, 7), DEPTH_MASK);
}

#[test]
fn depth_round_trip_for_every_depth() {
    let payloads = [0u128, 1, 0x123456, (1u128 << 125) - 1];
    for payload in payloads {
        for d in 0..8u8 {
            let gid = encode_gid(payload, d);
            assert_eq!(depth_of(gid), d);
            assert_eq!(gid & !DEPTH_MASK, payload);
        }
    }
}

#[test]
fn parent_of_exact_value() {
    let l0 = 0x1abcdu128 << LEVEL_OFFSETS[0];
    let l1 = 0x2345u128 << LEVEL_OFFSETS[1];
    let l2 = 0x77u128 << LEVEL_OFFSETS[2];
    let node = encode_gid(l0 | l1 | l2, 2);
    assert_eq!(parent_of(node), Some(encode_gid(l0 | l1, 1)));
    assert_eq!(parent_of(encode_gid(l0 | l1, 1)), Some(encode_gid(l0, 0)));
    assert_eq!(parent_of(encode_gid(l0, 0)), None);
}

#[test]
fn sibling_rules() {
    let l0 = 0x1abcdu128 << LEVEL_OFFSETS[0];
    let other0 = 0x1abceu128 << LEVEL_OFFSETS[0];
    let a = encode_gid(l0 | (0x11u128 << LEVEL_OFFSETS[1]), 1);
    let b = encode_gid(l0 | (0x22u128 << LEVEL_OFFSETS[1]), 1);
    let c = encode_gid(other0 | (0x22u128 << LEVEL_OFFSETS[1]), 1);
    assert!(is_sibling(a, b));
    assert!(is_sibling(a, a));
    assert!(!is_sibling(a, c));
    // Roots are siblings of each other.
    assert!(is_sibling(encode_gid(l0, 0), encode_gid(other0, 0)));
    // Different depths are never siblings.
    assert!(!is_sibling(encode_gid(l0, 0), a));
}

#[test]
fn descendant_is_reflexive_and_transitive() {
    let l0 = 0x1abcdu128 << LEVEL_OFFSETS[0];
    let l1 = 0x2345u128 << LEVEL_OFFSETS[1];
    let l2 = 0x77u128 << LEVEL_OFFSETS[2];
    let c = encode_gid(l0, 0);
    let b = encode_gid(l0 | l1, 1);
    let a = encode_gid(l0 | l1 | l2, 2);
    for x in [a, b, c, 0u128, u128::MAX] {
        assert!(gid_is_descendant_of(x, x));
    }
    assert!(gid_is_descendant_of(a, b));
    assert!(gid_is_descendant_of(b, c));
    assert!(gid_is_descendant_of(a, c));
    // A node never descends from one of its strict descendants.
    assert!(!gid_is_descendant_of(c, b));
    assert!(!gid_is_descendant_of(c, a));
    assert!(!gid_is_descendant_of(b, a));
}

#[test]
fn transitivity_is_a_law_of_well_formed_identifiers() {
    // `b` and `a` claim depth 0 and yet carry a field at level 1: they are
    // not well formed, and the chain a -> b -> c does not close.
    let l0 = 1u128 << LEVEL_OFFSETS[0];
    let a = encode_gid(l0 | (7u128 << LEVEL_OFFSETS[1]), 0);
    let b = encode_gid(l0 | (5u128 << LEVEL_OFFSETS[1]), 0);
    let c = encode_gid(l0 | (5u128 << LEVEL_OFFSETS[1]), 1);
    assert!(gid_is_descendant_of(a, b));
    assert!(gid_is_descendant_of(b, c));
    assert!(!gid_is_descendant_of(a, c));
}
