use bevy_tag::{
    depth_of, fnv1a_64, gid_is_descendant_of, hierarchical_gid, hierarchical_gid_with_layout,
    segment_hash, LEVEL_OFFSETS, LEVEL_WIDTHS, MAX_DEPTH,
};

#[test]
fn fnv_basic_sanity() {
    assert_ne!(fnv1a_64(b"hello"), fnv1a_64(b"world"));
    assert_eq!(fnv1a_64(b"hello"), fnv1a_64(b"hello"));
}

#[test]
fn segment_hash_never_zero() {
    let inputs = [b"a" as &[u8], b"b", b"foo", b"bar", b"Movement"];
    for width in [4, 8, 10, 12, 13, 14, 16, 18, 21] {
        for input in &inputs {
            assert_ne!(
                segment_hash(input, width),
                0,
                "got 0 for {:?} at width {}",
                input,
                width
            );
        }
    }
}

#[test]
fn hierarchical_gid_has_correct_depth() {
    let gid1 = hierarchical_gid(&[b"Movement"]);
    assert_eq!(depth_of(gid1), 0, "single segment should have depth 0");

    let gid2 = hierarchical_gid(&[b"Movement", b"Idle"]);
    assert_eq!(depth_of(gid2), 1, "two segments should have depth 1");

    let gid3 = hierarchical_gid(&[b"A", b"B", b"C", b"D"]);
    assert_eq!(depth_of(gid3), 3, "four segments should have depth 3");
}

#[test]
fn hierarchical_gid_parent_is_prefix() {
    let parent = hierarchical_gid(&[b"Movement"]);
    let child = hierarchical_gid(&[b"Movement", b"Idle"]);

    assert!(
        gid_is_descendant_of(child, parent),
        "child should be descendant of parent"
    );

    assert_ne!(parent, child);
}

#[test]
fn gid_stability() {
    let gid1 = hierarchical_gid(&[b"A", b"B", b"C"]);
    let gid2 = hierarchical_gid(&[b"A", b"B", b"C"]);
    assert_eq!(gid1, gid2);

    let gid3 = hierarchical_gid(&[b"A", b"B", b"D"]);
    assert_ne!(gid1, gid3);
}

#[test]
fn deep_hierarchy_works() {
    let segments: [&[u8]; MAX_DEPTH] = [b"L0", b"L1", b"L2", b"L3", b"L4", b"L5", b"L6", b"L7"];

    let gid = hierarchical_gid(&segments);

    assert_eq!(depth_of(gid), 7);

    for level in 0..MAX_DEPTH {
        let width = LEVEL_WIDTHS[level];
        let offset = LEVEL_OFFSETS[level];
        let mask = ((1u128 << width) - 1) << offset;
        let level_bits = gid & mask;
        assert_ne!(level_bits, 0, "level {} should have non-zero bits", level);
    }
}

#[test]
fn descendant_chain_works() {
    let l0 = hierarchical_gid(&[b"A"]);
    let l1 = hierarchical_gid(&[b"A", b"B"]);
    let l2 = hierarchical_gid(&[b"A", b"B", b"C"]);
    let l3 = hierarchical_gid(&[b"A", b"B", b"C", b"D"]);

    assert!(gid_is_descendant_of(l1, l0));
    assert!(gid_is_descendant_of(l2, l0));
    assert!(gid_is_descendant_of(l3, l0));

    assert!(gid_is_descendant_of(l2, l1));
    assert!(gid_is_descendant_of(l3, l1));

    assert!(gid_is_descendant_of(l3, l2));

    assert!(!gid_is_descendant_of(l0, l1));
    assert!(!gid_is_descendant_of(l1, l2));

    let other = hierarchical_gid(&[b"X"]);
    assert!(!gid_is_descendant_of(other, l0));
    assert!(!gid_is_descendant_of(l0, other));
}

#[test]
fn fnv_known_values() {
    assert_eq!(fnv1a_64(b""), 0xcbf2_9ce4_8422_2325);
    assert_eq!(fnv1a_64(b"a"), 0xaf63_dc4c_8601_ec8c);
    assert_eq!(fnv1a_64(b"hello"), 0xa430_d846_80aa_bd0b);
}

#[test]
fn segment_hash_exact_values() {
    assert_eq!(segment_hash(b"Movement", 21), 0x3639e);
    // The low four bits of the folded hash of "z7" are zero: one stands in.
    assert_eq!(segment_hash(b"z7", 4), 1);
}

#[test]
fn segment_hash_fits_its_width() {
    let inputs = [b"" as &[u8], b"a", b"Movement", b"z7", b"\xff\x00"];
    for width in 1..=64u8 {
        for input in &inputs {
            let value = segment_hash(input, width);
            assert_ne!(value, 0);
            if width < 64 {
                assert!(value < (1u128 << width));
            } else {
                assert!(value <= u64::MAX as u128);
            }
        }
    }
}

#[test]
fn hierarchical_gid_exact_values() {
    assert_eq!(hierarchical_gid(&[b"Movement"]), 0x0363_9e00_0000_0000_0000_0000_0000_0000);
    assert_eq!(
        hierarchical_gid(&[b"Movement", b"Idle"]),
        0x2363_9e60_5a00_0000_0000_0000_0000_0000
    );
    assert_eq!(
        hierarchical_gid(&[b"A", b"B", b"C"]),
        0x479d_a1e5_1226_c7c0_0000_0000_0000_0000
    );
}

#[test]
fn hierarchical_gid_is_built_from_segment_hashes() {
    let segments: [&[u8]; 3] = [b"Combat", b"Attack", b"Melee"];
    let mut expected: u128 = 2u128 << 125;
    for i in 0..3 {
        expected |= segment_hash(segments[i], LEVEL_WIDTHS[i]) << LEVEL_OFFSETS[i];
    }
    assert_eq!(hierarchical_gid(&segments), expected);
}

#[test]
fn hierarchical_gid_with_layout_ignores_the_tables() {
    let segments: [&[u8]; 2] = [b"Movement", b"Idle"];
    assert_eq!(
        hierarchical_gid_with_layout(&segments, &[1, 2, 3], &[9, 9]),
        hierarchical_gid(&segments)
    );
    assert_eq!(
        hierarchical_gid_with_layout(&segments, &LEVEL_WIDTHS, &LEVEL_OFFSETS),
        hierarchical_gid(&segments)
    );
}
