//! Dot-separated paths: where their segments lie, and the identifier that a
//! path stands for.
//!
//! A path is text; its segments and its identifier are read off its UTF-8
//! bytes.  The byte `.` never occurs inside the encoding of another
//! character, so cutting at a dot always cuts between characters.

use vstd::prelude::*;
use vstd::slice::slice_subrange;
use vstd::string::StringSliceAdditionalSpecFns;
use vstd::utf8::{
    encode_utf8, encode_utf8_decode_utf8, encode_utf8_valid_utf8,
    is_char_boundary_iff_not_is_continuation_byte,
};
use crate::hash::{hierarchical_gid, segments_view, spec_hierarchical_gid};

verus! {

/// The byte that separates the segments of a path.
pub const DOT: u8 = 0x2e;

/// The positions of the dots in `bytes`, in increasing order.
pub open spec fn dot_positions(bytes: Seq<u8>) -> Seq<int>
    decreases bytes.len(),
{
    if bytes.len() == 0 {
        Seq::empty()
    } else if bytes.last() == 0x2e {
        dot_positions(bytes.drop_last()).push(bytes.len() - 1)
    } else {
        dot_positions(bytes.drop_last())
    }
}

/// Where segment `i` begins: at the start, or just after dot `i - 1`.
pub open spec fn segment_start(dots: Seq<int>, i: int) -> int {
    if i <= 0 {
        0
    } else {
        dots[i - 1] + 1
    }
}

/// Where segment `i` ends: at dot `i`, or at the end of the path.
pub open spec fn segment_end(dots: Seq<int>, len: int, i: int) -> int {
    if i < dots.len() {
        dots[i]
    } else {
        len
    }
}

/// The segments of a path: the stretches between its dots.  A path without
/// a dot is one segment, and so is the empty path.
pub open spec fn split_dots(bytes: Seq<u8>) -> Seq<Seq<u8>> {
    let dots = dot_positions(bytes);
    Seq::new(
        (dots.len() + 1) as nat,
        |i: int| bytes.subrange(segment_start(dots, i), segment_end(dots, bytes.len() as int, i)),
    )
}

/// The segments of a path given as text.
pub open spec fn path_segs(path: Seq<char>) -> Seq<Seq<u8>> {
    split_dots(encode_utf8(path))
}

/// The depth of a path: the number of its dots.
pub open spec fn path_depth(path: Seq<char>) -> nat {
    dot_positions(encode_utf8(path)).len()
}

/// The identifier that a path stands for.  It depends on the text of the
/// path and on nothing else.
pub open spec fn path_gid(path: Seq<char>) -> u128 {
    spec_hierarchical_gid(path_segs(path))
}

/// The positions as mathematical integers.
pub open spec fn as_ints(positions: Seq<usize>) -> Seq<int> {
    positions.map_values(|p: usize| p as int)
}

/// The dots lie inside the path, each on a dot byte, in strictly increasing
/// order, and none is left out.
pub proof fn lemma_dot_positions(bytes: Seq<u8>)
    ensures
        dot_positions(bytes).len() <= bytes.len(),
        forall|k: int|
            0 <= k < dot_positions(bytes).len() ==> 0 <= #[trigger] dot_positions(bytes)[k]
                < bytes.len() && bytes[dot_positions(bytes)[k]] == 0x2e,
        forall|j: int, k: int|
            0 <= j < k < dot_positions(bytes).len() ==> dot_positions(bytes)[j] < dot_positions(
                bytes,
            )[k],
        forall|p: int|
            0 <= p < bytes.len() && bytes[p] == 0x2e ==> dot_positions(bytes).contains(p),
    decreases bytes.len(),
{
    if bytes.len() > 0 {
        let rest = bytes.drop_last();
        lemma_dot_positions(rest);
        let dots = dot_positions(bytes);
        let inner = dot_positions(rest);
        assert forall|p: int| 0 <= p < bytes.len() && bytes[p] == 0x2e implies dots.contains(
            p,
        ) by {
            if p < bytes.len() - 1 {
                assert(rest[p] == bytes[p]);
                let k = choose|k: int| 0 <= k < inner.len() && inner[k] == p;
                assert(dots[k] == p);
            } else {
                assert(dots[dots.len() - 1] == p);
            }
        }
        assert forall|k: int| 0 <= k < dots.len() implies 0 <= #[trigger] dots[k] < bytes.len()
            && bytes[dots[k]] == 0x2e by {
            if k < inner.len() {
                assert(dots[k] == inner[k]);
                assert(rest[inner[k]] == bytes[inner[k]]);
            }
        }
    }
}

/// Finds the dots of a path.
pub fn find_dots(bytes: &[u8]) -> (dots: Vec<usize>)
    ensures
        as_ints(dots@) == dot_positions(bytes@),
{
    let mut dots: Vec<usize> = Vec::new();
    let mut i: usize = 0;
    while i < bytes.len()
        invariant
            i <= bytes@.len(),
            as_ints(dots@) =~= dot_positions(bytes@.take(i as int)),
        decreases bytes@.len() - i,
    {
        proof {
            assert(bytes@.take(i + 1).drop_last() =~= bytes@.take(i as int));
        }
        if bytes[i] == DOT {
            dots.push(i);
        }
        i += 1;
    }
    proof {
        assert(bytes@.take(i as int) =~= bytes@);
    }
    dots
}

/// Cuts a path into its segments.
pub fn path_segments<'a>(path: &'a str) -> (segments: Vec<&'a [u8]>)
    ensures
        segments_view(segments@) == split_dots(path.spec_bytes()),
        segments@.len() == dot_positions(path.spec_bytes()).len() + 1,
{
    let bytes: &[u8] = path.as_bytes();
    let dots: Vec<usize> = find_dots(bytes);
    proof {
        lemma_dot_positions(bytes@);
    }
    let ghost positions = dot_positions(bytes@);
    let mut segments: Vec<&[u8]> = Vec::new();
    let total: usize = bytes.len();
    let mut start: usize = 0;
    let mut i: usize = 0;
    while i < dots.len()
        invariant
            i <= dots@.len(),
            total == bytes@.len(),
            as_ints(dots@) == positions,
            positions == dot_positions(bytes@),
            positions.len() <= bytes@.len(),
            forall|k: int|
                0 <= k < positions.len() ==> 0 <= #[trigger] positions[k] < bytes@.len(),
            forall|j: int, k: int| 0 <= j < k < positions.len() ==> positions[j] < positions[k],
            start == segment_start(positions, i as int),
            start <= bytes@.len(),
            segments@.len() == i,
            forall|k: int|
                0 <= k < i ==> (#[trigger] segments@[k])@ == bytes@.subrange(
                    segment_start(positions, k),
                    segment_end(positions, bytes@.len() as int, k),
                ),
        decreases dots@.len() - i,
    {
        let end: usize = dots[i];
        assert(end as int == positions[i as int]) by {
            assert(as_ints(dots@)[i as int] == dots@[i as int] as int);
        }
        assert(end < bytes@.len());
        proof {
            if i > 0 {
                assert(positions[i - 1] < positions[i as int]);
            }
        }
        let piece: &[u8] = slice_subrange(bytes, start, end);
        segments.push(piece);
        start = end + 1;
        i += 1;
    }
    let last: &[u8] = slice_subrange(bytes, start, total);
    segments.push(last);
    proof {
        assert(segments_view(segments@) =~= split_dots(bytes@));
    }
    segments
}

/// Cutting a path at its `k`-th dot leaves a path whose dots are the first
/// `k` dots and whose segments are the first `k + 1` segments.
pub proof fn lemma_prefix_at_dot(bytes: Seq<u8>, k: int)
    requires
        0 <= k < dot_positions(bytes).len(),
    ensures
        0 <= dot_positions(bytes)[k] < bytes.len(),
        dot_positions(bytes.take(dot_positions(bytes)[k])) == dot_positions(bytes).take(k),
        split_dots(bytes.take(dot_positions(bytes)[k])) == split_dots(bytes).take(k + 1),
{
    let dots = dot_positions(bytes);
    lemma_dot_positions(bytes);
    let n = dots[k];
    let head = bytes.take(n);
    let inner = dot_positions(head);
    lemma_dot_positions(head);
    lemma_dots_of_take(bytes, n);
    let m = inner.len() as int;
    assert(inner == dots.take(m));
    if m > k {
        assert(inner[k] == dots[k]);
        assert(inner[k] < head.len());
    }
    if m < k {
        assert(dots[m] < dots[k]);
        assert(head[dots[m]] == bytes[dots[m]]);
        assert(inner.contains(dots[m]));
        let j = choose|j: int| 0 <= j < inner.len() && inner[j] == dots[m];
        assert(dots[j] == dots[m]);
    }
    assert(m == k);
    assert(split_dots(head) =~= split_dots(bytes).take(k + 1)) by {
        assert forall|i: int| 0 <= i < k + 1 implies split_dots(head)[i] == split_dots(
            bytes,
        )[i] by {
            let a = segment_start(dots, i);
            let b = segment_end(dots, bytes.len() as int, i);
            assert(segment_start(inner, i) == a);
            assert(segment_end(inner, head.len() as int, i) == b) by {
                if i < k {
                    assert(inner[i] == dots[i]);
                }
            }
            if i > 0 {
                assert(dots[i - 1] < dots[k]) by {
                    if i - 1 < k {
                    }
                }
            }
            if i < k {
                assert(dots[i] < dots[k]);
            }
            assert(head.subrange(a, b) =~= bytes.subrange(a, b));
        }
    }
}

/// The dots of the first `n` bytes of a path are the first of its dots.
pub proof fn lemma_dots_of_take(bytes: Seq<u8>, n: int)
    requires
        0 <= n <= bytes.len(),
    ensures
        dot_positions(bytes.take(n)).len() <= dot_positions(bytes).len(),
        dot_positions(bytes.take(n)) == dot_positions(bytes).take(
            dot_positions(bytes.take(n)).len() as int,
        ),
    decreases bytes.len(),
{
    if n == bytes.len() {
        assert(bytes.take(n) =~= bytes);
        assert(dot_positions(bytes).take(dot_positions(bytes).len() as int) =~= dot_positions(
            bytes,
        ));
    } else {
        let rest = bytes.drop_last();
        lemma_dots_of_take(rest, n);
        assert(rest.take(n) =~= bytes.take(n));
        let inner = dot_positions(rest.take(n));
        assert(dot_positions(bytes).take(inner.len() as int) =~= dot_positions(rest).take(
            inner.len() as int,
        ));
    }
}

/// Computes the identifier of a path, or nothing where the path has more
/// than eight segments.
pub fn gid_of_path(path: &str) -> (gid: Option<u128>)
    ensures
        gid is Some <==> path_depth(path@) < 8,
        gid is Some ==> gid->0 == path_gid(path@) && crate::layout::gid_well_formed(gid->0)
            && crate::layout::spec_depth_of(gid->0) == path_depth(path@),
{
    let segments: Vec<&[u8]> = path_segments(path);
    if segments.len() > 8 {
        None
    } else {
        Some(hierarchical_gid(segments.as_slice()))
    }
}

/// Different texts have different bytes.
pub proof fn lemma_bytes_determine_text(a: Seq<char>, b: Seq<char>)
    ensures
        encode_utf8(a) == encode_utf8(b) <==> a == b,
{
    encode_utf8_decode_utf8(a);
    encode_utf8_decode_utf8(b);
}

/// The part of a path before the dot at byte `end`.
pub fn prefix_before<'a>(path: &'a str, end: usize) -> (prefix: &'a str)
    requires
        end < path.spec_bytes().len(),
        path.spec_bytes()[end as int] == 0x2e,
    ensures
        prefix.spec_bytes() == path.spec_bytes().take(end as int),
{
    proof {
        encode_utf8_valid_utf8(path@);
        is_char_boundary_iff_not_is_continuation_byte(path.spec_bytes(), end as int);
    }
    let parts: (&str, &str) = path.split_at(end);
    parts.0
}

} // verus!
