//! The tag matrix: what the constructor accepts, and the place of a tag
//! among the tags that occur.

use crate::model::has_shape;
use vstd::prelude::*;

verus! {

/// Some cell of the matrix carries tag `t`.
pub open spec fn tag_occurs(tags: Seq<Seq<usize>>, t: int) -> bool {
    exists|r: int, c: int|
        0 <= r < tags.len() && 0 <= c < tags[r].len() && #[trigger] tags[r][c] == t
}

/// How many of the tags that occur in the matrix lie below `t`. For a tag
/// that occurs, this is its place among the occurring tags in ascending
/// order, counted from 0, and so the index of the list of its region.
#[verifier::opaque]
pub open spec fn tag_rank(tags: Seq<Seq<usize>>, t: int) -> nat
    decreases t,
{
    if t <= 0 {
        0
    } else {
        tag_rank(tags, t - 1) + if tag_occurs(tags, t - 1) {
            1nat
        } else {
            0nat
        }
    }
}

/// What the constructor accepts: positive dimensions whose product fits a
/// machine word, and a tag matrix of these dimensions. The tags themselves
/// are free: they need not start at 0 nor be contiguous.
pub open spec fn valid_input(width: nat, height: nat, tags: Seq<Seq<usize>>) -> bool {
    &&& width > 0
    &&& height > 0
    &&& width * height <= usize::MAX
    &&& has_shape(tags, height, width)
}

/// `labels` ascends strictly.
pub open spec fn strictly_ascending(labels: Seq<usize>) -> bool {
    forall|i: int, j: int| 0 <= i < j < labels.len() ==> labels[i] < labels[j]
}

/// `labels` holds exactly the tags that occur in the matrix.
pub open spec fn holds_the_tags(tags: Seq<Seq<usize>>, labels: Seq<usize>) -> bool {
    &&& forall|k: int| 0 <= k < labels.len() ==> tag_occurs(tags, #[trigger] labels[k] as int)
    &&& forall|r: int, c: int|
        0 <= r < tags.len() && 0 <= c < tags[r].len() ==> labels.contains(#[trigger] tags[r][c])
}

/// The rank of a tag is the rank of the number before it, and one more if
/// that number occurs as a tag; nothing lies below 0.
pub proof fn lemma_rank_unfold(tags: Seq<Seq<usize>>, t: int)
    ensures
        t <= 0 ==> tag_rank(tags, t) == 0,
        t > 0 ==> tag_rank(tags, t) == tag_rank(tags, t - 1) + if tag_occurs(tags, t - 1) {
            1nat
        } else {
            0nat
        },
{
    reveal_with_fuel(tag_rank, 2);
}

/// The rank does not fall as the tag grows.
pub proof fn lemma_rank_monotone(tags: Seq<Seq<usize>>, a: int, b: int)
    requires
        a <= b,
    ensures
        tag_rank(tags, a) <= tag_rank(tags, b),
    decreases b - a,
{
    if a < b {
        lemma_rank_monotone(tags, a, b - 1);
        lemma_rank_unfold(tags, a);
        lemma_rank_unfold(tags, b);
    }
}

/// Of two tags that occur, the smaller has the smaller rank: the lists of
/// the regions stand in ascending order of their tags, and two cells have
/// the same rank only if they have the same tag.
pub proof fn lemma_rank_strict(tags: Seq<Seq<usize>>, a: int, b: int)
    requires
        0 <= a < b,
        tag_occurs(tags, a),
    ensures
        tag_rank(tags, a) < tag_rank(tags, b),
{
    lemma_rank_unfold(tags, a + 1);
    lemma_rank_monotone(tags, a + 1, b);
}

/// Where no tag from `a` up to `b` occurs, the rank stays.
pub proof fn lemma_rank_gap(tags: Seq<Seq<usize>>, a: int, b: int)
    requires
        a <= b,
        forall|u: int| a <= u < b ==> !tag_occurs(tags, u),
    ensures
        tag_rank(tags, b) == tag_rank(tags, a),
    decreases b - a,
{
    if a < b {
        lemma_rank_gap(tags, a, b - 1);
        assert(!tag_occurs(tags, b - 1));
        lemma_rank_unfold(tags, a);
        lemma_rank_unfold(tags, b);
    }
}

/// In a strictly ascending list of exactly the tags that occur, every tag
/// stands at its rank.
pub proof fn lemma_rank_of_label(tags: Seq<Seq<usize>>, labels: Seq<usize>, i: int)
    requires
        strictly_ascending(labels),
        holds_the_tags(tags, labels),
        0 <= i < labels.len(),
    ensures
        tag_rank(tags, labels[i] as int) == i,
    decreases i,
{
    let from = if i == 0 {
        0int
    } else {
        labels[i - 1] + 1
    };
    assert forall|u: int| from <= u < labels[i] implies !tag_occurs(tags, u) by {
        if tag_occurs(tags, u) {
            let (r, c) = choose|r: int, c: int|
                0 <= r < tags.len() && 0 <= c < tags[r].len() && #[trigger] tags[r][c] == u;
            assert(labels.contains(tags[r][c]));
            let k = choose|k: int| 0 <= k < labels.len() && labels[k] == tags[r][c];
            if k < i {
                if i > 0 && k < i - 1 {
                    assert(labels[k] < labels[i - 1]);
                }
            } else if k > i {
                assert(labels[i] < labels[k]);
            }
        }
    }
    lemma_rank_gap(tags, from, labels[i] as int);
    if i > 0 {
        lemma_rank_of_label(tags, labels, i - 1);
        assert(tag_occurs(tags, labels[i - 1] as int));
        lemma_rank_unfold(tags, labels[i - 1] + 1);
    } else {
        lemma_rank_unfold(tags, 0);
    }
}

} // verus!
