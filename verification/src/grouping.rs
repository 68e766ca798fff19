//! Grouping the cells of a tag matrix by tag: one list of coordinates for
//! every tag that occurs, the lists in ascending order of their tags, the
//! cells of a list in row-major order.

use crate::input::{holds_the_tags, strictly_ascending, tag_occurs};
use crate::model::{ascending, has_shape, row_major_lt, Coords};
use crate::snapshot::rows_of;
use vstd::prelude::*;

verus! {

/// Cell `(r, c)` stands in the list that goes with `tag`.
pub open spec fn placed(
    labels: Seq<usize>,
    lists: Seq<Coords>,
    tag: usize,
    r: int,
    c: int,
) -> bool {
    exists|k: int|
        0 <= k < labels.len() && labels[k] == tag && (#[trigger] lists[k]).contains(
            (r as usize, c as usize),
        )
}

/// The cells before `(row, col)` are grouped: `labels` ascends strictly,
/// list `k` goes with tag `labels[k]`, is not empty and holds, in row-major
/// order, cells of that tag that come before `(row, col)`; and every cell
/// before `(row, col)` stands in the list that goes with its tag.
pub open spec fn grouped_to(
    tags: Seq<Seq<usize>>,
    labels: Seq<usize>,
    lists: Seq<Coords>,
    width: int,
    height: int,
    row: int,
    col: int,
) -> bool {
    &&& labels.len() == lists.len()
    &&& strictly_ascending(labels)
    &&& forall|k: int, i: int|
        0 <= k < lists.len() && 0 <= i < lists[k].len() ==> {
            let p = #[trigger] lists[k][i];
            &&& p.0 < height
            &&& p.1 < width
            &&& tags[p.0 as int][p.1 as int] == labels[k]
            &&& row_major_lt(p.0 as int, p.1 as int, row, col)
        }
    &&& forall|k: int|
        0 <= k < lists.len() ==> ascending(#[trigger] lists[k]) && lists[k].len() > 0
    &&& forall|r: int, c: int|
        0 <= r < height && 0 <= c < width && row_major_lt(r, c, row, col) ==> #[trigger] placed(
            labels,
            lists,
            tags[r][c],
            r,
            c,
        )
}

/// Entering cell `(row, col)` keeps the cells grouped, one cell further:
/// in the list of its tag if there is one, else in a new list put where its
/// tag belongs.
pub proof fn lemma_group_step(
    tags: Seq<Seq<usize>>,
    labels: Seq<usize>,
    lists: Seq<Coords>,
    width: int,
    height: int,
    row: int,
    col: int,
    index: int,
)
    requires
        0 <= row < height <= usize::MAX,
        0 <= col < width <= usize::MAX,
        grouped_to(tags, labels, lists, width, height, row, col),
        0 <= index <= labels.len(),
        forall|k: int| 0 <= k < index ==> labels[k] < tags[row][col],
        index < labels.len() ==> labels[index] >= tags[row][col],
    ensures
        index < labels.len() && labels[index] == tags[row][col] ==> grouped_to(
            tags,
            labels,
            lists.update(index, lists[index].push((row as usize, col as usize))),
            width,
            height,
            row,
            col + 1,
        ),
        !(index < labels.len() && labels[index] == tags[row][col]) ==> grouped_to(
            tags,
            labels.insert(index, tags[row][col]),
            lists.insert(index, seq![(row as usize, col as usize)]),
            width,
            height,
            row,
            col + 1,
        ),
{
    let tag = tags[row][col];
    let cell = (row as usize, col as usize);
    if index < labels.len() && labels[index] == tag {
        let next = lists.update(index, lists[index].push(cell));
        assert forall|k: int, i: int| 0 <= k < next.len() && 0 <= i < next[k].len() implies {
            let p = #[trigger] next[k][i];
            &&& p.0 < height
            &&& p.1 < width
            &&& tags[p.0 as int][p.1 as int] == labels[k]
            &&& row_major_lt(p.0 as int, p.1 as int, row, col + 1)
        } by {
            if k == index && i == lists[index].len() {
            } else {
                assert(next[k][i] == lists[k][i]);
            }
        }
        assert forall|k: int| 0 <= k < next.len() implies ascending(#[trigger] next[k])
            && next[k].len() > 0 by {
            assert(ascending(lists[k]));
            if k == index {
                assert forall|i: int, j: int| 0 <= i < j < next[k].len() implies row_major_lt(
                    (#[trigger] next[k][i]).0 as int,
                    next[k][i].1 as int,
                    (#[trigger] next[k][j]).0 as int,
                    next[k][j].1 as int,
                ) by {
                    assert(next[k][i] == lists[k][i]);
                    if j < lists[k].len() {
                        assert(next[k][j] == lists[k][j]);
                    }
                }
            }
        }
        assert forall|r: int, c: int|
            0 <= r < height && 0 <= c < width && row_major_lt(
                r,
                c,
                row,
                col + 1,
            ) implies #[trigger] placed(labels, next, tags[r][c], r, c) by {
            let p = (r as usize, c as usize);
            if r == row && c == col {
                assert(next[index][lists[index].len() as int] == p);
                assert(next[index].contains(p));
            } else {
                assert(placed(labels, lists, tags[r][c], r, c));
                let k = choose|k: int|
                    0 <= k < labels.len() && labels[k] == tags[r][c] && (
                    #[trigger] lists[k]).contains(p);
                let i = choose|i: int| 0 <= i < lists[k].len() && lists[k][i] == p;
                assert(next[k][i] == p);
                assert(next[k].contains(p));
            }
        }
    } else {
        let more = labels.insert(index, tag);
        let next = lists.insert(index, seq![cell]);
        assert forall|k: int| 0 <= k < labels.len() && k >= index implies tag < labels[k] by {
            if k > index {
                assert(labels[index] < labels[k]);
            }
        }
        assert forall|i: int, j: int| 0 <= i < j < more.len() implies more[i] < more[j] by {
            let a = if i < index {
                i
            } else {
                i - 1
            };
            let b = if j < index {
                j
            } else {
                j - 1
            };
            if i != index && j != index {
                assert(labels[a] < labels[b]);
            }
        }
        assert forall|k: int, i: int| 0 <= k < next.len() && 0 <= i < next[k].len() implies {
            let p = #[trigger] next[k][i];
            &&& p.0 < height
            &&& p.1 < width
            &&& tags[p.0 as int][p.1 as int] == more[k]
            &&& row_major_lt(p.0 as int, p.1 as int, row, col + 1)
        } by {
            if k < index {
                assert(next[k][i] == lists[k][i]);
            } else if k > index {
                assert(next[k][i] == lists[k - 1][i]);
            }
        }
        assert forall|k: int| 0 <= k < next.len() implies ascending(#[trigger] next[k])
            && next[k].len() > 0 by {
            if k < index {
                assert(next[k] == lists[k]);
            } else if k > index {
                assert(next[k] == lists[k - 1]);
            }
        }
        assert forall|r: int, c: int|
            0 <= r < height && 0 <= c < width && row_major_lt(
                r,
                c,
                row,
                col + 1,
            ) implies #[trigger] placed(more, next, tags[r][c], r, c) by {
            let p = (r as usize, c as usize);
            if r == row && c == col {
                assert(next[index][0] == p);
                assert(next[index].contains(p));
            } else {
                assert(placed(labels, lists, tags[r][c], r, c));
                let k = choose|k: int|
                    0 <= k < labels.len() && labels[k] == tags[r][c] && (
                    #[trigger] lists[k]).contains(p);
                let to = if k < index {
                    k
                } else {
                    k + 1
                };
                assert(next[to] == lists[k]);
                assert(more[to] == labels[k]);
                assert(next[to].contains(p));
            }
        }
    }
}

/// Once all cells are grouped, the labels are exactly the tags that occur.
pub proof fn lemma_grouped_holds_the_tags(
    tags: Seq<Seq<usize>>,
    labels: Seq<usize>,
    lists: Seq<Coords>,
    width: int,
    height: int,
)
    requires
        0 <= height,
        0 <= width,
        has_shape(tags, height as nat, width as nat),
        grouped_to(tags, labels, lists, width, height, height, 0),
    ensures
        holds_the_tags(tags, labels),
{
    assert forall|k: int| 0 <= k < labels.len() implies tag_occurs(
        tags,
        #[trigger] labels[k] as int,
    ) by {
        assert(lists[k].len() > 0);
        let p = lists[k][0];
        assert(tags[p.0 as int][p.1 as int] == labels[k]);
    }
    assert forall|r: int, c: int|
        0 <= r < tags.len() && 0 <= c < tags[r].len() implies labels.contains(
        #[trigger] tags[r][c],
    ) by {
        assert(row_major_lt(r, c, height, 0));
        assert(placed(labels, lists, tags[r][c], r, c));
        let k = choose|k: int|
            0 <= k < labels.len() && labels[k] == tags[r][c] && (#[trigger] lists[k]).contains(
                (r as usize, c as usize),
            );
        assert(labels[k] == tags[r][c]);
    }
}

/// The first place in `labels` whose tag is not below `tag`.
fn place_of(labels: &Vec<usize>, tag: usize) -> (index: usize)
    ensures
        index <= labels@.len(),
        forall|k: int| 0 <= k < index ==> labels@[k] < tag,
        index < labels@.len() ==> labels@[index as int] >= tag,
{
    let mut index: usize = 0;
    while index < labels.len() && labels[index] < tag
        invariant
            index <= labels@.len(),
            forall|k: int| 0 <= k < index ==> labels@[k] < tag,
        decreases labels@.len() - index,
    {
        index = index + 1;
    }
    index
}

/// The tags that occur in the matrix, ascending, and for each of them the
/// cells that carry it, in row-major order.
pub fn group_by_tag(width: usize, height: usize, regions: &Vec<Vec<usize>>) -> (grouped: (
    Vec<usize>,
    Vec<Vec<(usize, usize)>>,
))
    requires
        has_shape(rows_of(regions@), height as nat, width as nat),
    ensures
        grouped_to(
            rows_of(regions@),
            grouped.0@,
            rows_of(grouped.1@),
            width as int,
            height as int,
            height as int,
            0,
        ),
        holds_the_tags(rows_of(regions@), grouped.0@),
{
    let ghost tags = rows_of(regions@);
    let mut labels: Vec<usize> = Vec::new();
    let mut lists: Vec<Vec<(usize, usize)>> = Vec::new();
    for row in 0..height
        invariant
            tags == rows_of(regions@),
            has_shape(tags, height as nat, width as nat),
            grouped_to(tags, labels@, rows_of(lists@), width as int, height as int, row as int, 0),
    {
        for col in 0..width
            invariant
                row < height,
                tags == rows_of(regions@),
                has_shape(tags, height as nat, width as nat),
                grouped_to(
                    tags,
                    labels@,
                    rows_of(lists@),
                    width as int,
                    height as int,
                    row as int,
                    col as int,
                ),
        {
            proof {
                assert(tags[row as int].len() == width);
                assert(tags[row as int] == regions@[row as int]@);
            }
            let tag = regions[row][col];
            let index = place_of(&labels, tag);
            let ghost before = rows_of(lists@);
            proof {
                lemma_group_step(
                    tags,
                    labels@,
                    before,
                    width as int,
                    height as int,
                    row as int,
                    col as int,
                    index as int,
                );
            }
            if index < labels.len() && labels[index] == tag {
                lists[index].push((row, col));
                proof {
                    assert(rows_of(lists@) =~= before.update(
                        index as int,
                        before[index as int].push((row, col)),
                    ));
                }
            } else {
                let mut list: Vec<(usize, usize)> = Vec::new();
                list.push((row, col));
                labels.insert(index, tag);
                lists.insert(index, list);
                proof {
                    assert(list@ =~= seq![(row, col)]);
                    assert(rows_of(lists@) =~= before.insert(index as int, seq![(row, col)]));
                }
            }
        }
        proof {
            let lists_now = rows_of(lists@);
            assert forall|k: int, i: int|
                0 <= k < lists_now.len() && 0 <= i < lists_now[k].len() implies row_major_lt(
                (#[trigger] lists_now[k][i]).0 as int,
                lists_now[k][i].1 as int,
                row + 1,
                0,
            ) by {}
            assert forall|r: int, c: int|
                0 <= r < height && 0 <= c < width && row_major_lt(
                    r,
                    c,
                    row + 1,
                    0,
                ) implies #[trigger] placed(labels@, lists_now, tags[r][c], r, c) by {
                assert(row_major_lt(r, c, row as int, width as int));
            }
        }
    }
    proof {
        lemma_grouped_holds_the_tags(
            tags,
            labels@,
            rows_of(lists@),
            width as int,
            height as int,
        );
    }
    (labels, lists)
}

} // verus!
