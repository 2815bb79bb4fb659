//! Areas made of several rectangles.

use crate::geometry::{Point, Rect, Size, min_of, sat_add, sat_sub};
use vstd::prelude::*;

verus! {

/// Some rectangle of the list covers the pixel.
pub open spec fn covered(rects: Seq<Rect>, x: int, y: int) -> bool {
    exists|i: int| 0 <= i < rects.len() && (#[trigger] rects[i]).covers(x, y)
}

/// No rectangle has a negative extent.
pub open spec fn all_valid(rects: Seq<Rect>) -> bool {
    forall|i: int| 0 <= i < rects.len() ==> (#[trigger] rects[i]).valid()
}

/// No pixel belongs to two rectangles of the list.
pub open spec fn disjoint(rects: Seq<Rect>) -> bool {
    forall|i: int, j: int, x: int, y: int|
        #![trigger rects[i].covers(x, y), rects[j].covers(x, y)]
        0 <= i < j < rects.len() ==> !(rects[i].covers(x, y) && rects[j].covers(x, y))
}

/// `left` covers the pixels that `rects` cover and `others` do not.
pub open spec fn is_difference(left: Seq<Rect>, rects: Seq<Rect>, others: Seq<Rect>) -> bool {
    forall|x: int, y: int| #[trigger]
        covered(left, x, y) <==> covered(rects, x, y) && !covered(others, x, y)
}

/// `item` cut along the edges of `other`, without the part they share: the
/// strips above, left of, right of and below it, in this order.
fn pieces_around(item: Rect, other: Rect, common: Rect) -> (pieces: Vec<Rect>)
    requires
        item.valid(),
        other.valid(),
        item.clip(other) == Some(common),
    ensures
        all_valid(pieces@),
        disjoint(pieces@),
        forall|x: int, y: int| #[trigger]
            covered(pieces@, x, y) <==> item.covers(x, y) && !other.covers(x, y),
{
    let item_right: i32 = sat_add(item.loc.x, item.size.w);
    let item_bottom: i32 = sat_add(item.loc.y, item.size.h);
    let common_right: i32 = sat_add(common.loc.x, common.size.w);
    let common_bottom: i32 = sat_add(common.loc.y, common.size.h);
    assert(common_right == min_of(item.right(), other.right()));
    assert(common_bottom == min_of(item.bottom(), other.bottom()));
    let top = Rect {
        loc: item.loc,
        size: Size { w: item.size.w, h: sat_sub(common.loc.y, item.loc.y) },
    };
    let left = Rect {
        loc: Point { x: item.loc.x, y: common.loc.y },
        size: Size { w: sat_sub(common.loc.x, item.loc.x), h: common.size.h },
    };
    let right = Rect {
        loc: Point { x: common_right, y: common.loc.y },
        size: Size { w: sat_sub(item_right, common_right), h: common.size.h },
    };
    let bottom = Rect {
        loc: Point { x: item.loc.x, y: common_bottom },
        size: Size { w: item.size.w, h: sat_sub(item_bottom, common_bottom) },
    };
    assert(top.valid() && left.valid() && right.valid() && bottom.valid());
    assert(top.bottom() == common.loc.y);
    assert(left.right() == common.loc.x);
    assert(right.right() == item_right);
    assert(bottom.bottom() == item_bottom);
    assert(left.bottom() == common_bottom);
    let mut pieces: Vec<Rect> = Vec::new();
    if !top.is_empty() {
        pieces.push(top);
    }
    let ghost n1 = pieces@.len();
    if !left.is_empty() {
        pieces.push(left);
    }
    let ghost n2 = pieces@.len();
    if !right.is_empty() {
        pieces.push(right);
    }
    let ghost n3 = pieces@.len();
    if !bottom.is_empty() {
        pieces.push(bottom);
    }
    proof {
        assert forall|x: int, y: int| #[trigger] covered(pieces@, x, y) <==> item.covers(x, y)
            && !other.covers(x, y) by {
            if top.covers(x, y) {
                assert(pieces@[0] == top);
            }
            if left.covers(x, y) {
                assert(pieces@[n1 as int] == left);
            }
            if right.covers(x, y) {
                assert(pieces@[n2 as int] == right);
            }
            if bottom.covers(x, y) {
                assert(pieces@[n3 as int] == bottom);
            }
            assert((top.covers(x, y) || left.covers(x, y) || right.covers(x, y) || bottom.covers(
                x,
                y,
            )) <==> item.covers(x, y) && !other.covers(x, y));
            if covered(pieces@, x, y) {
                let i = choose|i: int| 0 <= i < pieces@.len() && (#[trigger] pieces@[i]).covers(x, y);
                assert(pieces@[i] == top || pieces@[i] == left || pieces@[i] == right || pieces@[i]
                    == bottom);
            }
        }
    }
    pieces
}

/// What is left of `rects` once `hole` is cut out of each.
fn subtract_rect(rects: Vec<Rect>, hole: Rect) -> (left: Vec<Rect>)
    requires
        all_valid(rects@),
        hole.valid(),
    ensures
        all_valid(left@),
        disjoint(rects@) ==> disjoint(left@),
        forall|x: int, y: int| #[trigger]
            covered(left@, x, y) <==> covered(rects@, x, y) && !hole.covers(x, y),
{
    let mut kept: Vec<Rect> = Vec::new();
    let mut cut: Vec<Rect> = Vec::new();
    let mut i: usize = 0;
    let ghost empty = rects@.subrange(0, 0);
    while i < rects.len()
        invariant
            i <= rects.len(),
            all_valid(rects@),
            hole.valid(),
            all_valid(kept@),
            all_valid(cut@),
            forall|x: int, y: int| #[trigger]
                covered(kept@ + cut@, x, y) <==> covered(rects@.subrange(0, i as int), x, y)
                    && !hole.covers(x, y),
            disjoint(rects@) ==> disjoint(kept@ + cut@),
        decreases rects.len() - i,
    {
        let item = rects[i];
        let ghost done = rects@.subrange(0, i as int);
        let ghost next = rects@.subrange(0, i + 1);
        let ghost before = kept@ + cut@;
        let ghost kept_before = kept@;
        let ghost cut_before = cut@;
        proof {
            assert(next =~= done.push(item));
            assert forall|x: int, y: int| #[trigger] covered(next, x, y) <==> covered(done, x, y)
                || item.covers(x, y) by {
                lemma_covered_push(done, item, x, y);
            }
        }
        match item.intersection(hole) {
            None => {
                kept.push(item);
                proof {
                    assert forall|x: int, y: int| #[trigger]
                        covered(kept@ + cut@, x, y) <==> covered(next, x, y) && !hole.covers(
                        x,
                        y,
                    ) by {
                        lemma_covered_insert(kept_before, cut_before, seq![item], x, y);
                        assert(kept@ =~= kept_before + seq![item]);
                        assert(seq![item][0] == item);
                        assert(covered(seq![item], x, y) <==> item.covers(x, y));
                        assert(item.covers(x, y) ==> !hole.covers(x, y));
                        assert(covered(before, x, y) <==> covered(done, x, y) && !hole.covers(
                            x,
                            y,
                        ));
                    }
                    if disjoint(rects@) {
                        lemma_disjoint_insert(
                            rects@,
                            i as int,
                            kept_before,
                            cut_before,
                            seq![item],
                            hole,
                        );
                        assert(kept@ + cut@ =~= kept_before + seq![item] + cut_before);
                    }
                }
            },
            Some(common) => {
                let mut pieces = pieces_around(item, hole, common);
                let ghost these = pieces@;
                cut.append(&mut pieces);
                proof {
                    assert(cut@ =~= cut_before + these);
                    assert(kept@ + cut@ =~= kept_before + cut_before + these);
                    assert forall|x: int, y: int| #[trigger]
                        covered(kept@ + cut@, x, y) <==> covered(next, x, y) && !hole.covers(
                        x,
                        y,
                    ) by {
                        lemma_covered_add(kept_before + cut_before, these, x, y);
                        assert(covered(these, x, y) <==> item.covers(x, y) && !hole.covers(x, y));
                        assert(covered(before, x, y) <==> covered(done, x, y) && !hole.covers(
                            x,
                            y,
                        ));
                    }
                    if disjoint(rects@) {
                        lemma_disjoint_insert(
                            rects@,
                            i as int,
                            kept_before + cut_before,
                            Seq::empty(),
                            these,
                            hole,
                        );
                        assert(kept@ + cut@ =~= kept_before + cut_before + these + Seq::empty());
                    }
                }
            },
        }
        i = i + 1;
    }
    proof {
        assert(rects@.subrange(0, i as int) =~= rects@);
    }
    let ghost whole = kept@ + cut@;
    let mut left = kept;
    left.append(&mut cut);
    assert(left@ =~= whole);
    left
}

proof fn lemma_covered_push(rects: Seq<Rect>, item: Rect, x: int, y: int)
    ensures
        covered(rects.push(item), x, y) <==> covered(rects, x, y) || item.covers(x, y),
{
    let all = rects.push(item);
    if covered(rects, x, y) {
        let i = choose|i: int| 0 <= i < rects.len() && (#[trigger] rects[i]).covers(x, y);
        assert(all[i].covers(x, y));
    }
    if item.covers(x, y) {
        assert(all[rects.len() as int].covers(x, y));
    }
    if covered(all, x, y) {
        let i = choose|i: int| 0 <= i < all.len() && (#[trigger] all[i]).covers(x, y);
        if i < rects.len() {
            assert(rects[i].covers(x, y));
        }
    }
}

proof fn lemma_covered_add(a: Seq<Rect>, b: Seq<Rect>, x: int, y: int)
    ensures
        covered(a + b, x, y) <==> covered(a, x, y) || covered(b, x, y),
{
    let all = a + b;
    if covered(a, x, y) {
        let i = choose|i: int| 0 <= i < a.len() && (#[trigger] a[i]).covers(x, y);
        assert(all[i].covers(x, y));
    }
    if covered(b, x, y) {
        let i = choose|i: int| 0 <= i < b.len() && (#[trigger] b[i]).covers(x, y);
        assert(all[a.len() + i].covers(x, y));
    }
    if covered(all, x, y) {
        let i = choose|i: int| 0 <= i < all.len() && (#[trigger] all[i]).covers(x, y);
        if i < a.len() {
            assert(a[i].covers(x, y));
        } else {
            assert(b[i - a.len()].covers(x, y));
        }
    }
}

proof fn lemma_covered_insert(a: Seq<Rect>, b: Seq<Rect>, mid: Seq<Rect>, x: int, y: int)
    ensures
        covered(a + mid + b, x, y) <==> covered(a + b, x, y) || covered(mid, x, y),
{
    lemma_covered_add(a, mid, x, y);
    lemma_covered_add(a + mid, b, x, y);
    lemma_covered_add(a, b, x, y);
}

/// Pieces of one more rectangle stay clear of what earlier ones left.
proof fn lemma_disjoint_insert(
    rects: Seq<Rect>,
    i: int,
    a: Seq<Rect>,
    b: Seq<Rect>,
    mid: Seq<Rect>,
    hole: Rect,
)
    requires
        0 <= i < rects.len(),
        disjoint(rects),
        disjoint(a + b),
        disjoint(mid),
        forall|x: int, y: int| #[trigger]
            covered(a + b, x, y) ==> covered(rects.subrange(0, i), x, y),
        forall|x: int, y: int| #[trigger] covered(mid, x, y) ==> rects[i].covers(x, y),
    ensures
        disjoint(a + mid + b),
{
    let all = a + mid + b;
    let la = a.len() as int;
    let lm = mid.len() as int;
    let outer = a + b;
    assert forall|p: int, q: int, x: int, y: int|
        #![trigger all[p].covers(x, y), all[q].covers(x, y)]
        0 <= p < q < all.len() implies !(all[p].covers(x, y) && all[q].covers(x, y)) by {
        if all[p].covers(x, y) && all[q].covers(x, y) {
            let p_mid = la <= p < la + lm;
            let q_mid = la <= q < la + lm;
            let p2 = if p < la {
                p
            } else {
                p - lm
            };
            let q2 = if q < la {
                q
            } else {
                q - lm
            };
            if p_mid && q_mid {
                assert(mid[p - la].covers(x, y) && mid[q - la].covers(x, y));
            } else if !p_mid && !q_mid {
                assert(outer[p2].covers(x, y) && outer[q2].covers(x, y));
            } else {
                let m = if p_mid {
                    p
                } else {
                    q
                };
                let o = if p_mid {
                    q2
                } else {
                    p2
                };
                assert(mid[m - la].covers(x, y));
                assert(covered(mid, x, y));
                assert(outer[o].covers(x, y));
                assert(covered(a + b, x, y));
                let done = rects.subrange(0, i);
                let d = choose|d: int| 0 <= d < done.len() && (#[trigger] done[d]).covers(x, y);
                assert(rects[d].covers(x, y) && rects[i].covers(x, y));
            }
        }
    }
}

/// What is left of `rects` once every one of `others` is cut out of them.
pub fn subtract_rects_many(rects: Vec<Rect>, others: &[Rect]) -> (left: Vec<Rect>)
    requires
        all_valid(rects@),
        all_valid(others@),
    ensures
        all_valid(left@),
        is_difference(left@, rects@, others@),
        disjoint(rects@) ==> disjoint(left@),
{
    let ghost whole = rects@;
    let mut left = rects;
    let mut i: usize = 0;
    while i < others.len()
        invariant
            i <= others.len(),
            all_valid(others@),
            all_valid(left@),
            is_difference(left@, whole, others@.subrange(0, i as int)),
            disjoint(whole) ==> disjoint(left@),
        decreases others.len() - i,
    {
        let ghost done = others@.subrange(0, i as int);
        let ghost before = left@;
        left = subtract_rect(left, others[i]);
        proof {
            let next = others@.subrange(0, i + 1);
            assert(next =~= done.push(others@[i as int]));
            assert forall|x: int, y: int| #[trigger] covered(left@, x, y) <==> covered(whole, x, y)
                && !covered(next, x, y) by {
                lemma_covered_push(done, others@[i as int], x, y);
                assert(covered(before, x, y) <==> covered(whole, x, y) && !covered(done, x, y));
            }
        }
        i = i + 1;
    }
    assert(others@.subrange(0, i as int) =~= others@);
    left
}

/// The parts of `area` that none of `holes` covers.
pub fn cut_out(area: Rect, holes: &[Rect]) -> (left: Vec<Rect>)
    requires
        area.valid(),
        all_valid(holes@),
    ensures
        all_valid(left@),
        disjoint(left@),
        forall|x: int, y: int| #[trigger]
            covered(left@, x, y) <==> area.covers(x, y) && !covered(holes@, x, y),
{
    let mut whole: Vec<Rect> = Vec::new();
    whole.push(area);
    let ghost one = whole@;
    let left = subtract_rects_many(whole, holes);
    assert forall|x: int, y: int| #[trigger] covered(left@, x, y) <==> area.covers(x, y)
        && !covered(holes@, x, y) by {
        if area.covers(x, y) {
            assert(one[0].covers(x, y));
        }
        assert(covered(one, x, y) <==> area.covers(x, y));
    }
    left
}

} // verus!
