//! Keeping souls apart: one relaxation pass per frame pushes crowded pairs
//! away from each other.

use vstd::prelude::*;
use vstd::seq_lib::seq_to_set_is_finite;
use vstd::set_lib::{lemma_int_range, lemma_len_subset, set_int_range};
use crate::geometry::{
    dist_sq, lemma_dist_covers_axes, lemma_separation_widens, separation, separation_push, Aabb,
    Point, WORLD_LIMIT,
};
use crate::souls::Soul;
use crate::spatial::{exact_hits, query_hits, SpatialIndex};

verus! {

/// The side of the box that stands for a soul in the index. Every soul gets
/// the same box, anchored at its position, whatever it looks like on screen.
pub const SOUL_SIZE: i64 = 16_000;

/// The box that stands for a soul at `pos`.
pub open spec fn soul_box(pos: Point) -> Aabb {
    Aabb {
        min_x: pos.x,
        min_y: pos.y,
        max_x: (pos.x + SOUL_SIZE) as i64,
        max_y: (pos.y + SOUL_SIZE) as i64,
    }
}

/// The boxes that stand for the souls in the index, in the order of the
/// souls.
pub open spec fn boxes_of(souls: Seq<Soul>) -> Seq<Aabb> {
    Seq::new(souls.len(), |k: int| soul_box(souls[k].pos))
}

/// The area in which the index is asked for the souls that may crowd one at
/// `pos`: the soul's own box, widened by the separation on every side.
pub open spec fn crowd_area(pos: Point, min_distance: int) -> Aabb {
    Aabb {
        min_x: (pos.x - min_distance) as i64,
        min_y: (pos.y - min_distance) as i64,
        max_x: (pos.x + SOUL_SIZE + min_distance) as i64,
        max_y: (pos.y + SOUL_SIZE + min_distance) as i64,
    }
}

/// The souls after soul `i`, whose turn it is, and soul `j` have been pushed
/// apart, from where the two stand now.
pub open spec fn pushed_pair(souls: Seq<Soul>, i: int, j: int, min_distance: int) -> Seq<Soul> {
    let push = separation(
        souls[i].pos,
        souls[j].pos,
        min_distance,
        souls[i].is_following || souls[j].is_following,
    );
    souls.update(i, Soul { pos: souls[i].pos.plus(push), ..souls[i] }).update(
        j,
        Soul { pos: souls[j].pos.minus(push), ..souls[j] },
    )
}

/// The souls after the first `t` of the `hits` reported for soul `i` have
/// been dealt with. A pair is looked at once in a pass, in the turn of the
/// soul that is stored first: hits stored at or before `i` are passed over.
pub open spec fn turn_upto(
    souls: Seq<Soul>,
    i: int,
    hits: Seq<usize>,
    min_distance: int,
    t: int,
) -> Seq<Soul>
    decreases t,
{
    if t <= 0 {
        souls
    } else {
        let before = turn_upto(souls, i, hits, min_distance, t - 1);
        let j = hits[t - 1] as int;
        if i < j < souls.len() {
            pushed_pair(before, i, j, min_distance)
        } else {
            before
        }
    }
}

/// The souls after the turns of the first `i` of them. The index is not
/// rebuilt within a pass: each turn asks `boxes`, the boxes of the frame,
/// once, around the place where its soul stands when the turn begins. Every
/// push is seen by all that follows in the pass.
pub open spec fn pass_upto(souls: Seq<Soul>, boxes: Seq<Aabb>, min_distance: int, i: int) -> Seq<
    Soul,
>
    decreases i,
{
    if i <= 0 {
        souls
    } else {
        let before = pass_upto(souls, boxes, min_distance, i - 1);
        let hits = query_hits(boxes, crowd_area(before[i - 1].pos, min_distance));
        turn_upto(before, i - 1, hits, min_distance, hits.len() as int)
    }
}

/// The souls after one whole pass.
pub open spec fn overlap_pass(souls: Seq<Soul>, boxes: Seq<Aabb>, min_distance: int) -> Seq<Soul> {
    pass_upto(souls, boxes, min_distance, souls.len() as int)
}

/// Two sequences of souls differ in nothing but where the souls stand.
pub open spec fn same_but_places(a: Seq<Soul>, b: Seq<Soul>) -> bool {
    &&& a.len() == b.len()
    &&& forall|k: int| 0 <= k < a.len() ==> #[trigger] a[k] == (Soul { pos: a[k].pos, ..b[k] })
}

/// Every soul stands within `reach` of the origin.
pub open spec fn all_within(souls: Seq<Soul>, reach: int) -> bool {
    forall|k: int| 0 <= k < souls.len() ==> (#[trigger] souls[k]).pos.within(reach)
}

/// `a` lies no further than `reach` from `b` along either axis.
pub open spec fn near(a: Point, b: Point, reach: int) -> bool {
    &&& -reach <= a.x - b.x <= reach
    &&& -reach <= a.y - b.y <= reach
}

/// The souls leave room for a pass: none is pushed more often than there are
/// other souls, nor further than `min_distance` at a time, and none may leave
/// the world.
pub open spec fn pass_has_room(souls: Seq<Soul>, min_distance: int) -> bool {
    all_within(souls, WORLD_LIMIT - souls.len() * min_distance)
}

/// The souls leave room for the turn of soul `i`, in which soul `i` is pushed
/// at most once for each soul stored after it, and each of those once.
pub open spec fn turn_has_room(souls: Seq<Soul>, i: int, min_distance: int) -> bool {
    &&& souls[i].pos.within(WORLD_LIMIT - (souls.len() - 1 - i) * min_distance)
    &&& forall|k: int|
        i < k < souls.len() ==> (#[trigger] souls[k]).pos.within(WORLD_LIMIT - min_distance)
}

/// An answer of the index is no longer than the index.
pub proof fn lemma_hits_fit(boxes: Seq<Aabb>, area: Aabb, hits: Seq<usize>)
    requires
        exact_hits(boxes, area, hits),
    ensures
        hits.len() <= boxes.len(),
        forall|t: int| 0 <= t < hits.len() ==> (#[trigger] hits[t]) < boxes.len(),
{
    assert forall|t: int| 0 <= t < hits.len() implies (#[trigger] hits[t]) < boxes.len() by {
        assert(hits.contains(hits[t]));
    }
    let places = Seq::new(hits.len(), |t: int| hits[t] as int);
    assert(places.no_duplicates());
    places.unique_seq_to_set();
    seq_to_set_is_finite(places);
    let all = set_int_range(0, boxes.len() as int);
    lemma_int_range(0, boxes.len() as int);
    assert(places.to_set().subset_of(all)) by {
        assert forall|v: int| places.to_set().contains(v) implies all.contains(v) by {
            let t = choose|t: int| 0 <= t < places.len() && places[t] == v;
            assert(hits[t] < boxes.len());
        }
    }
    lemma_len_subset(places.to_set(), all);
}

/// In the turn of the first of two souls, the second is pushed once if the
/// index reports it, however the answer is ordered.
proof fn lemma_first_turn_of_two(souls: Seq<Soul>, hits: Seq<usize>, min_distance: int, t: int)
    requires
        souls.len() == 2,
        hits.no_duplicates(),
        forall|s: int| 0 <= s < hits.len() ==> (#[trigger] hits[s]) < 2,
        0 <= t <= hits.len(),
    ensures
        turn_upto(souls, 0, hits, min_distance, t) == (if exists|s: int|
            0 <= s < t && hits[s] == 1 {
            pushed_pair(souls, 0, 1, min_distance)
        } else {
            souls
        }),
    decreases t,
{
    if t > 0 {
        lemma_first_turn_of_two(souls, hits, min_distance, t - 1);
        if hits[t - 1] == 1 {
            assert forall|s: int| 0 <= s < t - 1 implies hits[s] != 1 by {
                assert(hits[s] != hits[t - 1]);
            }
        } else {
            assert(hits[t - 1] == 0);
            if exists|s: int| 0 <= s < t && hits[s] == 1 {
                let s = choose|s: int| 0 <= s < t && hits[s] == 1;
                assert(0 <= s < t - 1 && hits[s] == 1);
            }
        }
    }
}

/// In the turn of the last soul nothing moves: no soul is stored after it.
proof fn lemma_last_turn_idle(souls: Seq<Soul>, hits: Seq<usize>, min_distance: int, t: int)
    requires
        0 <= t,
    ensures
        turn_upto(souls, souls.len() - 1, hits, min_distance, t) == souls,
    decreases t,
{
    if t > 0 {
        lemma_last_turn_idle(souls, hits, min_distance, t - 1);
    }
}

/// One pass over two souls that stand closer than `min_distance`, with the
/// index built from where they stand and answering as an index does,
/// strictly widens the gap between them; unless they stand on the very same
/// spot, where the pass leaves them.
pub proof fn lemma_pass_widens_pair(souls: Seq<Soul>, min_distance: int)
    requires
        souls.len() == 2,
        souls[0].pos.in_world(),
        souls[1].pos.in_world(),
        0 < min_distance <= u32::MAX,
        dist_sq(souls[0].pos, souls[1].pos) < min_distance * min_distance,
        exact_hits(
            boxes_of(souls),
            crowd_area(souls[0].pos, min_distance),
            query_hits(boxes_of(souls), crowd_area(souls[0].pos, min_distance)),
        ),
    ensures
        ({
            let after = overlap_pass(souls, boxes_of(souls), min_distance);
            &&& after.len() == 2
            &&& dist_sq(souls[0].pos, souls[1].pos) > 0 ==> dist_sq(after[0].pos, after[1].pos)
                > dist_sq(souls[0].pos, souls[1].pos)
            &&& dist_sq(souls[0].pos, souls[1].pos) == 0 ==> after =~= souls
        }),
{
    let boxes = boxes_of(souls);
    let a = souls[0].pos;
    let b = souls[1].pos;
    let area = crowd_area(a, min_distance);
    let hits = query_hits(boxes, area);
    lemma_dist_covers_axes(a.x - b.x, a.y - b.y, min_distance);
    assert(boxes[1] == soul_box(b));
    assert(boxes[1].overlaps(area));
    assert(hits.contains(1usize));
    let at = choose|s: int| 0 <= s < hits.len() && hits[s] == 1usize;
    assert forall|s: int| 0 <= s < hits.len() implies (#[trigger] hits[s]) < 2 by {
        assert(hits.contains(hits[s]));
    }
    lemma_first_turn_of_two(souls, hits, min_distance, hits.len() as int);
    assert(0 <= at < hits.len() && hits[at] == 1);
    let first = pushed_pair(souls, 0, 1, min_distance);
    assert(pass_upto(souls, boxes, min_distance, 0) == souls);
    assert(pass_upto(souls, boxes, min_distance, 1) == first) by {
        reveal_with_fuel(pass_upto, 2);
    }
    let later = query_hits(boxes, crowd_area(first[1].pos, min_distance));
    lemma_last_turn_idle(first, later, min_distance, later.len() as int);
    assert(overlap_pass(souls, boxes, min_distance) == first) by {
        reveal_with_fuel(pass_upto, 3);
    }
    let following = souls[0].is_following || souls[1].is_following;
    let push = separation(a, b, min_distance, following);
    if dist_sq(a, b) > 0 {
        lemma_separation_widens(a, b, min_distance, following);
    } else {
        let dx = a.x - b.x;
        let dy = a.y - b.y;
        assert(dx * dx + dy * dy >= 0) by (nonlinear_arith);
        assert(push == Point { x: 0, y: 0 });
        assert(souls[0].pos.plus(push) == souls[0].pos);
        assert(souls[1].pos.minus(push) == souls[1].pos);
        assert(first[0] == souls[0]);
        assert(first[1] == souls[1]);
        assert(first =~= souls);
    }
}

/// Whether the souls leave room for a pass.
pub fn leaves_room(souls: &Vec<Soul>, min_distance: u32) -> (ok: bool)
    ensures
        ok == pass_has_room(souls@, min_distance as int),
{
    assert(0 <= souls.len() * min_distance <= 0xffff_ffff_ffff_ffff * 0xffff_ffff)
        by (nonlinear_arith)
        requires
            0 <= souls.len() <= 0xffff_ffff_ffff_ffff,
            0 <= min_distance <= 0xffff_ffff,
    ;
    let reach: i128 = WORLD_LIMIT as i128 - (souls.len() as i128) * (min_distance as i128);
    let mut k: usize = 0;
    while k < souls.len()
        invariant
            k <= souls.len(),
            reach == WORLD_LIMIT - souls.len() * min_distance,
            -0x1_0000_0000_0000_0000_0000_0000 <= reach <= WORLD_LIMIT,
            forall|j: int| 0 <= j < k ==> (#[trigger] souls[j]).pos.within(reach as int),
        decreases souls.len() - k,
    {
        let pos = souls[k].pos;
        if !(-reach <= pos.x as i128 && pos.x as i128 <= reach && -reach <= pos.y as i128
            && pos.y as i128 <= reach) {
            assert(!souls@[k as int].pos.within(reach as int));
            return false;
        }
        k += 1;
    }
    true
}

/// Takes the turn of soul `i`: the soul is pushed away from each of
/// `close_souls`, in their order, that is stored after it and stands closer
/// than `min_distance`, and that soul is pushed as far the other way.
pub fn take_turn(souls: &mut Vec<Soul>, i: usize, close_souls: &Vec<usize>, min_distance: u32)
    requires
        i < old(souls).len(),
        close_souls@.no_duplicates(),
        forall|s: int| 0 <= s < close_souls.len() ==> (#[trigger] close_souls[s]) < old(souls).len(),
        turn_has_room(old(souls)@, i as int, min_distance as int),
    ensures
        final(souls)@ == turn_upto(
            old(souls)@,
            i as int,
            close_souls@,
            min_distance as int,
            close_souls.len() as int,
        ),
        same_but_places(final(souls)@, old(souls)@),
        forall|k: int| 0 <= k < i ==> final(souls)[k] == old(souls)[k],
        forall|k: int|
            i < k < old(souls).len() ==> near(
                (#[trigger] final(souls)[k]).pos,
                old(souls)[k].pos,
                min_distance as int,
            ),
        near(
            final(souls)[i as int].pos,
            old(souls)[i as int].pos,
            (old(souls).len() - 1 - i) * min_distance,
        ),
{
    let ghost start = souls@;
    let ghost reach = min_distance as int;
    let count = souls.len();
    let ghost later = set_int_range(i + 1, count as int);
    let ghost mut pushed: Set<int> = Set::empty();
    proof {
        lemma_int_range(i + 1, count as int);
        assert(0 * reach == 0) by (nonlinear_arith);
    }
    let mut t: usize = 0;
    while t < close_souls.len()
        invariant
            t <= close_souls.len(),
            i < count,
            count == souls.len(),
            count == start.len(),
            reach == min_distance,
            later == set_int_range(i + 1, count as int),
            later.finite(),
            later.len() == count - 1 - i,
            close_souls@.no_duplicates(),
            forall|s: int| 0 <= s < close_souls.len() ==> (#[trigger] close_souls[s]) < count,
            turn_has_room(start, i as int, reach),
            souls@ == turn_upto(start, i as int, close_souls@, reach, t as int),
            same_but_places(souls@, start),
            pushed.finite(),
            pushed.subset_of(later),
            forall|v: int|
                pushed.contains(v) <==> i < v < count && exists|s: int|
                    0 <= s < t && close_souls[s] == v,
            forall|k: int|
                0 <= k < count && k != i && !pushed.contains(k) ==> #[trigger] souls[k] == start[k],
            forall|k: int|
                pushed.contains(k) ==> near((#[trigger] souls[k]).pos, start[k].pos, reach),
            near(souls[i as int].pos, start[i as int].pos, pushed.len() * reach),
        decreases close_souls.len() - t,
    {
        let n = close_souls[t];
        let ghost held = souls@;
        let ghost before = pushed;
        if n > i {
            proof {
                assert forall|s: int| 0 <= s < t implies close_souls[s] != n by {
                    assert(close_souls@[s] != close_souls@[t as int]);
                }
                assert(!before.contains(n as int));
                pushed = before.insert(n as int);
                assert(pushed.subset_of(later));
                lemma_len_subset(pushed, later);
                let m = before.len() as int;
                assert(m + 1 <= count - 1 - i);
                assert(m * reach + reach <= (count - 1 - i) * reach && (m + 1) * reach == m
                    * reach + reach && 0 <= m * reach) by (nonlinear_arith)
                    requires
                        0 <= m,
                        m + 1 <= count - 1 - i,
                        0 <= reach,
                ;
            }
            let first = souls[i];
            let second = souls[n];
            assert(second == start[n as int]);
            let is_following = first.is_following || second.is_following;
            let push = separation_push(first.pos, second.pos, min_distance, is_following);
            souls.set(
                i,
                Soul { pos: Point { x: first.pos.x + push.x, y: first.pos.y + push.y }, ..first },
            );
            souls.set(
                n,
                Soul {
                    pos: Point { x: second.pos.x - push.x, y: second.pos.y - push.y },
                    ..second
                },
            );
            assert(souls@ == pushed_pair(held, i as int, n as int, reach));
        }
        t += 1;
        proof {
            assert forall|v: int|
                pushed.contains(v) <==> i < v < count && exists|s: int|
                    0 <= s < t && close_souls[s] == v by {
                if v == n as int {
                    assert(close_souls[t - 1] == v);
                } else if exists|s: int| 0 <= s < t && close_souls[s] == v {
                    let s = choose|s: int| 0 <= s < t && close_souls[s] == v;
                    assert(0 <= s < t - 1 && close_souls[s] == v);
                }
            }
        }
    }
    proof {
        lemma_len_subset(pushed, later);
        let m = pushed.len() as int;
        assert(m * reach <= (count - 1 - i) * reach) by (nonlinear_arith)
            requires
                0 <= m <= count - 1 - i,
                0 <= reach,
        ;
    }
}

/// Runs one pass: every soul in turn is pushed away from each soul stored
/// after it that the index reports near it and that stands closer than
/// `min_distance`. A pass over two crowded souls, with the index built from
/// where they stand, strictly widens the gap between them; unless they stand
/// on the very same spot, where it leaves them.
pub fn avoid_overlap(souls: &mut Vec<Soul>, min_distance: u32, aabb_index: &SpatialIndex)
    requires
        aabb_index@.len() == old(souls).len(),
        pass_has_room(old(souls)@, min_distance as int),
    ensures
        final(souls)@ == overlap_pass(old(souls)@, aabb_index@, min_distance as int),
        same_but_places(final(souls)@, old(souls)@),
        all_within(final(souls)@, WORLD_LIMIT as int),
        (old(souls).len() == 2 && aabb_index@ == boxes_of(old(souls)@) && dist_sq(
            old(souls)[0].pos,
            old(souls)[1].pos,
        ) < min_distance * min_distance) ==> {
            &&& dist_sq(old(souls)[0].pos, old(souls)[1].pos) > 0 ==> dist_sq(
                final(souls)[0].pos,
                final(souls)[1].pos,
            ) > dist_sq(old(souls)[0].pos, old(souls)[1].pos)
            &&& dist_sq(old(souls)[0].pos, old(souls)[1].pos) == 0 ==> final(souls)@ == old(
                souls,
            )@
        },
{
    let ghost start = souls@;
    let ghost boxes = aabb_index@;
    let ghost reach = min_distance as int;
    let count = souls.len();
    let mut i: usize = 0;
    while i < count
        invariant
            i <= count,
            count == souls.len(),
            count == start.len(),
            reach == min_distance,
            boxes == aabb_index@,
            boxes.len() == count,
            souls@ == pass_upto(start, boxes, reach, i as int),
            same_but_places(souls@, start),
            forall|k: int| 0 <= k < i ==> (#[trigger] souls[k]).pos.within(WORLD_LIMIT as int),
            forall|k: int|
                i <= k < count ==> (#[trigger] souls[k]).pos.within(
                    WORLD_LIMIT - count * reach + i * reach,
                ),
            i >= 1 ==> exact_hits(
                boxes,
                crowd_area(start[0].pos, reach),
                query_hits(boxes, crowd_area(start[0].pos, reach)),
            ),
        decreases count - i,
    {
        let ghost turn_start = souls@;
        proof {
            assert(count * reach - i * reach == (count - 1 - i) * reach + reach && (count - 1 - i)
                * reach >= 0 && i * reach >= 0) by (nonlinear_arith)
                requires
                    0 <= i < count,
                    0 <= reach,
            ;
            assert(turn_start[i as int].pos.within(WORLD_LIMIT - count * reach + i * reach));
            assert(turn_has_room(turn_start, i as int, reach)) by {
                assert forall|k: int| i < k < count implies (#[trigger] turn_start[k]).pos.within(
                    WORLD_LIMIT - reach,
                ) by {
                    assert(souls[k].pos.within(WORLD_LIMIT - count * reach + i * reach));
                }
            }
        }
        let anchor = souls[i].pos;
        let area = Aabb {
            min_x: anchor.x - min_distance as i64,
            min_y: anchor.y - min_distance as i64,
            max_x: anchor.x + SOUL_SIZE + min_distance as i64,
            max_y: anchor.y + SOUL_SIZE + min_distance as i64,
        };
        assert(area == crowd_area(anchor, reach));
        let close_souls = aabb_index.query(area);
        proof {
            lemma_hits_fit(boxes, area, close_souls@);
        }
        take_turn(souls, i, &close_souls, min_distance);
        proof {
            assert(i * reach + reach == (i + 1) * reach) by (nonlinear_arith);
            assert forall|k: int| 0 <= k < i + 1 implies (#[trigger] souls[k]).pos.within(
                WORLD_LIMIT as int,
            ) by {
                if k < i {
                    assert(souls[k] == turn_start[k]);
                } else {
                    assert(near(souls[k].pos, turn_start[k].pos, (count - 1 - i) * reach));
                }
            }
            assert forall|k: int| i + 1 <= k < count implies (#[trigger] souls[k]).pos.within(
                WORLD_LIMIT - count * reach + (i + 1) * reach,
            ) by {
                assert(near(souls[k].pos, turn_start[k].pos, reach));
                assert(turn_start[k].pos.within(WORLD_LIMIT - count * reach + i * reach));
            }
            assert(same_but_places(souls@, start)) by {
                assert forall|k: int| 0 <= k < count implies #[trigger] souls@[k] == (Soul {
                    pos: souls@[k].pos,
                    ..start[k]
                }) by {
                    assert(souls@[k] == (Soul { pos: souls@[k].pos, ..turn_start[k] }));
                    assert(turn_start[k] == (Soul { pos: turn_start[k].pos, ..start[k] }));
                }
            }
        }
        i += 1;
    }
    proof {
        if count == 2 && boxes == boxes_of(start) && dist_sq(start[0].pos, start[1].pos) < reach
            * reach {
            let dx = start[0].pos.x - start[1].pos.x;
            let dy = start[0].pos.y - start[1].pos.y;
            assert(dx * dx + dy * dy >= 0 && (reach == 0 ==> reach * reach == 0))
                by (nonlinear_arith);
            assert(2 * reach >= 0);
            assert(start[0].pos.within(WORLD_LIMIT - 2 * reach));
            assert(start[1].pos.within(WORLD_LIMIT - 2 * reach));
            lemma_pass_widens_pair(start, reach);
        }
    }
}

} // verus!
